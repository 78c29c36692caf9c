use connection_core::history::HistoryBuffer;
use connection_core::HISTORY_SIZE;

#[test]
fn keeps_last_sixteen_oldest_first() {
    // after 20 recorded lines the buffer holds exactly the last 16,
    // oldest first
    let mut h = HistoryBuffer::new();
    for i in 1..=20 {
        h.push(format!("m{}", i));
    }
    assert_eq!(h.len(), HISTORY_SIZE);
    for (slot, i) in (5..=20).enumerate() {
        assert_eq!(h.get(slot), format!("m{}", i));
    }
}

#[test]
fn below_capacity_keeps_everything() {
    let mut h = HistoryBuffer::new();
    assert_eq!(h.len(), 0);
    for i in 0..5 {
        h.push(format!("line {}", i));
    }
    assert_eq!(h.len(), 5);
    assert_eq!(h.get(0), "line 0");
    assert_eq!(h.get(4), "line 4");
}

#[test]
fn overflow_evicts_oldest() {
    let mut h = HistoryBuffer::new();
    for i in 0..HISTORY_SIZE {
        h.push(format!("{}", i));
    }
    h.push("newest".to_string());
    assert_eq!(h.len(), HISTORY_SIZE);
    assert_eq!(h.get(0), "1");
    assert_eq!(h.get(HISTORY_SIZE - 1), "newest");
}
