use connection_core::queue::{pass_line, OutboundQueue};
use connection_core::CHANNEL_BUFF_SIZE;

#[test]
fn fifo_order() {
    let mut q = OutboundQueue::new();
    assert_eq!(q.len(), 0);
    assert!(q.try_enqueue(b"first".to_vec()).is_ok());
    assert!(q.try_enqueue(b"second".to_vec()).is_ok());
    assert_eq!(q.len(), 2);
    assert_eq!(q.dequeue(), Some(b"first".to_vec()));
    assert_eq!(q.dequeue(), Some(b"second".to_vec()));
    assert_eq!(q.dequeue(), None);
}

#[test]
fn overflow_fails_without_blocking() {
    // fill to capacity, then one more enqueue fails at once and the
    // queue is unchanged
    let mut q = OutboundQueue::new();
    for i in 0..CHANNEL_BUFF_SIZE {
        assert!(q.try_enqueue(vec![(i % 256) as u8]).is_ok());
    }
    assert_eq!(q.len(), CHANNEL_BUFF_SIZE);
    assert!(q.try_enqueue(b"overflow".to_vec()).is_err());
    assert_eq!(q.len(), CHANNEL_BUFF_SIZE);
    assert_eq!(q.dequeue(), Some(vec![0u8]));
}

#[test]
fn pass_line_frames_with_crlf() {
    let mut q = OutboundQueue::new();
    assert!(pass_line(&mut q, "hi there").is_ok());
    assert_eq!(q.dequeue(), Some(b"hi there\r\n".to_vec()));
}

#[test]
fn pass_line_keeps_utf8() {
    let mut q = OutboundQueue::new();
    assert!(pass_line(&mut q, "héllo").is_ok());
    assert_eq!(q.dequeue(), Some("héllo\r\n".as_bytes().to_vec()));
}
