use connection_core::codec::LinesTcp;

#[test]
fn frames_per_marker() {
    // a stream with three CRLF markers yields exactly three frames,
    // each the bytes strictly between consecutive markers
    let mut c = LinesTcp::new();
    c.feed(b"a\r\nbb\r\n\r\n");
    assert_eq!(c.next_frame(), Some(b"a".to_vec()));
    assert_eq!(c.next_frame(), Some(b"bb".to_vec()));
    assert_eq!(c.next_frame(), Some(b"".to_vec()));
    assert_eq!(c.next_frame(), None);
}

#[test]
fn no_marker_bytes_inside_frames() {
    let mut c = LinesTcp::new();
    c.feed(b"x\ry\nz\r\ntail\r\r\n");
    let f1 = c.next_frame().unwrap();
    assert_eq!(f1, b"x\ry\nz".to_vec());
    assert!(!f1.windows(2).any(|w| w == b"\r\n"));
    let f2 = c.next_frame().unwrap();
    assert_eq!(f2, b"tail\r".to_vec());
    assert!(!f2.windows(2).any(|w| w == b"\r\n"));
    assert_eq!(c.next_frame(), None);
}

#[test]
fn drain_takes_every_complete_frame() {
    let mut c = LinesTcp::new();
    c.feed(b"a\r\nbb\r\n\r\nrest");
    assert_eq!(
        c.drain_frames(),
        vec![b"a".to_vec(), b"bb".to_vec(), b"".to_vec()]
    );
    assert_eq!(c.drain_frames(), Vec::<Vec<u8>>::new());
    c.feed(b"\r\n");
    assert_eq!(c.drain_frames(), vec![b"rest".to_vec()]);
}

#[test]
fn split_read_yields_one_frame() {
    // a frame split across two read events arrives once, reassembled
    let mut c = LinesTcp::new();
    c.feed(b"AB");
    assert_eq!(c.next_frame(), None);
    c.feed(b"C\r\n");
    assert_eq!(c.next_frame(), Some(b"ABC".to_vec()));
    assert_eq!(c.next_frame(), None);
}

#[test]
fn terminator_split_across_reads() {
    let mut c = LinesTcp::new();
    c.feed(b"one\r");
    assert_eq!(c.next_frame(), None);
    c.feed(b"\ntwo\r\n");
    assert_eq!(c.next_frame(), Some(b"one".to_vec()));
    assert_eq!(c.next_frame(), Some(b"two".to_vec()));
    assert_eq!(c.next_frame(), None);
}

#[test]
fn residual_bytes_await_more_data() {
    let mut c = LinesTcp::new();
    c.feed(b"done\r\npart");
    assert_eq!(c.next_frame(), Some(b"done".to_vec()));
    assert_eq!(c.next_frame(), None);
    c.feed(b"ial\r\n");
    assert_eq!(c.next_frame(), Some(b"partial".to_vec()));
}

#[test]
fn write_buffer_partial_flush() {
    let mut c = LinesTcp::new();
    c.buffer(b"hello");
    assert_eq!(c.pending_write(), b"hello");
    assert_eq!(c.pending_write_len(), 5);
    // the socket accepted three bytes
    assert!(c.advance_write(3));
    assert_eq!(c.pending_write(), b"lo");
    // more than is buffered is refused without effect
    assert!(!c.advance_write(5));
    assert_eq!(c.pending_write(), b"lo");
    assert!(c.advance_write(2));
    assert_eq!(c.pending_write(), b"");
}

#[test]
fn empty_stream_has_no_frames() {
    let mut c = LinesTcp::new();
    assert_eq!(c.next_frame(), None);
    c.feed(b"");
    assert_eq!(c.next_frame(), None);
}
