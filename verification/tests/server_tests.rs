use connection_core::codec::LinesTcp;
use connection_core::router::ServerState;
use connection_core::CHANNEL_BUFF_SIZE;

fn drain_peer(s: &mut ServerState, id: u64) -> Vec<Vec<u8>> {
    let k = s.registry.find_index(id).unwrap();
    let mut out = Vec::new();
    while let Some(f) = s.registry.dequeue_at(k) {
        out.push(f);
    }
    out
}

#[test]
fn end_to_end_join_chat_leave() {
    let mut s = ServerState::new();

    // A connects and names itself
    assert!(s.handle_add_user(1));
    let log = s.handle_receive_msg(1, "Alice".to_string()).unwrap();
    assert_eq!(log, ">>> New user: Alice");
    let a_frames = drain_peer(&mut s, 1);
    assert_eq!(a_frames, vec![b">>> Connected! Other user(s): \r\n".to_vec()]);

    // B connects and names itself: B gets a roster mentioning Alice,
    // A gets a join line mentioning Bob
    assert!(s.handle_add_user(2));
    let log = s.handle_receive_msg(2, "Bob".to_string()).unwrap();
    assert_eq!(log, ">>> New user: Bob");
    let b_frames = drain_peer(&mut s, 2);
    assert_eq!(b_frames.len(), 1);
    let roster_line = String::from_utf8(b_frames[0].clone()).unwrap();
    assert!(roster_line.contains("Alice"));
    assert!(!roster_line.contains("Bob"));
    let a_frames = drain_peer(&mut s, 1);
    assert_eq!(a_frames, vec![b">>> New user: Bob\r\n".to_vec()]);

    // A chats: B receives the formatted relay, A does not
    let log = s.handle_receive_msg(1, "hi".to_string()).unwrap();
    assert_eq!(log, "Alice: hi");
    assert_eq!(drain_peer(&mut s, 2), vec![b"Alice: hi\r\n".to_vec()]);
    assert_eq!(drain_peer(&mut s, 1), Vec::<Vec<u8>>::new());

    // A disconnects: B receives a departure line mentioning Alice
    let leave = s.handle_removed_user(1).unwrap();
    assert!(leave.contains("Alice"));
    assert!(leave.contains("left"));
    assert_eq!(drain_peer(&mut s, 2), vec![format!("{}\r\n", leave).into_bytes()]);
}

#[test]
fn new_peer_replays_last_sixteen_oldest_first() {
    // 20 post-handshake broadcasts with history capacity 16: a newly
    // joined peer receives exactly the last 16, oldest first, then the
    // roster line
    let mut s = ServerState::new();
    assert!(s.handle_add_user(1));
    s.handle_receive_msg(1, "Alice".to_string()).unwrap();
    for i in 1..=20 {
        s.handle_receive_msg(1, format!("m{}", i)).unwrap();
    }
    assert!(s.handle_add_user(2));
    s.handle_receive_msg(2, "Bob".to_string()).unwrap();
    let frames = drain_peer(&mut s, 2);
    assert_eq!(frames.len(), 17);
    for (slot, i) in (5..=20).enumerate() {
        assert_eq!(frames[slot], format!("Alice: m{}\r\n", i).into_bytes());
    }
    let roster = String::from_utf8(frames[16].clone()).unwrap();
    assert!(roster.starts_with(">>> Connected!"));
    assert!(roster.contains("Alice"));
}

#[test]
fn roster_excludes_self_and_unnamed() {
    let mut s = ServerState::new();
    assert!(s.handle_add_user(1));
    s.handle_receive_msg(1, "Alice".to_string()).unwrap();
    assert!(s.handle_add_user(2));
    s.handle_receive_msg(2, "Bob".to_string()).unwrap();
    // peer 3 never sends a name
    assert!(s.handle_add_user(3));
    let roster_for_1 = s.registry.list_clients(1);
    assert_eq!(roster_for_1, " Bob");
    let roster_for_2 = s.registry.list_clients(2);
    assert_eq!(roster_for_2, " Alice");
    let roster_for_9 = s.registry.list_clients(9);
    assert_eq!(roster_for_9, " Alice Bob");
}

#[test]
fn full_queue_drops_without_hurting_others() {
    // filling one peer's queue to capacity: the next enqueue fails at
    // once, and a broadcast still reaches every other peer
    let mut s = ServerState::new();
    assert!(s.handle_add_user(1));
    s.handle_receive_msg(1, "Alice".to_string()).unwrap();
    assert!(s.handle_add_user(2));
    s.handle_receive_msg(2, "Bob".to_string()).unwrap();
    assert!(s.handle_add_user(3));
    s.handle_receive_msg(3, "Cleo".to_string()).unwrap();
    // empty Bob's queue, then fill it to the brim
    drain_peer(&mut s, 2);
    let k2 = s.registry.find_index(2).unwrap();
    for _ in 0..CHANNEL_BUFF_SIZE {
        assert!(s.registry.send_line_at(k2, "x").is_ok());
    }
    assert!(s.registry.send_line_at(k2, "one more").is_err());
    drain_peer(&mut s, 3);
    // Alice chats: Bob's copy is dropped, Cleo's arrives
    s.handle_receive_msg(1, "hello".to_string()).unwrap();
    assert_eq!(drain_peer(&mut s, 3), vec![b"Alice: hello\r\n".to_vec()]);
    let bob = drain_peer(&mut s, 2);
    assert_eq!(bob.len(), CHANNEL_BUFF_SIZE);
    assert!(bob.iter().all(|f| f == b"x\r\n"));
}

#[test]
fn unnamed_disconnect_is_silent() {
    // a connection that disconnects before sending a name produces zero
    // broadcast traffic
    let mut s = ServerState::new();
    assert!(s.handle_add_user(1));
    s.handle_receive_msg(1, "Alice".to_string()).unwrap();
    drain_peer(&mut s, 1);
    assert!(s.handle_add_user(2));
    assert_eq!(s.handle_removed_user(2), None);
    assert_eq!(drain_peer(&mut s, 1), Vec::<Vec<u8>>::new());
    assert!(s.registry.find_index(2).is_none());
}

#[test]
fn unknown_peer_is_refused() {
    let mut s = ServerState::new();
    assert!(s.handle_receive_msg(7, "ghost".to_string()).is_err());
    assert_eq!(s.handle_removed_user(7), None);
    assert!(s.handle_add_user(7));
    assert!(!s.handle_add_user(7));
}

#[test]
fn first_line_is_name_not_chat() {
    let mut s = ServerState::new();
    assert!(s.handle_add_user(1));
    s.handle_receive_msg(1, "Alice".to_string()).unwrap();
    drain_peer(&mut s, 1);
    assert!(s.handle_add_user(2));
    // B's first line becomes its name; A sees a join line, not chat
    s.handle_receive_msg(2, "hello everyone".to_string()).unwrap();
    assert_eq!(
        drain_peer(&mut s, 1),
        vec![b">>> New user: hello everyone\r\n".to_vec()]
    );
    // and the name line never enters history: a later joiner replays
    // nothing but real chat
    assert!(s.handle_add_user(3));
    s.handle_receive_msg(3, "Cleo".to_string()).unwrap();
    let c_frames = drain_peer(&mut s, 3);
    assert_eq!(c_frames.len(), 1);
    assert!(String::from_utf8(c_frames[0].clone()).unwrap().starts_with(">>> Connected!"));
}

#[test]
fn file_announcement_reaches_all_and_enters_history() {
    let mut s = ServerState::new();
    assert!(s.handle_add_user(1));
    s.handle_receive_msg(1, "Alice".to_string()).unwrap();
    drain_peer(&mut s, 1);
    let log = s.handle_received_file("notes.txt");
    assert_eq!(log, ">>> Server received file: notes.txt");
    assert_eq!(
        drain_peer(&mut s, 1),
        vec![b">>> Server received file: notes.txt\r\n".to_vec()]
    );
    // it is replayed to later joiners
    assert!(s.handle_add_user(2));
    s.handle_receive_msg(2, "Bob".to_string()).unwrap();
    let frames = drain_peer(&mut s, 2);
    assert_eq!(frames[0], b">>> Server received file: notes.txt\r\n".to_vec());
}

#[test]
fn drain_moves_at_most_a_batch() {
    let mut s = ServerState::new();
    assert!(s.handle_add_user(1));
    s.handle_receive_msg(1, "Alice".to_string()).unwrap();
    drain_peer(&mut s, 1);
    let k = s.registry.find_index(1).unwrap();
    for i in 0..12 {
        assert!(s.registry.send_line_at(k, &format!("{}", i)).is_ok());
    }
    let mut conn = LinesTcp::new();
    // first tick: ten frames move, backlog remains
    assert!(s.drain_outbound(1, &mut conn));
    let expected: Vec<u8> = (0..10).flat_map(|i| format!("{}\r\n", i).into_bytes()).collect();
    assert_eq!(conn.pending_write(), &expected[..]);
    // second tick: the last two, batch not used up
    assert!(!s.drain_outbound(1, &mut conn));
    let expected: Vec<u8> = (0..12).flat_map(|i| format!("{}\r\n", i).into_bytes()).collect();
    assert_eq!(conn.pending_write(), &expected[..]);
    // absent peer: nothing happens
    assert!(!s.drain_outbound(9, &mut conn));
}

#[test]
fn inbound_frames_dispatch_in_order() {
    let mut s = ServerState::new();
    assert!(s.handle_add_user(1));
    let mut conn = LinesTcp::new();
    conn.feed(b"Alice\r\nhi there\r\npart");
    let logs = connection_core::actor::process_inbound(&mut s, 1, &mut conn);
    assert_eq!(logs, vec![">>> New user: Alice".to_string(), "Alice: hi there".to_string()]);
    // the name became the display name, the chat line entered history
    assert!(s.handle_add_user(2));
    s.handle_receive_msg(2, "Bob".to_string()).unwrap();
    let frames = drain_peer(&mut s, 2);
    assert_eq!(frames[0], b"Alice: hi there\r\n".to_vec());
    // the incomplete tail waits for more bytes
    assert_eq!(conn.next_frame(), None);
    conn.feed(b"ial\r\n");
    assert_eq!(conn.next_frame(), Some(b"partial".to_vec()));
}
