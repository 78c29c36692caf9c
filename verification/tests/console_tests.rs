use connection_core::console::ConsoleBuf;

#[test]
fn line_feed_submits_pending_line() {
    let mut c = ConsoleBuf::new();
    assert_eq!(c.handle_input('h'), None);
    assert_eq!(c.handle_input('i'), None);
    assert_eq!(c.pending(), "hi");
    assert_eq!(c.handle_input('\n'), Some("hi".to_string()));
    assert_eq!(c.pending(), "");
}

#[test]
fn backspace_retracts_one() {
    let mut c = ConsoleBuf::new();
    c.handle_input('a');
    c.handle_input('b');
    assert_eq!(c.handle_input('\u{8}'), None);
    assert_eq!(c.pending(), "a");
    c.handle_input('!');
    assert_eq!(c.handle_input('\n'), Some("a!".to_string()));
}

#[test]
fn backspace_on_empty_is_harmless() {
    let mut c = ConsoleBuf::new();
    assert_eq!(c.handle_input('\u{8}'), None);
    assert_eq!(c.pending(), "");
    assert_eq!(c.handle_input('\n'), Some(String::new()));
}
