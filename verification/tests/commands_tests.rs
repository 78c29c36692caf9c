use connection_core::commands::{
    classify_input, parse_accept_file, parse_receive_file, parse_send_file, resolve_params,
    InputAction,
};

#[test]
fn send_command_extracts_path() {
    assert_eq!(
        parse_send_file(&":send \"/tmp/a.txt\"".to_string()),
        Some("/tmp/a.txt".to_string())
    );
    assert_eq!(parse_send_file(&":send \"x\"".to_string()), Some("x".to_string()));
}

#[test]
fn send_command_rejects_malformed() {
    assert_eq!(parse_send_file(&"hello".to_string()), None);
    assert_eq!(parse_send_file(&":send \"".to_string()), None);
    assert_eq!(parse_send_file(&":send \"\"".to_string()), None);
    assert_eq!(parse_send_file(&":send \"no-close".to_string()), None);
    assert_eq!(parse_send_file(&":receive \"a\"".to_string()), None);
}

#[test]
fn receive_command_extracts_name() {
    assert_eq!(
        parse_receive_file(&":receive \"notes.txt\"".to_string()),
        Some("notes.txt".to_string())
    );
    assert_eq!(parse_receive_file(&":receive \"\"".to_string()), Some(String::new()));
    assert_eq!(parse_receive_file(&":receive \"x".to_string()), None);
    assert_eq!(parse_receive_file(&":receive \"".to_string()), None);
    assert_eq!(parse_receive_file(&":send \"a\"".to_string()), None);
    assert_eq!(parse_receive_file(&"chat line".to_string()), None);
}

#[test]
fn accept_command_splits_in_two() {
    assert_eq!(
        parse_accept_file(&":send \"f.bin\" 1234".to_string()),
        Some(("f.bin".to_string(), "1234".to_string()))
    );
    assert_eq!(parse_accept_file(&":send \"nodelim".to_string()), None);
    assert_eq!(parse_accept_file(&":send \"a\" b\" c".to_string()), None);
    assert_eq!(parse_accept_file(&"plain".to_string()), None);
}

#[test]
fn input_classification_order() {
    assert_eq!(
        classify_input(&":send \"p\"".to_string()),
        InputAction::SendFile("p".to_string())
    );
    assert_eq!(
        classify_input(&":receive \"n\"".to_string()),
        InputAction::ReceiveFile("n".to_string())
    );
    assert_eq!(
        classify_input(&"just chatting".to_string()),
        InputAction::Chat("just chatting".to_string())
    );
    // an almost-command falls through to chat
    assert_eq!(
        classify_input(&":send oops".to_string()),
        InputAction::Chat(":send oops".to_string())
    );
}

#[test]
fn params_precedence() {
    let r = resolve_params(
        Some("cli".to_string()),
        Some("1.2.3.4".to_string()),
        Some("cfg".to_string()),
        Some("5.6.7.8".to_string()),
    );
    assert_eq!(r, ("cli".to_string(), "1.2.3.4".to_string()));
    let r = resolve_params(None, None, Some("cfg".to_string()), Some("5.6.7.8".to_string()));
    assert_eq!(r, ("cfg".to_string(), "5.6.7.8".to_string()));
    let r = resolve_params(None, None, None, None);
    assert_eq!(r, ("UnnamedUser".to_string(), "89.67.243.241".to_string()));
}
