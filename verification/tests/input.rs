use hermes::dht::Quorum;
use hermes::input::{handle_input_line, InputAction, Mode};

#[test]
fn modes_are_read() {
    assert_eq!(Mode::from_str("dial"), Ok(Mode::Dial));
    assert_eq!(Mode::from_str("listen"), Ok(Mode::Listen));
}

#[test]
fn other_modes_are_refused() {
    for text in ["", "Dial", "dial ", "LISTEN", "both"] {
        assert_eq!(Mode::from_str(text), Err("Expected 'dial' or 'listen'".to_string()));
    }
}

#[test]
fn get_takes_a_key() {
    match handle_input_line("GET samarth") {
        InputAction::Get { key } => assert_eq!(key, b"samarth".to_vec()),
        other => panic!("{:?}", other),
    }
}

#[test]
fn put_takes_a_key_and_a_value() {
    match handle_input_line("  PUT  name \t value  and more") {
        InputAction::Put { record, quorum } => {
            assert_eq!(record.key, b"name".to_vec());
            assert_eq!(record.value, b"value".to_vec());
            assert!(record.publisher.is_none());
            assert!(record.expires.is_none());
            assert_eq!(quorum, Quorum::One);
        }
        other => panic!("{:?}", other),
    }
}

#[test]
fn keys_and_values_are_utf8_bytes() {
    match handle_input_line("PUT \u{e9} \u{1f600}") {
        InputAction::Put { record, .. } => {
            assert_eq!(record.key, "\u{e9}".as_bytes().to_vec());
            assert_eq!(record.value, "\u{1f600}".as_bytes().to_vec());
        }
        other => panic!("{:?}", other),
    }
}

#[test]
fn dial_takes_a_name() {
    match handle_input_line("DIAL samarth") {
        InputAction::Dial { peer_name, key, notice } => {
            assert_eq!(peer_name, "samarth");
            assert_eq!(key, b"samarth".to_vec());
            assert_eq!(notice, "Searching for peer 'samarth' in the DHT...");
        }
        other => panic!("{:?}", other),
    }
}

#[test]
fn routing_table_is_printed() {
    assert!(matches!(handle_input_line("PRINT_RT"), InputAction::PrintRoutingTable));
    assert!(matches!(handle_input_line("PRINT_RT please"), InputAction::PrintRoutingTable));
}

#[test]
fn incomplete_and_unknown_commands_are_refused() {
    let cases = [
        ("GET", "Usage: GET <key>"),
        ("PUT", "Usage: PUT <key> <value>"),
        ("PUT key", "Usage: PUT <key> <value>"),
        ("DIAL  ", "Usage: DIAL <peer_name>"),
        ("", "expected GET, PUT, DIAL, or PRINT_RT"),
        ("   ", "expected GET, PUT, DIAL, or PRINT_RT"),
        ("get key", "expected GET, PUT, DIAL, or PRINT_RT"),
        ("QUIT", "expected GET, PUT, DIAL, or PRINT_RT"),
    ];
    for (line, expected) in cases {
        match handle_input_line(line) {
            InputAction::Complain { text } => assert_eq!(text, expected),
            other => panic!("{:?}", other),
        }
    }
}
