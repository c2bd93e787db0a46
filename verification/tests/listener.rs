use unshroud::listener::{parse_u32, socket_activation_requested};

#[test]
fn socket_activation_needs_both_variables_and_our_pid() {
    assert!(socket_activation_requested(Some("42"), Some("1"), 42));
    assert!(socket_activation_requested(Some("+42"), Some("3"), 42));
    assert!(!socket_activation_requested(Some("42"), Some("0"), 42));
    assert!(!socket_activation_requested(Some("41"), Some("1"), 42));
    assert!(!socket_activation_requested(None, Some("1"), 42));
    assert!(!socket_activation_requested(Some("42"), None, 42));
    assert!(!socket_activation_requested(Some(" 42"), Some("1"), 42));
    assert!(!socket_activation_requested(Some("42"), Some("4294967296"), 42));
}

#[test]
fn parse_u32_follows_from_str() {
    for s in ["0", "+7", "4294967295", "4294967296", "", "+", "-1", "1a", "007"] {
        assert_eq!(parse_u32(s), s.parse::<u32>().ok(), "input {:?}", s);
    }
}
