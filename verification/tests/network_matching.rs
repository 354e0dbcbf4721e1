use witness::network::{payload_matches_key, tcp_read_triggers, udp_datagram_triggers, NetworkOptions};

#[test]
fn payload_with_key_prefix_matches() {
    assert!(payload_matches_key(b"secretXYZ", b"secret"));
    assert!(payload_matches_key(b"secret", b"secret"));
}

#[test]
fn payload_differing_from_key_does_not_match() {
    assert!(!payload_matches_key(b"wrong", b"secret"));
    assert!(!payload_matches_key(b"secreX", b"secret"));
    assert!(!payload_matches_key(b"Secret", b"secret"));
}

#[test]
fn payload_shorter_than_key_does_not_match() {
    assert!(!payload_matches_key(b"secre", b"secret"));
    assert!(!payload_matches_key(b"", b"secret"));
}

#[test]
fn empty_key_matches_every_payload() {
    assert!(payload_matches_key(b"", b""));
    assert!(payload_matches_key(b"anything", b""));
}

/// A UDP packet carrying the key followed by extra bytes triggers; a packet
/// with the wrong bytes does not.
#[test]
fn udp_packet_with_key_triggers_and_wrong_packet_does_not() {
    assert!(udp_datagram_triggers(b"secretXYZ", b"secret"));
    assert!(!udp_datagram_triggers(b"wrong", b"secret"));
}

/// A TCP handshake that timed out or failed before supplying the key's
/// length of bytes produces no trigger.
#[test]
fn tcp_timeout_or_error_never_triggers() {
    assert!(!tcp_read_triggers(&None, b"secret"));
}

#[test]
fn tcp_read_triggers_only_on_key_bytes() {
    assert!(tcp_read_triggers(&Some(b"secret".to_vec()), b"secret"));
    assert!(!tcp_read_triggers(&Some(b"secreX".to_vec()), b"secret"));
    assert!(tcp_read_triggers(&Some(b"anything".to_vec()), b""));
}

#[test]
fn options_key_matches_uses_configured_key() {
    let options = NetworkOptions {
        udp: vec![9000],
        tcp: vec![],
        key: String::from("witness-key"),
        trigger: false,
    };
    assert!(options.key_matches(b"witness-key and more"));
    assert!(!options.key_matches(b"witness-kex"));
}
