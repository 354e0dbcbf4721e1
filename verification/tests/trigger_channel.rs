use witness::channel::TriggerChannel;

/// Two sends before any receive coalesce into exactly one observable
/// trigger; the receive after it observes nothing.
#[test]
fn coalesces_two_sends_into_one_trigger() {
    let mut channel = TriggerChannel::new();
    assert!(channel.send());
    assert!(!channel.send());
    assert!(channel.receive().is_some());
    assert!(channel.receive().is_none());
}

#[test]
fn receive_on_empty_channel_yields_nothing() {
    let mut channel = TriggerChannel::new();
    assert!(channel.receive().is_none());
}

#[test]
fn send_after_receive_is_observed_again() {
    let mut channel = TriggerChannel::new();
    assert!(channel.send());
    assert!(channel.receive().is_some());
    assert!(channel.send());
    assert!(channel.receive().is_some());
    assert!(channel.receive().is_none());
}
