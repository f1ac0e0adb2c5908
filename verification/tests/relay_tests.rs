use kompusim_gui::relay::OutputRelay;

#[test]
fn relay_fifo_order() {
    let mut relay = OutputRelay::new(16);
    assert!(relay.push_byte(b'H'));
    assert!(relay.push_byte(b'i'));
    assert!(relay.push_byte(b'!'));
    assert_eq!(relay.poll_output(), Some(b'H'));
    assert_eq!(relay.poll_output(), Some(b'i'));
    assert_eq!(relay.poll_output(), Some(b'!'));
    assert_eq!(relay.poll_output(), None);
}

#[test]
fn poll_empty_returns_none_at_once() {
    let mut relay = OutputRelay::new(8);
    assert_eq!(relay.poll_output(), None);
    assert_eq!(relay.poll_output(), None);
    assert_eq!(relay.queued(), 0);
}

#[test]
fn relay_full_drops_and_counts() {
    let mut relay = OutputRelay::new(2);
    assert!(relay.push_byte(1));
    assert!(relay.push_byte(2));
    // The relay is full: the byte is dropped, not queued, and counted.
    assert!(!relay.push_byte(3));
    assert_eq!(relay.dropped, 1);
    assert_eq!(relay.queued(), 2);
    assert_eq!(relay.poll_output(), Some(1));
    // Room again: accepted.
    assert!(relay.push_byte(4));
    assert_eq!(relay.poll_output(), Some(2));
    assert_eq!(relay.poll_output(), Some(4));
    assert_eq!(relay.poll_output(), None);
}
