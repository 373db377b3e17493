use crosslink::relay::RelayAction;
use crosslink::shared::SharedLinkState;

#[test]
fn interrupt_and_tick_loop_meet_through_the_shared_state() {
    let shared = SharedLinkState::new();
    let interrupt = &shared;
    let tick = &shared;

    assert_eq!(interrupt.wanted(), 2);
    assert_eq!(tick.consume(), None);

    assert_eq!(interrupt.accept(&[0x00, 0x05]), RelayAction::LengthAccepted);
    assert_eq!(interrupt.wanted(), 5);
    assert_eq!(tick.consume(), None);

    assert_eq!(interrupt.accept(&[1, 2, 3]), RelayAction::Stored);
    assert_eq!(interrupt.wanted(), 2);
    assert_eq!(tick.consume(), None);
    assert_eq!(interrupt.accept(&[4, 5]), RelayAction::Complete);
    assert_eq!(interrupt.wanted(), 0);
    // Nothing is taken while the payload waits.
    assert_eq!(interrupt.accept(&[0, 3]), RelayAction::Ignored);

    let (storage, len) = tick.consume().unwrap();
    assert_eq!(len, 5);
    assert_eq!(&storage[..len], &[1, 2, 3, 4, 5]);
    assert_eq!(tick.consume(), None);

    // A second relay of another length.
    assert_eq!(interrupt.wanted(), 2);
    assert_eq!(interrupt.accept(&[0x00, 0x01]), RelayAction::LengthAccepted);
    assert_eq!(interrupt.accept(&[9]), RelayAction::Complete);
    let (storage, len) = tick.consume().unwrap();
    assert_eq!(&storage[..len], &[9]);
}

#[test]
fn shared_state_ignores_what_the_buffer_ignores() {
    let shared = SharedLinkState::new();
    assert_eq!(shared.accept(&[]), RelayAction::Ignored);
    assert_eq!(shared.accept(&[0, 0]), RelayAction::Ignored);
    assert_eq!(shared.accept(&[0xff, 0xff]), RelayAction::Ignored);
    assert_eq!(shared.wanted(), 2);
    assert_eq!(shared.consume(), None);
}
