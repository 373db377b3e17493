use crosslink::handshake::{
    Initiator, InitiatorEvent, InitiatorOutput, Led, PeerLed, ReplyRole, Responder,
    ResponderEvent, ResponderOutput, ResponderPhase, RoundOutput, BLUE_CODE, DEBOUNCE_MS, TRIGGER,
    YELLOW_CODE,
};

const QUIET: ResponderOutput =
    ResponderOutput { toggle: Led::Invalid, debounce_ms: None, reply: None, clear_rx: false };

#[test]
fn bytes_classify_as_leds() {
    assert_eq!(Led::from(0x1), Led::Yellow);
    assert_eq!(Led::from(0x2), Led::Blue);
    assert_eq!(Led::from(0x0), Led::Invalid);
    assert_eq!(Led::from(0x3), Led::Invalid);
    assert_eq!(Led::from(0xff), Led::Invalid);
    assert_eq!(YELLOW_CODE, 1);
    assert_eq!(BLUE_CODE, 2);
    assert_eq!(TRIGGER, 1);
    assert_eq!(DEBOUNCE_MS, 500);
}

#[test]
fn peer_colours_have_codes_and_opposites() {
    assert_eq!(PeerLed::Yellow.code(), 1);
    assert_eq!(PeerLed::Blue.code(), 2);
    assert_eq!(PeerLed::Yellow.other(), PeerLed::Blue);
    assert_eq!(PeerLed::Blue.other(), PeerLed::Yellow);
}

#[test]
fn two_triggers_give_two_toggles_and_alternating_replies() {
    let mut r = Responder::new(ReplyRole::Alternate);

    let out = r.step(ResponderEvent::Byte(TRIGGER));
    assert_eq!(
        out,
        ResponderOutput { toggle: Led::Yellow, debounce_ms: Some(500), reply: None, clear_rx: false }
    );
    assert_eq!(r.phase, ResponderPhase::Debounce(PeerLed::Yellow));
    let out = r.step(ResponderEvent::DebounceElapsed);
    assert_eq!(
        out,
        ResponderOutput { toggle: Led::Invalid, debounce_ms: None, reply: Some(1), clear_rx: true }
    );
    assert_eq!(r.phase, ResponderPhase::Idle);

    let out = r.step(ResponderEvent::Byte(TRIGGER));
    assert_eq!(out.toggle, Led::Yellow);
    assert_eq!(out.debounce_ms, Some(500));
    let out = r.step(ResponderEvent::DebounceElapsed);
    assert_eq!(out.reply, Some(2));

    // And round again.
    r.step(ResponderEvent::Byte(BLUE_CODE));
    assert_eq!(r.step(ResponderEvent::DebounceElapsed).reply, Some(1));
}

#[test]
fn unrecognised_byte_does_nothing() {
    for role in [ReplyRole::Alternate, ReplyRole::Mirror] {
        let mut r = Responder::new(role);
        let before = r;
        for byte in [0u8, 3, 0x10, 0xff] {
            let out = r.step(ResponderEvent::Byte(byte));
            assert_eq!(out, ResponderOutput { clear_rx: true, ..QUIET });
            assert_eq!(r, before);
            assert_eq!(r.step(ResponderEvent::DebounceElapsed), QUIET);
            assert_eq!(r, before);
        }
        // The alternation is not disturbed by them.
        r.step(ResponderEvent::Byte(1));
        assert_eq!(r.step(ResponderEvent::DebounceElapsed).reply, Some(role_first(role, 1)));
    }
}

fn role_first(role: ReplyRole, received: u8) -> u8 {
    match role {
        ReplyRole::Alternate => 1,
        ReplyRole::Mirror => received,
    }
}

#[test]
fn mirroring_responder_echoes_the_colour() {
    let mut r = Responder::new(ReplyRole::Mirror);
    assert_eq!(r.step(ResponderEvent::Byte(2)).toggle, Led::Blue);
    assert_eq!(r.step(ResponderEvent::DebounceElapsed).reply, Some(2));
    assert_eq!(r.step(ResponderEvent::Byte(2)).toggle, Led::Blue);
    assert_eq!(r.step(ResponderEvent::DebounceElapsed).reply, Some(2));
    assert_eq!(r.step(ResponderEvent::Byte(1)).toggle, Led::Yellow);
    assert_eq!(r.step(ResponderEvent::DebounceElapsed).reply, Some(1));
}

#[test]
fn bytes_during_the_debounce_are_dropped() {
    let mut r = Responder::new(ReplyRole::Alternate);
    r.step(ResponderEvent::Byte(1));
    let waiting = r;
    assert_eq!(r.step(ResponderEvent::Byte(2)), QUIET);
    assert_eq!(r.step(ResponderEvent::Byte(9)), QUIET);
    assert_eq!(r, waiting);
    assert_eq!(r.step(ResponderEvent::DebounceElapsed).reply, Some(1));
}

#[test]
fn initiator_closes_the_loop() {
    let mut i = Initiator::new();
    assert_eq!(i, Initiator::Idle);
    // Nothing happens before the start.
    assert_eq!(
        i.step(InitiatorEvent::Byte(1)),
        InitiatorOutput { toggle: Led::Invalid, send: None }
    );
    assert_eq!(i, Initiator::Idle);

    assert_eq!(
        i.step(InitiatorEvent::Start),
        InitiatorOutput { toggle: Led::Invalid, send: Some(TRIGGER) }
    );
    assert_eq!(i, Initiator::AwaitingAck);
    assert_eq!(
        i.step(InitiatorEvent::Byte(1)),
        InitiatorOutput { toggle: Led::Yellow, send: Some(TRIGGER) }
    );
    assert_eq!(
        i.step(InitiatorEvent::Byte(2)),
        InitiatorOutput { toggle: Led::Blue, send: Some(TRIGGER) }
    );
    assert_eq!(
        i.step(InitiatorEvent::Byte(7)),
        InitiatorOutput { toggle: Led::Invalid, send: Some(TRIGGER) }
    );
    assert_eq!(i, Initiator::AwaitingAck);
    // A second start does not send a second trigger.
    assert_eq!(
        i.step(InitiatorEvent::Start),
        InitiatorOutput { toggle: Led::Invalid, send: None }
    );
}

#[test]
fn initiator_and_responder_play_ping_pong() {
    let mut i = Initiator::new();
    let mut r = Responder::new(ReplyRole::Alternate);
    let mut wire = i.step(InitiatorEvent::Start).send;
    let mut shown = Vec::new();
    for _ in 0..4 {
        let trigger = wire.unwrap();
        assert_eq!(r.step(ResponderEvent::Byte(trigger)).toggle, Led::Yellow);
        let reply = r.step(ResponderEvent::DebounceElapsed).reply.unwrap();
        let out = i.step(InitiatorEvent::Byte(reply));
        shown.push(out.toggle);
        wire = out.send;
    }
    assert_eq!(shown, vec![Led::Yellow, Led::Blue, Led::Yellow, Led::Blue]);
}

#[test]
fn two_consecutive_rounds_alternate() {
    let mut r = Responder::new(ReplyRole::Alternate);
    let one = r.round(TRIGGER);
    let two = r.round(TRIGGER);
    assert_eq!(one, RoundOutput { toggle: Led::Yellow, debounce_ms: Some(500), reply: Some(1) });
    assert_eq!(two, RoundOutput { toggle: Led::Yellow, debounce_ms: Some(500), reply: Some(2) });
    assert_ne!(one.reply, two.reply);
    assert_eq!(r, Responder::new(ReplyRole::Alternate));

    let ignored = r.round(0x7f);
    assert_eq!(ignored, RoundOutput { toggle: Led::Invalid, debounce_ms: None, reply: None });
    assert_eq!(r, Responder::new(ReplyRole::Alternate));
}
