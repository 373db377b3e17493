//! The single-byte ping-pong between the two devices.
//!
//! One device initiates: it sends a trigger byte and, whenever a byte comes
//! back, shows it on its LEDs and sends the trigger again. The other responds:
//! it shows each valid byte it receives on its LEDs, lets a debounce delay
//! pass, and answers with the colour the peer is to use next.
//!
//! Both are state machines over events. The interrupt handler that owns the
//! serial port, the LEDs and the timer feeds them and carries out what they
//! return; nothing here waits.

use vstd::prelude::*;

verus! {

/// The code for the yellow LED.
pub const YELLOW_CODE: u8 = 0x1;

/// The code for the blue LED.
pub const BLUE_CODE: u8 = 0x2;

/// The byte the initiator sends to start each round.
pub const TRIGGER: u8 = 0x1;

/// The pause between a toggle and the answer to it, in milliseconds.
pub const DEBOUNCE_MS: u32 = 500;

/// What a received byte names: one of the two LEDs, or nothing valid.
#[derive(Clone, Copy, Debug, PartialEq, Eq, Structural)]
pub enum Led {
    /// The yellow LED, code 1.
    Yellow,
    /// The blue LED, code 2.
    Blue,
    /// Any other byte.
    Invalid,
}

/// The LED that `value` names.
pub open spec fn spec_classify(value: u8) -> Led {
    if value == YELLOW_CODE {
        Led::Yellow
    } else if value == BLUE_CODE {
        Led::Blue
    } else {
        Led::Invalid
    }
}

impl From<u8> for Led {
    fn from(value: u8) -> (led: Led) {
        if value == YELLOW_CODE {
            Led::Yellow
        } else if value == BLUE_CODE {
            Led::Blue
        } else {
            Led::Invalid
        }
    }
}

impl vstd::std_specs::convert::FromSpecImpl<u8> for Led {
    open spec fn obeys_from_spec() -> bool {
        true
    }

    open spec fn from_spec(value: u8) -> Led {
        spec_classify(value)
    }
}

/// A colour the responder can tell its peer to use.
#[derive(Clone, Copy, Debug, PartialEq, Eq, Structural)]
pub enum PeerLed {
    /// Yellow, code 1.
    Yellow,
    /// Blue, code 2.
    Blue,
}

impl PeerLed {
    /// The byte that stands for this colour on the wire.
    pub open spec fn spec_code(self) -> u8 {
        match self {
            PeerLed::Yellow => YELLOW_CODE,
            PeerLed::Blue => BLUE_CODE,
        }
    }

    /// The other colour.
    pub open spec fn spec_other(self) -> PeerLed {
        match self {
            PeerLed::Yellow => PeerLed::Blue,
            PeerLed::Blue => PeerLed::Yellow,
        }
    }

    /// The byte that stands for this colour on the wire.
    pub fn code(self) -> (code: u8)
        ensures
            code == self.spec_code(),
    {
        match self {
            PeerLed::Yellow => YELLOW_CODE,
            PeerLed::Blue => BLUE_CODE,
        }
    }

    /// The other colour.
    pub fn other(self) -> (other: PeerLed)
        ensures
            other == self.spec_other(),
    {
        match self {
            PeerLed::Yellow => PeerLed::Blue,
            PeerLed::Blue => PeerLed::Yellow,
        }
    }
}

/// How a responder picks the colour it answers with.
#[derive(Clone, Copy, Debug, PartialEq, Eq, Structural)]
pub enum ReplyRole {
    /// Answer yellow, blue, yellow, ... whatever was received.
    Alternate,
    /// Answer with the colour that was received.
    Mirror,
}

/// Where a responder stands.
#[derive(Clone, Copy, Debug, PartialEq, Eq, Structural)]
pub enum ResponderPhase {
    /// Waiting for a byte.
    Idle,
    /// A valid byte was shown; this answer goes out when the delay is over.
    Debounce(PeerLed),
}

/// What happened at the responder.
#[derive(Clone, Copy, Debug, PartialEq, Eq, Structural)]
pub enum ResponderEvent {
    /// The serial port delivered this byte.
    Byte(u8),
    /// The debounce delay is over.
    DebounceElapsed,
}

/// What the responder's handler has to do after a step, in this order.
#[derive(Clone, Copy, Debug, PartialEq, Eq, Structural)]
pub struct ResponderOutput {
    /// Toggle this LED; `Invalid` means none.
    pub toggle: Led,
    /// Start the debounce timer for this many milliseconds.
    pub debounce_ms: Option<u32>,
    /// Write this byte to the peer and flush the output.
    pub reply: Option<u8>,
    /// The round is over: clear the receive-ready condition.
    pub clear_rx: bool,
}

/// What a whole round asks of a handler that waits the delay out itself, in
/// this order.
#[derive(Clone, Copy, Debug, PartialEq, Eq, Structural)]
pub struct RoundOutput {
    /// Toggle this LED; `Invalid` means none.
    pub toggle: Led,
    /// Wait this many milliseconds.
    pub debounce_ms: Option<u32>,
    /// Write this byte to the peer and flush the output.
    pub reply: Option<u8>,
}

/// The responder's state.
#[derive(Clone, Copy, Debug, PartialEq, Eq, Structural)]
pub struct Responder {
    /// How the answer is picked.
    pub role: ReplyRole,
    /// Where the round in progress stands.
    pub phase: ResponderPhase,
    /// The colour an alternating responder answers with next.
    pub next: PeerLed,
}

/// The output that asks for nothing.
pub open spec fn spec_quiet() -> ResponderOutput {
    ResponderOutput { toggle: Led::Invalid, debounce_ms: None, reply: None, clear_rx: false }
}

/// The colour a byte that names `led` is answered with, and the colour an
/// alternating responder answers with after that.
pub open spec fn spec_answer(r: Responder, led: PeerLed) -> (PeerLed, PeerLed) {
    match r.role {
        ReplyRole::Alternate => (r.next, r.next.spec_other()),
        ReplyRole::Mirror => (led, r.next),
    }
}

/// One step of the responder.
///
/// An idle responder that receives a valid code toggles the LED it names,
/// starts the debounce delay and settles on its answer; any other byte ends
/// the round at once, with no toggle and nothing sent. When the delay is over
/// the answer goes out and the round ends. A byte that arrives during the
/// delay, and a timer event outside it, change nothing.
pub open spec fn spec_respond(r: Responder, event: ResponderEvent) -> (Responder, ResponderOutput) {
    match (r.phase, event) {
        (ResponderPhase::Idle, ResponderEvent::Byte(value)) => match spec_classify(value) {
            Led::Invalid => (r, ResponderOutput { clear_rx: true, ..spec_quiet() }),
            led => {
                let colour = if led == Led::Yellow {
                    PeerLed::Yellow
                } else {
                    PeerLed::Blue
                };
                let (reply, next) = spec_answer(r, colour);
                (
                    Responder { phase: ResponderPhase::Debounce(reply), next, ..r },
                    ResponderOutput {
                        toggle: led,
                        debounce_ms: Some(DEBOUNCE_MS),
                        reply: None,
                        clear_rx: false,
                    },
                )
            },
        },
        (ResponderPhase::Debounce(reply), ResponderEvent::DebounceElapsed) => (
            Responder { phase: ResponderPhase::Idle, ..r },
            ResponderOutput {
                toggle: Led::Invalid,
                debounce_ms: None,
                reply: Some(reply.spec_code()),
                clear_rx: true,
            },
        ),
        _ => (r, spec_quiet()),
    }
}

/// A whole round at the responder: the byte `value` arrives and the debounce
/// delay then runs out. Gives the state after the round, the LED toggled and
/// the byte sent.
pub open spec fn spec_round(r: Responder, value: u8) -> (Responder, Led, Option<u8>) {
    let (waiting, first) = spec_respond(r, ResponderEvent::Byte(value));
    let (rested, second) = spec_respond(waiting, ResponderEvent::DebounceElapsed);
    (rested, first.toggle, second.reply)
}

impl Responder {
    /// An idle responder; an alternating one answers yellow first.
    pub fn new(role: ReplyRole) -> (r: Responder)
        ensures
            r == (Responder { role, phase: ResponderPhase::Idle, next: PeerLed::Yellow }),
    {
        Responder { role, phase: ResponderPhase::Idle, next: PeerLed::Yellow }
    }

    /// Advances the responder by one event and says what to do.
    pub fn step(&mut self, event: ResponderEvent) -> (output: ResponderOutput)
        ensures
            (*final(self), output) == spec_respond(*old(self), event),
    {
        let quiet = ResponderOutput {
            toggle: Led::Invalid,
            debounce_ms: None,
            reply: None,
            clear_rx: false,
        };
        match self.phase {
            ResponderPhase::Idle => match event {
                ResponderEvent::Byte(value) => {
                    let led: Led = Led::from(value);
                    let colour: PeerLed = match led {
                        Led::Invalid => {
                            return ResponderOutput { clear_rx: true, ..quiet };
                        },
                        Led::Yellow => PeerLed::Yellow,
                        Led::Blue => PeerLed::Blue,
                    };
                    let reply: PeerLed = match self.role {
                        ReplyRole::Alternate => {
                            let reply: PeerLed = self.next;
                            self.next = reply.other();
                            reply
                        },
                        ReplyRole::Mirror => colour,
                    };
                    self.phase = ResponderPhase::Debounce(reply);
                    ResponderOutput {
                        toggle: led,
                        debounce_ms: Some(DEBOUNCE_MS),
                        reply: None,
                        clear_rx: false,
                    }
                },
                ResponderEvent::DebounceElapsed => quiet,
            },
            ResponderPhase::Debounce(reply) => match event {
                ResponderEvent::DebounceElapsed => {
                    self.phase = ResponderPhase::Idle;
                    ResponderOutput {
                        toggle: Led::Invalid,
                        debounce_ms: None,
                        reply: Some(reply.code()),
                        clear_rx: true,
                    }
                },
                ResponderEvent::Byte(_) => quiet,
            },
        }
    }

    /// Takes a byte and the end of the delay it starts in one go, for a
    /// handler that waits the delay out before it returns: the LED to toggle,
    /// the time to wait, and the byte to send after it.
    pub fn round(&mut self, value: u8) -> (output: RoundOutput)
        ensures
            (*final(self), output.toggle, output.reply) == spec_round(*old(self), value),
            output.debounce_ms == spec_respond(*old(self), ResponderEvent::Byte(value)).1.debounce_ms,
    {
        let first = self.step(ResponderEvent::Byte(value));
        let second = self.step(ResponderEvent::DebounceElapsed);
        RoundOutput { toggle: first.toggle, debounce_ms: first.debounce_ms, reply: second.reply }
    }
}

/// An idle responder answers each valid byte once, after showing it: the
/// round toggles the LED the byte names, asks for the debounce delay in
/// between, sends one valid code and leaves the responder idle.
pub proof fn lemma_round_answers_once(r: Responder, value: u8)
    requires
        r.phase == ResponderPhase::Idle,
        spec_classify(value) != Led::Invalid,
    ensures
        spec_respond(r, ResponderEvent::Byte(value)).1.toggle == spec_classify(value),
        spec_respond(r, ResponderEvent::Byte(value)).1.debounce_ms == Some(DEBOUNCE_MS),
        spec_respond(r, ResponderEvent::Byte(value)).1.reply is None,
        spec_round(r, value).0.phase == ResponderPhase::Idle,
        spec_round(r, value).1 == spec_classify(value),
        spec_round(r, value).2 == Some(YELLOW_CODE) || spec_round(r, value).2 == Some(BLUE_CODE),
{
}

/// Two valid bytes in a row at an idle alternating responder give two LED
/// toggles and two answers, one of each code: the second answer is the code
/// the first was not. After the two rounds the responder answers as it did
/// before them.
pub proof fn lemma_alternation(r: Responder, first: u8, second: u8)
    requires
        r.phase == ResponderPhase::Idle,
        r.role == ReplyRole::Alternate,
        spec_classify(first) != Led::Invalid,
        spec_classify(second) != Led::Invalid,
    ensures
        ({
            let (after_one, toggle_one, reply_one) = spec_round(r, first);
            let (after_two, toggle_two, reply_two) = spec_round(after_one, second);
            &&& toggle_one == spec_classify(first)
            &&& toggle_two == spec_classify(second)
            &&& reply_one == Some(r.next.spec_code())
            &&& reply_two == Some(r.next.spec_other().spec_code())
            &&& reply_one != reply_two
            &&& after_two == r
        }),
{
}

/// A mirroring responder answers each valid byte with that byte.
pub proof fn lemma_mirror(r: Responder, value: u8)
    requires
        r.phase == ResponderPhase::Idle,
        r.role == ReplyRole::Mirror,
        spec_classify(value) != Led::Invalid,
    ensures
        spec_round(r, value).2 == Some(value),
        spec_round(r, value).0 == r,
{
}

/// A byte that is not a valid code leaves an idle responder as it was, with
/// no LED toggled, no timer started and nothing sent, in the step that takes
/// the byte and in whatever timer event follows.
pub proof fn lemma_unrecognised_is_ignored(r: Responder, value: u8)
    requires
        r.phase == ResponderPhase::Idle,
        spec_classify(value) == Led::Invalid,
    ensures
        spec_respond(r, ResponderEvent::Byte(value)).0 == r,
        spec_respond(r, ResponderEvent::Byte(value)).1.toggle == Led::Invalid,
        spec_respond(r, ResponderEvent::Byte(value)).1.debounce_ms is None,
        spec_respond(r, ResponderEvent::Byte(value)).1.reply is None,
        spec_round(r, value) == (r, Led::Invalid, None::<u8>),
{
}

/// Where an initiator stands.
#[derive(Clone, Copy, Debug, PartialEq, Eq, Structural)]
pub enum Initiator {
    /// Nothing has been sent yet.
    Idle,
    /// The trigger is out and an answer is awaited.
    AwaitingAck,
}

/// What happened at the initiator.
#[derive(Clone, Copy, Debug, PartialEq, Eq, Structural)]
pub enum InitiatorEvent {
    /// The device has started.
    Start,
    /// The serial port delivered this byte.
    Byte(u8),
}

/// What the initiator's handler has to do after a step, in this order.
#[derive(Clone, Copy, Debug, PartialEq, Eq, Structural)]
pub struct InitiatorOutput {
    /// Toggle this LED; `Invalid` means none.
    pub toggle: Led,
    /// Write this byte to the peer.
    pub send: Option<u8>,
}

/// One step of the initiator.
///
/// Starting sends the trigger. Every byte received while an answer is awaited
/// is read as the peer's colour, shown if it is one, and answered with the
/// trigger again, so the exchange never ends. A byte before the start, and a
/// second start, change nothing.
pub open spec fn spec_initiate(s: Initiator, event: InitiatorEvent) -> (Initiator, InitiatorOutput) {
    match (s, event) {
        (Initiator::Idle, InitiatorEvent::Start) => (
            Initiator::AwaitingAck,
            InitiatorOutput { toggle: Led::Invalid, send: Some(TRIGGER) },
        ),
        (Initiator::AwaitingAck, InitiatorEvent::Byte(value)) => (
            Initiator::AwaitingAck,
            InitiatorOutput { toggle: spec_classify(value), send: Some(TRIGGER) },
        ),
        _ => (s, InitiatorOutput { toggle: Led::Invalid, send: None }),
    }
}

impl Initiator {
    /// An initiator that has not started.
    pub fn new() -> (s: Initiator)
        ensures
            s == Initiator::Idle,
    {
        Initiator::Idle
    }

    /// Advances the initiator by one event and says what to do.
    pub fn step(&mut self, event: InitiatorEvent) -> (output: InitiatorOutput)
        ensures
            (*final(self), output) == spec_initiate(*old(self), event),
    {
        match (*self, event) {
            (Initiator::Idle, InitiatorEvent::Start) => {
                *self = Initiator::AwaitingAck;
                InitiatorOutput { toggle: Led::Invalid, send: Some(TRIGGER) }
            },
            (Initiator::AwaitingAck, InitiatorEvent::Byte(value)) => InitiatorOutput {
                toggle: Led::from(value),
                send: Some(TRIGGER),
            },
            _ => InitiatorOutput { toggle: Led::Invalid, send: None },
        }
    }
}

/// Once started, the initiator answers every byte with the trigger and goes
/// on waiting: the loop is closed.
pub proof fn lemma_initiator_never_stops(value: u8)
    ensures
        spec_initiate(Initiator::Idle, InitiatorEvent::Start).0 == Initiator::AwaitingAck,
        spec_initiate(Initiator::Idle, InitiatorEvent::Start).1.send == Some(TRIGGER),
        spec_initiate(Initiator::AwaitingAck, InitiatorEvent::Byte(value)).0
            == Initiator::AwaitingAck,
        spec_initiate(Initiator::AwaitingAck, InitiatorEvent::Byte(value)).1.send == Some(TRIGGER),
{
}

} // verus!
