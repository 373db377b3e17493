//! Assembly of a relayed payload on the receiving device.
//!
//! The sender writes a 16-bit big-endian length and then that many bytes.
//! The receiver's serial interrupt takes the length in one firing and the
//! payload in later ones; a tick loop outside the interrupt picks the payload
//! up once it is complete and returns the buffer to idle.
//!
//! Nothing in the interrupt path fails loudly: a delivery that makes no sense
//! in the current state is ignored and the state stays as it was.

use crate::resource::{lemma_write_extends, spec_write};
use crate::wire::{
    lemma_u16_round_trip, spec_joined, spec_u16_from_be, spec_u16_to_be, u16_from_be, u16_to_be,
};
use vstd::prelude::*;

verus! {

/// The number of bytes the receive buffer holds.
pub const RELAY_CAPACITY: usize = 1024;

/// What the interrupt handler has to know about a delivery.
#[derive(Clone, Copy, Debug, PartialEq, Eq, Structural)]
pub enum RelayAction {
    /// The delivery made no sense here and was dropped.
    Ignored,
    /// A length was accepted: flush the peripheral and wait for the payload.
    LengthAccepted,
    /// Payload bytes were stored; more are expected.
    Stored,
    /// The last payload byte was stored; the payload awaits the tick loop.
    Complete,
}

/// The receive buffer shared by the serial interrupt and the tick loop.
#[derive(Clone, Copy, Debug, PartialEq, Eq)]
pub struct ReceiveBuffer {
    bytes: [u8; 1024],
    expected_size: Option<usize>,
    filled: usize,
    ready: bool,
}

/// A receive buffer as contracts see it.
pub struct RelayModel {
    pub buffer: Seq<u8>,
    /// The announced payload length, once known.
    pub expected: Option<nat>,
    /// The number of payload bytes stored.
    pub filled: nat,
    /// Whether the payload is complete and not yet consumed.
    pub ready: bool,
}

/// The buffer with nothing announced.
pub open spec fn spec_idle(buffer: Seq<u8>) -> RelayModel {
    RelayModel { buffer, expected: None, filled: 0, ready: false }
}

/// The number of bytes the next delivery should bring: the two of a length
/// when idle, what the payload still lacks once a length is known, none
/// while a complete payload waits to be consumed.
pub open spec fn spec_wanted(m: RelayModel) -> nat {
    match m.expected {
        None => 2,
        Some(n) => if m.ready {
            0
        } else {
            (n - m.filled) as nat
        },
    }
}

/// The buffer after a delivery, and what the handler is told.
///
/// When idle, exactly two bytes that announce a length between one and the
/// capacity are accepted as the length. Once a length is known, a non-empty
/// delivery no longer than what is missing is stored behind what is already
/// there, and the payload is ready when nothing is missing any more.
/// Everything else is ignored.
pub open spec fn spec_accept(m: RelayModel, bytes: Seq<u8>) -> (RelayModel, RelayAction) {
    if m.ready {
        (m, RelayAction::Ignored)
    } else {
        match m.expected {
            None => {
                if bytes.len() != 2 {
                    (m, RelayAction::Ignored)
                } else {
                    let n = spec_u16_from_be(bytes[0], bytes[1]);
                    if n == 0 || n > RELAY_CAPACITY {
                        (m, RelayAction::Ignored)
                    } else {
                        (
                            RelayModel { expected: Some(n as nat), filled: 0, ..m },
                            RelayAction::LengthAccepted,
                        )
                    }
                }
            },
            Some(n) => {
                if bytes.len() == 0 || bytes.len() > n - m.filled {
                    (m, RelayAction::Ignored)
                } else {
                    let t = RelayModel {
                        buffer: spec_write(m.buffer, m.filled, bytes),
                        filled: m.filled + bytes.len(),
                        ..m
                    };
                    if t.filled == n {
                        (RelayModel { ready: true, ..t }, RelayAction::Complete)
                    } else {
                        (t, RelayAction::Stored)
                    }
                }
            },
        }
    }
}

/// The buffer after the tick loop has looked at it, and the payload it found:
/// a ready buffer gives up its payload and becomes idle, any other stays as
/// it is.
pub open spec fn spec_consume(m: RelayModel) -> (RelayModel, Option<Seq<u8>>) {
    if m.ready && m.expected is Some {
        (spec_idle(m.buffer), Some(m.buffer.subrange(0, m.expected->0 as int)))
    } else {
        (m, None)
    }
}

/// What holds of every state a receive buffer can reach: a known length is
/// between one and the capacity, no more is stored than was announced, and
/// the buffer is ready exactly when all of it is stored.
pub open spec fn spec_inv(m: RelayModel) -> bool {
    &&& m.buffer.len() == RELAY_CAPACITY
    &&& match m.expected {
        None => m.filled == 0 && !m.ready,
        Some(n) => 1 <= n <= RELAY_CAPACITY && m.filled <= n && (m.ready <==> m.filled == n),
    }
}

/// Deliveries and consumption keep the invariant.
pub proof fn lemma_inv_kept(m: RelayModel, bytes: Seq<u8>)
    requires
        spec_inv(m),
    ensures
        spec_inv(spec_accept(m, bytes).0),
        spec_inv(spec_consume(m).0),
{
}

/// The buffer after a run of deliveries, one after the other.
pub open spec fn spec_feed(m: RelayModel, deliveries: Seq<Seq<u8>>) -> RelayModel
    decreases deliveries.len(),
{
    if deliveries.len() == 0 {
        m
    } else {
        spec_accept(spec_feed(m, deliveries.drop_last()), deliveries.last()).0
    }
}

/// While a payload is being assembled, deliveries that together bring no
/// more than what is missing are stored one behind the other.
proof fn lemma_feed_stores(m: RelayModel, deliveries: Seq<Seq<u8>>)
    requires
        spec_inv(m),
        m.expected is Some,
        !m.ready,
        forall|i: int| 0 <= i < deliveries.len() ==> deliveries[i].len() > 0,
        m.filled + spec_joined(deliveries).len() <= m.expected->0,
    ensures
        ({
            let after = spec_feed(m, deliveries);
            &&& spec_inv(after)
            &&& after.expected == m.expected
            &&& after.filled == m.filled + spec_joined(deliveries).len()
            &&& after.buffer.subrange(0, after.filled as int) == m.buffer.subrange(
                0,
                m.filled as int,
            ) + spec_joined(deliveries)
        }),
    decreases deliveries.len(),
{
    if deliveries.len() == 0 {
        assert(m.buffer.subrange(0, m.filled as int) + Seq::<u8>::empty() =~= m.buffer.subrange(
            0,
            m.filled as int,
        ));
    } else {
        let earlier = deliveries.drop_last();
        let last = deliveries.last();
        assert forall|i: int| 0 <= i < earlier.len() implies earlier[i].len() > 0 by {
            assert(earlier[i] == deliveries[i]);
        }
        lemma_feed_stores(m, earlier);
        let mid = spec_feed(m, earlier);
        lemma_write_extends(mid.buffer, mid.filled, last);
        let after = spec_accept(mid, last).0;
        assert(after.buffer.subrange(0, after.filled as int) =~= m.buffer.subrange(
            0,
            m.filled as int,
        ) + spec_joined(deliveries));
    }
}

/// Two-phase assembly. An idle buffer that is given the two length bytes of
/// a payload of between one and `RELAY_CAPACITY` bytes, and then the payload
/// in any number of non-empty deliveries, ends up ready, with the payload's
/// length as its expected size and the payload at the front of the buffer.
/// Consuming it yields the payload and leaves the buffer idle.
pub proof fn lemma_two_phase_assembly(m: RelayModel, deliveries: Seq<Seq<u8>>)
    requires
        spec_inv(m),
        m.expected is None,
        forall|i: int| 0 <= i < deliveries.len() ==> deliveries[i].len() > 0,
        1 <= spec_joined(deliveries).len() <= RELAY_CAPACITY,
    ensures
        ({
            let payload = spec_joined(deliveries);
            let length = spec_u16_to_be(payload.len() as u16);
            let announced = spec_accept(m, length);
            let after = spec_feed(announced.0, deliveries);
            &&& announced.1 == RelayAction::LengthAccepted
            &&& after.ready
            &&& after.expected == Some(payload.len())
            &&& after.buffer.subrange(0, payload.len() as int) == payload
            &&& spec_consume(after).1 == Some(payload)
            &&& spec_consume(after).0.expected is None
            &&& spec_inv(spec_consume(after).0)
        }),
{
    let payload = spec_joined(deliveries);
    let length = spec_u16_to_be(payload.len() as u16);
    lemma_u16_round_trip(payload.len() as u16);
    let announced = spec_accept(m, length).0;
    lemma_feed_stores(announced, deliveries);
    let after = spec_feed(announced, deliveries);
    assert(announced.buffer.subrange(0, 0) + payload =~= payload);
}

impl View for ReceiveBuffer {
    type V = RelayModel;

    closed spec fn view(&self) -> RelayModel {
        RelayModel {
            buffer: self.bytes@,
            expected: match self.expected_size {
                Some(n) => Some(n as nat),
                None => None,
            },
            filled: self.filled as nat,
            ready: self.ready,
        }
    }
}

impl ReceiveBuffer {
    /// The invariant every receive buffer satisfies.
    #[verifier::type_invariant]
    spec fn inv(self) -> bool {
        spec_inv(self@)
    }

    /// An idle buffer of zeroes.
    pub fn new() -> (buffer: ReceiveBuffer)
        ensures
            buffer@ == spec_idle(Seq::new(RELAY_CAPACITY as nat, |i: int| 0u8)),
    {
        let buffer = ReceiveBuffer { bytes: [0u8; 1024], expected_size: None, filled: 0, ready: false };
        assert(buffer@.buffer =~= Seq::new(RELAY_CAPACITY as nat, |i: int| 0u8));
        buffer
    }

    /// Whether a complete payload awaits the tick loop.
    pub fn ready(&self) -> (ready: bool)
        ensures
            ready == self@.ready,
            spec_inv(self@),
    {
        proof {
            use_type_invariant(self);
        }
        self.ready
    }

    /// The announced payload length, once known.
    pub fn expected_size(&self) -> (expected: Option<usize>)
        ensures
            expected is Some <==> self@.expected is Some,
            expected is Some ==> expected->0 == self@.expected->0,
    {
        self.expected_size
    }

    /// The number of payload bytes stored so far.
    pub fn filled(&self) -> (filled: usize)
        ensures
            filled == self@.filled,
    {
        self.filled
    }

    /// The whole buffer.
    pub fn bytes(&self) -> (bytes: &[u8; 1024])
        ensures
            bytes@ == self@.buffer,
    {
        &self.bytes
    }

    /// The number of bytes the next delivery should bring.
    pub fn wanted(&self) -> (wanted: usize)
        ensures
            wanted == spec_wanted(self@),
    {
        proof {
            use_type_invariant(self);
        }
        match self.expected_size {
            None => 2,
            Some(n) => if self.ready {
                0
            } else {
                n - self.filled
            },
        }
    }

    /// Takes one delivery from the serial port, in the interrupt.
    pub fn accept(&mut self, bytes: &[u8]) -> (action: RelayAction)
        ensures
            spec_inv(old(self)@),
            spec_inv(final(self)@),
            (final(self)@, action) == spec_accept(old(self)@, bytes@),
    {
        proof {
            use_type_invariant(&*self);
        }
        if self.ready {
            return RelayAction::Ignored;
        }
        match self.expected_size {
            None => {
                if bytes.len() != 2 {
                    return RelayAction::Ignored;
                }
                let n: usize = u16_from_be(bytes[0], bytes[1]) as usize;
                if n == 0 || n > RELAY_CAPACITY {
                    return RelayAction::Ignored;
                }
                self.expected_size = Some(n);
                RelayAction::LengthAccepted
            },
            Some(n) => {
                if bytes.len() == 0 || bytes.len() > n - self.filled {
                    return RelayAction::Ignored;
                }
                let base: usize = self.filled;
                let mut storage: [u8; 1024] = self.bytes;
                let mut k: usize = 0;
                while k < bytes.len()
                    invariant
                        k <= bytes@.len(),
                        base + bytes@.len() <= n <= RELAY_CAPACITY,
                        forall|i: int|
                            0 <= i < RELAY_CAPACITY ==> storage@[i] == (if base <= i < base + k {
                                bytes@[i - base]
                            } else {
                                old(self).bytes@[i]
                            }),
                    decreases bytes@.len() - k,
                {
                    storage[base + k] = bytes[k];
                    k = k + 1;
                }
                let filled: usize = base + bytes.len();
                let ready: bool = filled == n;
                proof {
                    assert(storage@ =~= spec_write(old(self)@.buffer, old(self)@.filled, bytes@));
                }
                *self = ReceiveBuffer { bytes: storage, expected_size: Some(n), filled, ready };
                if ready {
                    RelayAction::Complete
                } else {
                    RelayAction::Stored
                }
            },
        }
    }

    /// Looks for a complete payload, in the tick loop. A ready buffer hands
    /// over a copy of its storage with the payload's length and becomes idle;
    /// any other is left alone.
    pub fn consume(&mut self) -> (taken: Option<([u8; 1024], usize)>)
        ensures
            spec_inv(old(self)@),
            spec_inv(final(self)@),
            final(self)@ == spec_consume(old(self)@).0,
            match taken {
                Some((storage, len)) => 1 <= len <= RELAY_CAPACITY && spec_consume(old(self)@).1
                    == Some(storage@.subrange(0, len as int)),
                None => spec_consume(old(self)@).1 is None,
            },
    {
        proof {
            use_type_invariant(&*self);
        }
        if !self.ready {
            return None;
        }
        match self.expected_size {
            Some(n) => {
                let storage: [u8; 1024] = self.bytes;
                *self = ReceiveBuffer { bytes: storage, expected_size: None, filled: 0, ready: false };
                Some((storage, n))
            },
            None => None,
        }
    }
}

/// The two bytes that announce a payload of `len` bytes to the receiver.
/// A length the receiver would not take, zero or beyond its capacity, has
/// none.
pub fn relay_header(len: usize) -> (header: Option<[u8; 2]>)
    ensures
        header is Some <==> 1 <= len <= RELAY_CAPACITY,
        header is Some ==> header->0@ == spec_u16_to_be(len as u16),
{
    if len == 0 || len > RELAY_CAPACITY {
        None
    } else {
        Some(u16_to_be(len as u16))
    }
}

} // verus!
