//! The state that the serial interrupt and the tick loop share, behind a lock
//! that holds interrupts off for the length of each access.
//!
//! The state is made once, before interrupts are enabled, and handed by
//! reference to both sides. Each access below is one critical section and
//! one whole step of the receive buffer, so neither side ever sees the other
//! half-way through an update. Between two accesses the other side may have
//! run: what an access returns is stated over whatever state it found.

use crate::relay::{
    spec_accept, spec_consume, spec_idle, spec_inv, spec_wanted, ReceiveBuffer, RelayAction,
    RelayModel, RELAY_CAPACITY,
};
use crate::wire::spec_u16_from_be;
use vstd::prelude::*;

verus! {

/// `critical_section::Mutex`, carried as it is: nothing is known of what a
/// value of it holds.
#[verifier::external_type_specification]
#[verifier::external_body]
#[verifier::reject_recursive_types(T)]
pub struct ExMutex<T>(critical_section::Mutex<T>);

/// `core::cell::RefCell`, carried as it is: nothing is known of what a value
/// of it holds.
#[verifier::external_type_specification]
#[verifier::external_body]
#[verifier::reject_recursive_types(T)]
pub struct ExRefCell<T: ?Sized>(core::cell::RefCell<T>);

/// A receive buffer behind the lock.
pub type LockedBuffer = critical_section::Mutex<core::cell::RefCell<ReceiveBuffer>>;

/// The part of the link state that is plain data: the receive buffer, behind
/// the lock. The peripherals' handles are shared through the same lock by the
/// firmware that owns them.
pub struct SharedLinkState {
    receive: LockedBuffer,
}

/// Whether some receive buffer wants `wanted` bytes next.
pub open spec fn spec_may_want(wanted: nat) -> bool {
    exists|found: RelayModel| spec_inv(found) && wanted == spec_wanted(found)
}

/// Whether some receive buffer answers the delivery `bytes` with `action`.
pub open spec fn spec_may_answer(bytes: Seq<u8>, action: RelayAction) -> bool {
    exists|found: RelayModel| spec_inv(found) && action == spec_accept(found, bytes).1
}

/// Whether some receive buffer gives `taken` when the tick loop looks at it.
pub open spec fn spec_may_yield(taken: Option<Seq<u8>>) -> bool {
    exists|found: RelayModel| spec_inv(found) && taken == spec_consume(found).1
}

/// The payload in what [`ReceiveBuffer::consume`] returns.
pub open spec fn spec_payload(taken: Option<([u8; 1024], usize)>) -> Option<Seq<u8>> {
    match taken {
        Some((storage, len)) => Some(storage@.subrange(0, len as int)),
        None => None,
    }
}

/// The lock that `critical_section::Mutex::new` over `RefCell::new` makes
/// around a receive buffer that reads as `buffer`. It says what a lock was
/// made from, and nothing of what the lock holds once it has been used.
pub uninterp spec fn spec_locked(buffer: RelayModel) -> LockedBuffer;

/// `critical_section::Mutex::new` over `RefCell::new`: puts `buffer` behind
/// the lock. Both only wrap their argument, so the lock made is the one that
/// [`spec_locked`] names for the buffer.
#[verifier::external_body]
fn lock_up(buffer: ReceiveBuffer) -> (cell: LockedBuffer)
    ensures
        cell == spec_locked(buffer@),
{
    critical_section::Mutex::new(core::cell::RefCell::new(buffer))
}

/// `critical_section::with` and `Mutex::borrow_ref_mut`: runs
/// [`ReceiveBuffer::wanted`] on the buffer behind the lock, inside a critical
/// section. The buffer found there satisfies the invariant, as every receive
/// buffer does, and the result is what `wanted` gives for it.
#[verifier::external_body]
fn locked_wanted(cell: &LockedBuffer) -> (wanted: usize)
    ensures
        spec_may_want(wanted as nat),
{
    critical_section::with(|cs| cell.borrow_ref_mut(cs).wanted())
}

/// `critical_section::with` and `Mutex::borrow_ref_mut`: runs
/// [`ReceiveBuffer::accept`] on the buffer behind the lock, inside a critical
/// section. The result is what `accept` gives for the buffer found there.
#[verifier::external_body]
fn locked_accept(cell: &LockedBuffer, bytes: &[u8]) -> (action: RelayAction)
    ensures
        spec_may_answer(bytes@, action),
{
    critical_section::with(|cs| cell.borrow_ref_mut(cs).accept(bytes))
}

/// `critical_section::with` and `Mutex::borrow_ref_mut`: runs
/// [`ReceiveBuffer::consume`] on the buffer behind the lock, inside a
/// critical section. The result is what `consume` gives for the buffer found
/// there: a length within the storage, and the payload in front of it.
#[verifier::external_body]
fn locked_consume(cell: &LockedBuffer) -> (taken: Option<([u8; 1024], usize)>)
    ensures
        taken matches Some((storage, len)) ==> 1 <= len <= RELAY_CAPACITY,
        spec_may_yield(spec_payload(taken)),
{
    critical_section::with(|cs| cell.borrow_ref_mut(cs).consume())
}

impl SharedLinkState {
    /// The lock the state keeps its receive buffer behind.
    pub closed spec fn spec_lock(&self) -> LockedBuffer {
        self.receive
    }

    /// Shared state made around an idle receive buffer of zeroes: nothing is
    /// announced, nothing stored, nothing ready.
    pub fn new() -> (state: SharedLinkState)
        ensures
            state.spec_lock() == spec_locked(
                spec_idle(Seq::new(RELAY_CAPACITY as nat, |i: int| 0u8)),
            ),
    {
        SharedLinkState { receive: lock_up(ReceiveBuffer::new()) }
    }

    /// The number of bytes the interrupt handler should read next: two for a
    /// length, what the payload lacks, or none while a payload waits for the
    /// tick loop. Never more than the buffer holds.
    pub fn wanted(&self) -> (wanted: usize)
        ensures
            spec_may_want(wanted as nat),
            wanted <= RELAY_CAPACITY,
    {
        locked_wanted(&self.receive)
    }

    /// Hands one delivery from the serial port to the receive buffer. To be
    /// called from the interrupt handler.
    ///
    /// Whatever state the buffer was in, a length is accepted only from two
    /// bytes that announce between one and `RELAY_CAPACITY` bytes, payload is
    /// stored only from a non-empty delivery of at most `RELAY_CAPACITY`
    /// bytes, and an empty delivery is ignored.
    pub fn accept(&self, bytes: &[u8]) -> (action: RelayAction)
        ensures
            spec_may_answer(bytes@, action),
            action == RelayAction::LengthAccepted ==> bytes@.len() == 2 && 1
                <= spec_u16_from_be(bytes@[0], bytes@[1]) <= RELAY_CAPACITY,
            action == RelayAction::Stored || action == RelayAction::Complete ==> 1 <= bytes@.len()
                <= RELAY_CAPACITY,
            bytes@.len() == 0 ==> action == RelayAction::Ignored,
    {
        locked_accept(&self.receive, bytes)
    }

    /// Picks up a complete payload, if there is one, and returns the buffer
    /// to idle. To be called from the tick loop. The payload is the first
    /// `len` bytes of the storage returned, and `len` is between one and
    /// `RELAY_CAPACITY`.
    pub fn consume(&self) -> (taken: Option<([u8; 1024], usize)>)
        ensures
            taken matches Some((storage, len)) ==> 1 <= len <= RELAY_CAPACITY,
            spec_may_yield(spec_payload(taken)),
    {
        locked_consume(&self.receive)
    }
}

} // verus!
