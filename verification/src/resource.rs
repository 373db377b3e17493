//! A resource's bytes in a bounded buffer, and the step-by-step exchange that
//! fetches them.
//!
//! The destination is not touched until the declared size is known to fit.
//! From then until the last byte has arrived its valid length is zero, so a
//! payload never claims bytes that were not written.

use crate::error::{CodecError, TransferError};
use crate::session::{
    lemma_backoff_bounded, spec_delay, spec_exhausted, spec_idle, spec_progress, FetchAction,
    SessionModel, TransferSession, TransportEvent,
};
use crate::wire::{
    lemma_be_round_trip, lemma_u16_round_trip, resource_request, spec_decode_resource,
    spec_encode_resource, spec_joined, spec_resource_request, spec_u16_from_be, spec_u16_to_be,
    u16_from_be, u16_to_be, MAX_FIELD,
};
use vstd::prelude::*;
use vstd::slice::slice_subrange;

verus! {

/// `B` bytes of storage of which the first `size` are valid.
#[derive(Clone, Copy, Debug, PartialEq, Eq)]
pub struct ResourcePayload<const B: usize> {
    bytes: [u8; B],
    size: usize,
}

/// A payload as contracts see it: the whole buffer, and its valid length.
pub struct PayloadModel {
    pub buffer: Seq<u8>,
    pub size: nat,
}

impl PayloadModel {
    /// The valid bytes.
    pub open spec fn valid(self) -> Seq<u8> {
        self.buffer.subrange(0, self.size as int)
    }
}

impl<const B: usize> View for ResourcePayload<B> {
    type V = PayloadModel;

    closed spec fn view(&self) -> PayloadModel {
        PayloadModel { buffer: self.bytes@, size: self.size as nat }
    }
}

impl<const B: usize> ResourcePayload<B> {
    /// The invariant: the valid length is within the buffer.
    pub closed spec fn wf(&self) -> bool {
        self.size <= B
    }

    /// A well-formed payload's buffer has `B` bytes, and its valid length is
    /// at most that.
    pub proof fn lemma_shape(&self)
        requires
            self.wf(),
        ensures
            self@.buffer.len() == B,
            self@.size <= B,
    {
    }

    /// An empty payload over a zeroed buffer.
    pub fn new() -> (payload: Self)
        ensures
            payload.wf(),
            payload@.size == 0,
            payload@.buffer == Seq::new(B as nat, |i: int| 0u8),
    {
        let payload = ResourcePayload { bytes: [0u8; B], size: 0 };
        assert(payload@.buffer =~= Seq::new(B as nat, |i: int| 0u8));
        payload
    }

    /// The number of bytes the buffer holds.
    pub fn capacity(&self) -> (capacity: usize)
        ensures
            capacity == B,
    {
        B
    }

    /// The number of valid bytes.
    pub fn size(&self) -> (size: usize)
        ensures
            size == self@.size,
    {
        self.size
    }

    /// The valid bytes.
    pub fn bytes(&self) -> (bytes: &[u8])
        requires
            self.wf(),
        ensures
            bytes@ == self@.valid(),
    {
        slice_subrange(self.bytes.as_slice(), 0, self.size)
    }

    /// Writes the valid bytes as a resource response. A payload too long for
    /// a 16-bit size has no wire form.
    pub fn encode(&self) -> (frame: Option<Vec<u8>>)
        requires
            self.wf(),
        ensures
            frame is Some <==> self@.size <= MAX_FIELD,
            frame is Some ==> frame->0@ == spec_encode_resource(self@.valid()),
    {
        if self.size > MAX_FIELD {
            return None;
        }
        let size: [u8; 2] = u16_to_be(self.size as u16);
        let mut frame: Vec<u8> = Vec::new();
        frame.push(size[0]);
        frame.push(size[1]);
        let mut k: usize = 0;
        while k < self.size
            invariant
                k <= self.size <= B,
                frame@.len() == 2 + k,
                frame@[0] == spec_u16_to_be(self.size as u16)[0],
                frame@[1] == spec_u16_to_be(self.size as u16)[1],
                forall|i: int| 0 <= i < k ==> frame@[2 + i] == self.bytes@[i],
            decreases self.size - k,
        {
            frame.push(self.bytes[k]);
            k += 1;
        }
        assert(frame@ =~= spec_encode_resource(self@.valid()));
        Some(frame)
    }

    /// Decodes the resource response at the start of `frame` into this
    /// payload and returns its size. On any error the payload is left as it
    /// was.
    pub fn decode(&mut self, frame: &[u8]) -> (got: Result<usize, CodecError>)
        requires
            old(self).wf(),
        ensures
            final(self).wf(),
            match spec_decode_resource(frame@, B as nat) {
                Ok(payload) => got == Ok::<usize, CodecError>(payload.len() as usize)
                    && final(self)@.size == payload.len() && final(self)@.valid() == payload
                    && final(self)@.buffer == spec_write(old(self)@.buffer, 0, payload),
                Err(e) => got == Err::<usize, CodecError>(e) && final(self)@ == old(self)@,
            },
    {
        if frame.len() < 2 {
            return Err(CodecError::Incomplete);
        }
        let size: usize = u16_from_be(frame[0], frame[1]) as usize;
        if size > B {
            return Err(CodecError::FrameTooLarge);
        }
        if frame.len() - 2 < size {
            return Err(CodecError::Incomplete);
        }
        let mut k: usize = 0;
        while k < size
            invariant
                k <= size <= B,
                size <= MAX_FIELD,
                2 + size <= frame@.len(),
                self.size == old(self).size,
                forall|i: int|
                    0 <= i < B ==> self.bytes@[i] == (if i < k {
                        frame@[2 + i]
                    } else {
                        old(self).bytes@[i]
                    }),
            decreases size - k,
        {
            self.bytes[k] = frame[2 + k];
            k += 1;
        }
        self.size = size;
        proof {
            let payload = frame@.subrange(2, 2 + size as int);
            assert(self@.buffer =~= spec_write(old(self)@.buffer, 0, payload));
            assert(self@.valid() =~= payload);
        }
        Ok(size)
    }
}

/// Where a resource exchange stands.
#[derive(Clone, Copy, Debug, PartialEq, Eq, Structural)]
pub enum ResourcePhase {
    /// The request is being written.
    Sending,
    /// The 16-bit size is being read.
    Size,
    /// The payload is being read.
    Body,
    /// The payload has been read in full.
    Done,
    /// The exchange was given up.
    Failed(TransferError),
}

/// A resource exchange as contracts see it.
pub struct ResourceState {
    pub phase: ResourcePhase,
    pub session: SessionModel,
    /// The resource asked for.
    pub id: u16,
    /// The size the response declared.
    pub declared: nat,
    /// The bytes of the size field that have arrived.
    pub field: Seq<u8>,
    /// The number of payload bytes written to the destination.
    pub written: nat,
    /// The destination.
    pub out: PayloadModel,
    /// Every byte of the response taken from the stream so far.
    pub consumed: Seq<u8>,
}

/// `buffer` with `chunk` written over it from position `at`.
pub open spec fn spec_write(buffer: Seq<u8>, at: nat, chunk: Seq<u8>) -> Seq<u8> {
    Seq::new(
        buffer.len(),
        |i: int|
            if at <= i < at + chunk.len() {
                chunk[i - at]
            } else {
                buffer[i]
            },
    )
}

/// The exchange at its start, while the request is being written.
pub open spec fn spec_start(session: SessionModel, id: u16, out: PayloadModel) -> ResourceState {
    ResourceState {
        phase: ResourcePhase::Sending,
        session: spec_progress(session),
        id,
        declared: 0,
        field: Seq::empty(),
        written: 0,
        out,
        consumed: Seq::empty(),
    }
}

/// The number of bytes the phase in progress still lacks.
pub open spec fn spec_missing(s: ResourceState) -> int {
    match s.phase {
        ResourcePhase::Size => 2 - s.field.len(),
        ResourcePhase::Body => s.declared - s.written,
        _ => 0,
    }
}

/// The exchange given up with `error`; the destination stays as it is.
pub open spec fn spec_fail(s: ResourceState, error: TransferError) -> (ResourceState, FetchAction) {
    (ResourceState { phase: ResourcePhase::Failed(error), ..s }, FetchAction::Finished)
}

/// The exchange once the size field is complete. A size beyond the
/// destination's capacity ends it with `BufferOverflow` and the destination
/// untouched; otherwise the destination's valid length drops to zero and the
/// payload, if there is any, is read.
pub open spec fn spec_size_known(s: ResourceState) -> (ResourceState, FetchAction) {
    let declared = spec_u16_from_be(s.field[0], s.field[1]);
    if declared > s.out.buffer.len() {
        spec_fail(s, TransferError::BufferOverflow)
    } else {
        let t = ResourceState {
            declared: declared as nat,
            out: PayloadModel { size: 0, ..s.out },
            ..s
        };
        if declared == 0 {
            (ResourceState { phase: ResourcePhase::Done, ..t }, FetchAction::Finished)
        } else {
            (
                ResourceState { phase: ResourcePhase::Body, ..t },
                FetchAction::Read { len: declared as usize, delay_ms: 0 },
            )
        }
    }
}

/// The exchange after `chunk`, no longer than what is missing, has been taken
/// in: into the size field, or into the destination behind what is already
/// there.
pub open spec fn spec_take(s: ResourceState, chunk: Seq<u8>) -> ResourceState {
    match s.phase {
        ResourcePhase::Body => ResourceState {
            session: spec_progress(s.session),
            written: s.written + chunk.len(),
            out: PayloadModel { buffer: spec_write(s.out.buffer, s.written, chunk), ..s.out },
            consumed: s.consumed + chunk,
            ..s
        },
        _ => ResourceState {
            session: spec_progress(s.session),
            field: s.field + chunk,
            consumed: s.consumed + chunk,
            ..s
        },
    }
}

/// The exchange after a read that returned `chunk`.
pub open spec fn spec_received(s: ResourceState, chunk: Seq<u8>) -> (ResourceState, FetchAction) {
    let missing = spec_missing(s);
    if chunk.len() == 0 {
        if spec_exhausted(s.session) {
            spec_fail(s, TransferError::Timeout)
        } else {
            let session = spec_idle(s.session);
            (
                ResourceState { session, ..s },
                FetchAction::Read { len: missing as usize, delay_ms: spec_delay(session) as u32 },
            )
        }
    } else if chunk.len() > missing {
        spec_fail(s, TransferError::Protocol)
    } else {
        let t = spec_take(s, chunk);
        if chunk.len() < missing {
            (t, FetchAction::Read { len: (missing - chunk.len()) as usize, delay_ms: 0 })
        } else if s.phase is Size {
            spec_size_known(t)
        } else {
            (
                ResourceState {
                    phase: ResourcePhase::Done,
                    out: PayloadModel { size: t.declared, ..t.out },
                    ..t
                },
                FetchAction::Finished,
            )
        }
    }
}

/// One step of the exchange: the state after `event`, and what to do next.
///
/// While the request is being written only `Sent` moves the exchange on. While
/// the size or the payload is being read, an empty read counts against the
/// retry budget, a read longer than what was asked for is a protocol fault,
/// and anything else is taken in. A closed stream ends the exchange with
/// `Truncated`, a transport failure with `Io`. A finished exchange stays as
/// it is.
pub open spec fn spec_step(s: ResourceState, event: TransportEvent) -> (ResourceState, FetchAction) {
    match s.phase {
        ResourcePhase::Done | ResourcePhase::Failed(_) => (s, FetchAction::Finished),
        ResourcePhase::Sending => match event {
            TransportEvent::Sent => (
                ResourceState { phase: ResourcePhase::Size, ..s },
                FetchAction::Read { len: 2, delay_ms: 0 },
            ),
            TransportEvent::Failed => spec_fail(s, TransferError::Io),
            TransportEvent::Closed => spec_fail(s, TransferError::Truncated),
            TransportEvent::Received(_) => spec_fail(s, TransferError::Protocol),
        },
        _ => match event {
            TransportEvent::Sent => spec_fail(s, TransferError::Protocol),
            TransportEvent::Failed => spec_fail(s, TransferError::Io),
            TransportEvent::Closed => spec_fail(s, TransferError::Truncated),
            TransportEvent::Received(chunk) => spec_received(s, chunk@),
        },
    }
}

/// What holds of every state an exchange can reach.
///
/// The destination's valid length never exceeds its buffer. Once payload
/// bytes have been written, the valid length is zero until the exchange is
/// done, and then it is the declared size, every byte of which was written.
/// Until the exchange fails, the bytes consumed are the wire form of what has
/// arrived.
pub open spec fn spec_inv(s: ResourceState) -> bool {
    &&& s.out.size <= s.out.buffer.len()
    &&& s.declared <= MAX_FIELD
    &&& s.declared <= s.out.buffer.len()
    &&& s.written <= s.declared
    &&& (s.written > 0 && !(s.phase is Done) ==> s.out.size == 0)
    &&& match s.phase {
        ResourcePhase::Failed(_) => true,
        ResourcePhase::Sending => s.field.len() == 0 && s.consumed.len() == 0 && s.declared == 0,
        ResourcePhase::Size => s.field.len() < 2 && s.consumed == s.field && s.declared == 0,
        ResourcePhase::Body => s.written < s.declared && s.out.size == 0 && s.consumed
            == spec_u16_to_be(s.declared as u16) + s.out.buffer.subrange(0, s.written as int),
        ResourcePhase::Done => s.written == s.declared && s.out.size == s.declared && s.consumed
            == spec_encode_resource(s.out.valid()),
    }
}

/// An exchange starts in a state that satisfies the invariant.
pub proof fn lemma_start_inv(session: SessionModel, id: u16, out: PayloadModel)
    requires
        out.size <= out.buffer.len(),
    ensures
        spec_inv(spec_start(session, id, out)),
{
}

/// Writing a chunk behind what is already written extends the written part
/// by the chunk and leaves the rest of the buffer alone.
pub proof fn lemma_write_extends(buffer: Seq<u8>, at: nat, chunk: Seq<u8>)
    requires
        at + chunk.len() <= buffer.len(),
    ensures
        spec_write(buffer, at, chunk).len() == buffer.len(),
        spec_write(buffer, at, chunk).subrange(0, (at + chunk.len()) as int) == buffer.subrange(0, at as int)
            + chunk,
        forall|i: int|
            at + chunk.len() <= i < buffer.len() ==> spec_write(buffer, at, chunk)[i] == buffer[i],
{
    assert(spec_write(buffer, at, chunk).subrange(0, (at + chunk.len()) as int) =~= buffer.subrange(
        0,
        at as int,
    ) + chunk);
}

/// Learning the size keeps the invariant.
proof fn lemma_size_known_inv(t: ResourceState)
    requires
        t.phase is Size,
        t.field.len() == 2,
        t.consumed == t.field,
        t.declared == 0,
        t.written == 0,
        t.out.size <= t.out.buffer.len(),
    ensures
        spec_inv(spec_size_known(t).0),
{
    let after = spec_size_known(t).0;
    if !(after.phase is Failed) {
        lemma_be_round_trip(t.field[0], t.field[1]);
        assert(t.field =~= seq![t.field[0], t.field[1]]);
        assert(after.out.buffer.subrange(0, 0) =~= Seq::<u8>::empty());
        assert(after.out.valid() =~= Seq::<u8>::empty());
        assert(after.consumed =~= spec_u16_to_be(after.declared as u16) + Seq::<u8>::empty());
    }
}

/// Taking payload bytes keeps the invariant.
proof fn lemma_body_inv(s: ResourceState, chunk: Seq<u8>)
    requires
        spec_inv(s),
        s.phase is Body,
        0 < chunk.len() <= s.declared - s.written,
    ensures
        spec_inv(spec_received(s, chunk).0),
{
    let t = spec_take(s, chunk);
    lemma_write_extends(s.out.buffer, s.written, chunk);
    assert(t.consumed =~= spec_u16_to_be(t.declared as u16) + t.out.buffer.subrange(
        0,
        t.written as int,
    ));
    if chunk.len() == s.declared - s.written {
        let after = spec_received(s, chunk).0;
        assert(after.out.valid() == t.out.buffer.subrange(0, t.written as int));
    }
}

/// Taking bytes of the size field keeps the invariant.
proof fn lemma_size_inv(s: ResourceState, chunk: Seq<u8>)
    requires
        spec_inv(s),
        s.phase is Size,
        0 < chunk.len() <= 2 - s.field.len(),
    ensures
        spec_inv(spec_received(s, chunk).0),
{
    let t = spec_take(s, chunk);
    assert(t.consumed =~= t.field);
    if chunk.len() == 2 - s.field.len() {
        lemma_size_known_inv(t);
    }
}

/// Every step keeps the invariant.
pub proof fn lemma_step_inv(s: ResourceState, event: TransportEvent)
    requires
        spec_inv(s),
    ensures
        spec_inv(spec_step(s, event).0),
{
    match s.phase {
        ResourcePhase::Done | ResourcePhase::Failed(_) => {},
        ResourcePhase::Sending => {
            assert(s.consumed =~= s.field);
        },
        _ => {
            match event {
                TransportEvent::Received(bytes) => {
                    let chunk = bytes@;
                    if 0 < chunk.len() <= spec_missing(s) {
                        if s.phase is Size {
                            lemma_size_inv(s, chunk);
                        } else {
                            lemma_body_inv(s, chunk);
                        }
                    }
                },
                _ => {},
            }
        },
    }
}

/// Every read the exchange asks for is for at least one byte and at most a
/// 16-bit size's worth, after a delay within the policy's ceiling.
pub proof fn lemma_reads_are_bounded(s: ResourceState, event: TransportEvent)
    requires
        spec_inv(s),
    ensures
        match spec_step(s, event).1 {
            FetchAction::Read { len, delay_ms } => 1 <= len <= MAX_FIELD && delay_ms
                <= s.session.policy.max_delay_ms,
            FetchAction::Send(_) => false,
            FetchAction::Finished => true,
        },
{
    let idle = spec_idle(s.session);
    if idle.idle > 0 {
        lemma_backoff_bounded(idle.policy, (idle.idle - 1) as nat);
    }
}

/// When an exchange is done, what it took from the stream is exactly one
/// resource response, and the destination's valid bytes are its payload.
pub proof fn lemma_done_consumed_whole_response(s: ResourceState)
    requires
        spec_inv(s),
        s.phase == ResourcePhase::Done,
    ensures
        s.out.size == s.declared,
        s.out.valid().len() == s.declared,
        s.consumed == spec_encode_resource(s.out.valid()),
{
}

/// A response that declares more than the destination can hold is refused
/// with `BufferOverflow`, and the destination, buffer and valid length, is
/// left exactly as it was.
pub proof fn lemma_overflow_leaves_destination(s: ResourceState, chunk: &[u8])
    requires
        spec_inv(s),
        s.phase == ResourcePhase::Size,
        chunk@.len() > 0,
        (s.field + chunk@).len() == 2,
        spec_u16_from_be((s.field + chunk@)[0], (s.field + chunk@)[1]) > s.out.buffer.len(),
    ensures
        spec_step(s, TransportEvent::Received(chunk)).0.phase == ResourcePhase::Failed(
            TransferError::BufferOverflow,
        ),
        spec_step(s, TransportEvent::Received(chunk)).0.out == s.out,
        spec_step(s, TransportEvent::Received(chunk)).1 == FetchAction::Finished,
{
}

/// No step that ends in failure changes the destination.
pub proof fn lemma_failure_leaves_destination(s: ResourceState, event: TransportEvent)
    requires
        spec_inv(s),
        !(s.phase is Failed),
        spec_step(s, event).0.phase is Failed,
    ensures
        spec_step(s, event).0.out == s.out,
{
}

/// A stream that closes before the declared size has arrived ends the
/// exchange with `Truncated`, and the destination then claims no valid bytes
/// at all, however many were written.
pub proof fn lemma_truncated_claims_nothing(s: ResourceState)
    requires
        spec_inv(s),
        s.phase == ResourcePhase::Body,
    ensures
        s.written < s.declared,
        spec_step(s, TransportEvent::Closed).0.phase == ResourcePhase::Failed(
            TransferError::Truncated,
        ),
        spec_step(s, TransportEvent::Closed).0.out.size == 0,
        spec_step(s, TransportEvent::Closed).0.written == s.written,
{
}

/// In every reachable state in which this exchange has written payload
/// bytes, the destination's valid length is at most the number written.
pub proof fn lemma_size_within_written(s: ResourceState)
    requires
        spec_inv(s),
        s.written > 0 || s.phase is Body || s.phase is Done,
    ensures
        s.out.size <= s.written,
{
}

/// The exchange after a read that returned `chunk`, whatever phase it is in:
/// what [`spec_step`] gives for a `Received` event.
pub open spec fn spec_on_chunk(s: ResourceState, chunk: Seq<u8>) -> (ResourceState, FetchAction) {
    match s.phase {
        ResourcePhase::Done | ResourcePhase::Failed(_) => (s, FetchAction::Finished),
        ResourcePhase::Sending => spec_fail(s, TransferError::Protocol),
        _ => spec_received(s, chunk),
    }
}

/// The exchange after a run of reads that returned `chunks`, one after the
/// other.
pub open spec fn spec_feed(s: ResourceState, chunks: Seq<Seq<u8>>) -> ResourceState
    decreases chunks.len(),
{
    if chunks.len() == 0 {
        s
    } else {
        spec_on_chunk(spec_feed(s, chunks.drop_last()), chunks.last()).0
    }
}

/// Whether each of `chunks` brings something, and no more than the exchange
/// lacked when the chunk arrived.
pub open spec fn spec_fed_as_asked(s: ResourceState, chunks: Seq<Seq<u8>>) -> bool
    decreases chunks.len(),
{
    if chunks.len() == 0 {
        true
    } else {
        &&& spec_fed_as_asked(s, chunks.drop_last())
        &&& 0 < chunks.last().len() <= spec_missing(spec_feed(s, chunks.drop_last()))
    }
}

/// The exchange after `n` reads in a row that returned nothing.
pub open spec fn spec_silence(s: ResourceState, n: nat) -> ResourceState
    decreases n,
{
    if n == 0 {
        s
    } else {
        spec_on_chunk(spec_silence(s, (n - 1) as nat), Seq::empty()).0
    }
}

/// A silent peer is given up on. While a field is awaited, reads that return
/// nothing only count up, and the one that brings the count of empty reads
/// in a row to the policy's limit ends the exchange with `Timeout`.
pub proof fn lemma_silence_times_out(s: ResourceState, n: nat)
    requires
        s.phase is Size || s.phase is Body,
    ensures
        s.session.idle + n < s.session.policy.max_attempts ==> spec_silence(s, n) == (ResourceState {
            session: SessionModel { idle: s.session.idle + n, ..s.session },
            ..s
        }),
        n > 0 && s.session.idle + n >= s.session.policy.max_attempts ==> spec_silence(s, n).phase
            == ResourcePhase::Failed(TransferError::Timeout),
    decreases n,
{
    if n > 0 {
        lemma_silence_times_out(s, (n - 1) as nat);
    }
}

/// A `Received` event is a read that returned the event's bytes.
pub proof fn lemma_step_on_chunk(s: ResourceState, bytes: &[u8])
    ensures
        spec_step(s, TransportEvent::Received(bytes)) == spec_on_chunk(s, bytes@),
{
}

/// A read that brings what was asked for, out of a response whose payload
/// fits the destination, keeps the exchange on course.
proof fn lemma_received_on_course(s: ResourceState, chunk: Seq<u8>, payload: Seq<u8>)
    requires
        spec_inv(s),
        s.phase is Size || s.phase is Body,
        0 < chunk.len() <= spec_missing(s),
        payload.len() <= MAX_FIELD,
        payload.len() <= s.out.buffer.len(),
        (s.consumed + chunk).len() <= spec_encode_resource(payload).len(),
        s.consumed + chunk == spec_encode_resource(payload).take((s.consumed + chunk).len() as int),
    ensures
        !(spec_received(s, chunk).0.phase is Failed),
        !(spec_received(s, chunk).0.phase is Sending),
        spec_received(s, chunk).0.consumed == s.consumed + chunk,
        spec_received(s, chunk).0.out.buffer.len() == s.out.buffer.len(),
{
    if s.phase is Size && chunk.len() == spec_missing(s) {
        let t = spec_take(s, chunk);
        let whole = spec_encode_resource(payload);
        lemma_u16_round_trip(payload.len() as u16);
        assert(t.field =~= s.consumed + chunk);
        assert(t.field[0] == whole[0]);
        assert(t.field[1] == whole[1]);
        assert(whole[0] == spec_u16_to_be(payload.len() as u16)[0]);
        assert(whole[1] == spec_u16_to_be(payload.len() as u16)[1]);
        assert(spec_u16_from_be(t.field[0], t.field[1]) == payload.len());
    }
}

/// Reads that bring what was asked for, out of a response whose payload fits
/// the destination, never fail the exchange, and what it has consumed grows
/// by every chunk.
proof fn lemma_feed_consumes(s: ResourceState, chunks: Seq<Seq<u8>>, payload: Seq<u8>)
    requires
        spec_inv(s),
        s.phase is Size,
        s.field.len() == 0,
        spec_fed_as_asked(s, chunks),
        payload.len() <= MAX_FIELD,
        payload.len() <= s.out.buffer.len(),
        spec_joined(chunks).len() <= spec_encode_resource(payload).len(),
        spec_joined(chunks) == spec_encode_resource(payload).take(spec_joined(chunks).len() as int),
    ensures
        spec_inv(spec_feed(s, chunks)),
        !(spec_feed(s, chunks).phase is Failed),
        !(spec_feed(s, chunks).phase is Sending),
        spec_feed(s, chunks).consumed == spec_joined(chunks),
        spec_feed(s, chunks).out.buffer.len() == s.out.buffer.len(),
    decreases chunks.len(),
{
    if chunks.len() == 0 {
        assert(s.consumed =~= spec_joined(chunks));
    } else {
        let earlier = chunks.drop_last();
        let last = chunks.last();
        let whole = spec_encode_resource(payload);
        assert(spec_joined(chunks) == spec_joined(earlier) + last);
        assert(spec_joined(earlier) =~= whole.take(spec_joined(earlier).len() as int));
        lemma_feed_consumes(s, earlier, payload);
        let mid = spec_feed(s, earlier);
        assert(mid.phase is Size || mid.phase is Body);
        assert(spec_feed(s, chunks) == spec_received(mid, last).0);
        if mid.phase is Size {
            lemma_size_inv(mid, last);
        } else {
            lemma_body_inv(mid, last);
        }
        lemma_received_on_course(mid, last, payload);
    }
}

/// A resource response can be read in one way only: an exchange that is on
/// course and has consumed exactly the wire form of `payload` is done, and
/// its destination's valid bytes are `payload`.
proof fn lemma_consumed_response_is_read(s: ResourceState, payload: Seq<u8>)
    requires
        spec_inv(s),
        !(s.phase is Failed),
        !(s.phase is Sending),
        payload.len() <= MAX_FIELD,
        s.consumed == spec_encode_resource(payload),
    ensures
        s.phase == ResourcePhase::Done,
        s.out.valid() == payload,
        s.out.size == payload.len(),
{
    let whole = spec_encode_resource(payload);
    assert(spec_u16_to_be(payload.len() as u16).len() == 2);
    lemma_u16_round_trip(payload.len() as u16);
    if s.phase is Size {
        assert(false);
    } else if s.phase is Body {
        lemma_u16_round_trip(s.declared as u16);
        assert(spec_u16_to_be(s.declared as u16).len() == 2);
        assert(s.consumed[0] == spec_u16_to_be(s.declared as u16)[0]);
        assert(s.consumed[1] == spec_u16_to_be(s.declared as u16)[1]);
        assert(whole[0] == spec_u16_to_be(payload.len() as u16)[0]);
        assert(whole[1] == spec_u16_to_be(payload.len() as u16)[1]);
        assert(s.declared == payload.len());
        assert(s.consumed.len() == 2 + s.written);
        assert(false);
    } else {
        let valid = s.out.valid();
        assert(spec_u16_to_be(valid.len() as u16).len() == 2);
        assert(valid =~= s.consumed.subrange(2, s.consumed.len() as int));
        assert(payload =~= whole.subrange(2, whole.len() as int));
    }
}

/// A well-formed response is fetched. Take an exchange that has sent its
/// request and is about to read the size, and let the reads that follow
/// bring, in any pieces, each no longer than what was asked for, exactly the
/// wire form of a payload that fits the destination. Then the exchange ends
/// done, having consumed the whole response and nothing more, and the
/// destination's valid bytes are the payload.
pub proof fn lemma_response_is_fetched(s: ResourceState, payload: Seq<u8>, chunks: Seq<Seq<u8>>)
    requires
        spec_inv(s),
        s.phase == ResourcePhase::Size,
        s.field.len() == 0,
        payload.len() <= MAX_FIELD,
        payload.len() <= s.out.buffer.len(),
        spec_joined(chunks) == spec_encode_resource(payload),
        spec_fed_as_asked(s, chunks),
    ensures
        spec_feed(s, chunks).phase == ResourcePhase::Done,
        spec_feed(s, chunks).out.valid() == payload,
        spec_feed(s, chunks).out.size == payload.len(),
        spec_feed(s, chunks).consumed == spec_encode_resource(payload),
{
    let whole = spec_encode_resource(payload);
    assert(whole =~= whole.take(whole.len() as int));
    lemma_feed_consumes(s, chunks, payload);
    lemma_consumed_response_is_read(spec_feed(s, chunks), payload);
}

/// A resource exchange in progress into a destination of `B` bytes. It holds
/// the session and the destination for as long as the exchange lasts.
pub struct ResourceFetcher<const B: usize> {
    session: TransferSession,
    phase: ResourcePhase,
    id: u16,
    declared: u16,
    head: [u8; 2],
    have: usize,
    written: usize,
    out: ResourcePayload<B>,
    consumed: Ghost<Seq<u8>>,
}

impl<const B: usize> View for ResourceFetcher<B> {
    type V = ResourceState;

    closed spec fn view(&self) -> ResourceState {
        ResourceState {
            phase: self.phase,
            session: self.session@,
            id: self.id,
            declared: self.declared as nat,
            field: self.head@.subrange(0, self.have as int),
            written: self.written as nat,
            out: self.out@,
            consumed: self.consumed@,
        }
    }
}

impl<const B: usize> ResourceFetcher<B> {
    /// The stored fields are within their bounds.
    spec fn repr(&self) -> bool {
        &&& self.session.wf()
        &&& self.have <= 2
        &&& self.written <= self.declared <= B
        &&& self.out.size <= B
    }

    /// The invariant of a fetcher: its fields are within bounds, and its
    /// state is one an exchange can reach.
    pub closed spec fn wf(&self) -> bool {
        self.repr() && spec_inv(self@)
    }

    /// The state of a well-formed fetcher satisfies the exchange's invariant,
    /// and its destination has `B` bytes.
    pub proof fn lemma_wf_inv(&self)
        requires
            self.wf(),
        ensures
            spec_inv(self@),
            self@.out.buffer.len() == B,
    {
    }

    /// Begins an exchange for resource `id` on `session`, into `out`. The
    /// action returned is the request to send.
    pub fn start(session: TransferSession, id: u16, out: ResourcePayload<B>) -> (begun: (
        Self,
        FetchAction,
    ))
        requires
            session.wf(),
            out.wf(),
        ensures
            begun.0.wf(),
            begun.0@ == spec_start(session@, id, out@),
            begun.1 matches FetchAction::Send(frame) && frame@ == spec_resource_request(id),
    {
        let mut session = session;
        session.note_progress();
        let fetcher = ResourceFetcher {
            session,
            phase: ResourcePhase::Sending,
            id,
            declared: 0,
            head: [0u8; 2],
            have: 0,
            written: 0,
            out,
            consumed: Ghost(Seq::empty()),
        };
        assert(fetcher@.field =~= Seq::<u8>::empty());
        (fetcher, FetchAction::Send(resource_request(id)))
    }

    /// Where the exchange stands.
    pub fn phase(&self) -> (phase: ResourcePhase)
        ensures
            phase == self@.phase,
    {
        self.phase
    }

    /// The outcome of the exchange: nothing while it is in progress, the
    /// number of payload bytes once it is done, the error once it has failed.
    pub fn outcome(&self) -> (outcome: Option<Result<usize, TransferError>>)
        requires
            self.wf(),
        ensures
            match self@.phase {
                ResourcePhase::Done => outcome == Some(
                    Ok::<usize, TransferError>(self@.declared as usize),
                ) && self@.out.size == self@.declared,
                ResourcePhase::Failed(error) => outcome == Some(Err::<usize, TransferError>(error)),
                _ => outcome is None,
            },
    {
        match self.phase {
            ResourcePhase::Done => Some(Ok(self.declared as usize)),
            ResourcePhase::Failed(error) => Some(Err(error)),
            _ => None,
        }
    }

    /// The destination as it stands.
    pub fn payload(&self) -> (payload: &ResourcePayload<B>)
        requires
            self.wf(),
        ensures
            payload.wf(),
            payload@ == self@.out,
    {
        &self.out
    }

    /// Ends the exchange, finished or not, and gives the session and the
    /// destination back.
    pub fn finish(self) -> (parts: (TransferSession, ResourcePayload<B>))
        requires
            self.wf(),
        ensures
            parts.0.wf(),
            parts.0@ == self@.session,
            parts.1.wf(),
            parts.1@ == self@.out,
    {
        (self.session, self.out)
    }

    /// Gives the exchange up with `error`.
    fn fail(&mut self, error: TransferError) -> (action: FetchAction)
        requires
            old(self).repr(),
        ensures
            final(self).repr(),
            (final(self)@, action) == spec_fail(old(self)@, error),
    {
        self.phase = ResourcePhase::Failed(error);
        FetchAction::Finished
    }

    /// Takes `chunk` into the size field or into the destination.
    fn take(&mut self, chunk: &[u8])
        requires
            old(self).repr(),
            old(self).phase is Size || old(self).phase is Body,
            0 < chunk@.len() <= spec_missing(old(self)@),
        ensures
            final(self).repr(),
            final(self)@ == spec_take(old(self)@, chunk@),
    {
        let in_head: bool = match self.phase {
            ResourcePhase::Size => true,
            _ => false,
        };
        let base: usize = if in_head {
            self.have
        } else {
            self.written
        };
        let mut k: usize = 0;
        while k < chunk.len()
            invariant
                k <= chunk@.len(),
                in_head ==> base + chunk@.len() <= 2,
                !in_head ==> base + chunk@.len() <= B,
                self.session == old(self).session,
                self.phase == old(self).phase,
                self.id == old(self).id,
                self.declared == old(self).declared,
                self.have == old(self).have,
                self.written == old(self).written,
                self.out.size == old(self).out.size,
                self.consumed == old(self).consumed,
                in_head ==> self.out == old(self).out,
                !in_head ==> self.head == old(self).head,
                in_head ==> forall|i: int|
                    0 <= i < 2 ==> self.head@[i] == (if base <= i < base + k {
                        chunk@[i - base]
                    } else {
                        old(self).head@[i]
                    }),
                !in_head ==> forall|i: int|
                    0 <= i < B ==> self.out.bytes@[i] == (if base <= i < base + k {
                        chunk@[i - base]
                    } else {
                        old(self).out.bytes@[i]
                    }),
            decreases chunk@.len() - k,
        {
            if in_head {
                self.head[base + k] = chunk[k];
            } else {
                self.out.bytes[base + k] = chunk[k];
            }
            k = k + 1;
        }
        if in_head {
            self.have = base + chunk.len();
        } else {
            self.written = base + chunk.len();
        }
        self.session.note_progress();
        self.consumed = Ghost(self.consumed@ + chunk@);
        proof {
            if in_head {
                assert(self@.field =~= old(self)@.field + chunk@);
            } else {
                assert(self@.out.buffer =~= spec_write(
                    old(self)@.out.buffer,
                    old(self)@.written,
                    chunk@,
                ));
            }
        }
    }

    /// Acts on the size field, now complete.
    fn size_known(&mut self) -> (action: FetchAction)
        requires
            old(self).repr(),
            old(self).phase is Size,
            old(self).have == 2,
            old(self).written == 0,
        ensures
            final(self).repr(),
            (final(self)@, action) == spec_size_known(old(self)@),
    {
        let declared: u16 = u16_from_be(self.head[0], self.head[1]);
        if declared as usize > B {
            self.fail(TransferError::BufferOverflow)
        } else {
            self.declared = declared;
            self.out.size = 0;
            if declared == 0 {
                self.phase = ResourcePhase::Done;
                FetchAction::Finished
            } else {
                self.phase = ResourcePhase::Body;
                FetchAction::Read { len: declared as usize, delay_ms: 0 }
            }
        }
    }

    /// Acts on a read that returned `chunk`.
    fn received(&mut self, chunk: &[u8]) -> (action: FetchAction)
        requires
            old(self).wf(),
            old(self).phase is Size || old(self).phase is Body,
        ensures
            final(self).repr(),
            (final(self)@, action) == spec_received(old(self)@, chunk@),
    {
        let in_head: bool = match self.phase {
            ResourcePhase::Size => true,
            _ => false,
        };
        let missing: usize = if in_head {
            2 - self.have
        } else {
            self.declared as usize - self.written
        };
        if chunk.len() == 0 {
            match self.session.note_idle() {
                None => self.fail(TransferError::Timeout),
                Some(delay_ms) => FetchAction::Read { len: missing, delay_ms },
            }
        } else if chunk.len() > missing {
            self.fail(TransferError::Protocol)
        } else {
            self.take(chunk);
            if chunk.len() < missing {
                FetchAction::Read { len: missing - chunk.len(), delay_ms: 0 }
            } else if in_head {
                assert(self@.field.len() == self.have);
                self.size_known()
            } else {
                self.out.size = self.declared as usize;
                self.phase = ResourcePhase::Done;
                FetchAction::Finished
            }
        }
    }

    /// Advances the exchange by one event and says what to do next.
    pub fn step(&mut self, event: TransportEvent) -> (action: FetchAction)
        requires
            old(self).wf(),
        ensures
            final(self).wf(),
            (final(self)@, action) == spec_step(old(self)@, event),
    {
        proof {
            lemma_step_inv(self@, event);
        }
        match self.phase {
            ResourcePhase::Done => FetchAction::Finished,
            ResourcePhase::Failed(_) => FetchAction::Finished,
            ResourcePhase::Sending => match event {
                TransportEvent::Sent => {
                    self.phase = ResourcePhase::Size;
                    FetchAction::Read { len: 2, delay_ms: 0 }
                },
                TransportEvent::Failed => self.fail(TransferError::Io),
                TransportEvent::Closed => self.fail(TransferError::Truncated),
                TransportEvent::Received(_) => self.fail(TransferError::Protocol),
            },
            _ => match event {
                TransportEvent::Sent => self.fail(TransferError::Protocol),
                TransportEvent::Failed => self.fail(TransferError::Io),
                TransportEvent::Closed => self.fail(TransferError::Truncated),
                TransportEvent::Received(chunk) => self.received(chunk),
            },
        }
    }
}

} // verus!
