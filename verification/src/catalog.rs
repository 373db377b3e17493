//! The catalog of resources a server offers, and the step-by-step exchange
//! that fetches it.
//!
//! The exchange never reads more than the field in progress still needs, so
//! the stream stays aligned whatever happens to an entry: an entry whose name
//! does not fit or is not UTF-8, and every entry past the catalog's capacity,
//! is read to its end and dropped.

use crate::error::TransferError;
use crate::session::{
    lemma_backoff_bounded, spec_delay, spec_exhausted, spec_idle, spec_progress, FetchAction,
    SessionModel, TransferSession, TransportEvent,
};
use crate::wire::{
    catalog_request, lemma_be_round_trip, lemma_encode_entries_front, lemma_encode_entries_len,
    lemma_entries_determined, lemma_u16_round_trip, spec_catalog_request, spec_encode_catalog,
    spec_encode_entries, spec_encode_entry, spec_joined, spec_name_fits, spec_u16_from_be,
    spec_u16_to_be, u16_from_be, Entry, ResourceDescriptor, ENTRY_HEADER_LEN, MAX_FIELD,
};
use vstd::prelude::*;
use vstd::slice::slice_subrange;

verus! {

/// The number of occupied slots among `slots`.
pub open spec fn spec_occupied(slots: Seq<Option<Entry>>) -> nat
    decreases slots.len(),
{
    if slots.len() == 0 {
        0
    } else {
        spec_occupied(slots.drop_last()) + (if slots.last() is Some {
            1nat
        } else {
            0nat
        })
    }
}

/// What slot `i` of a catalog with room for names of `name_capacity` bytes
/// holds once the entries `entries` have gone by: entry `i`, if there is one
/// and its name fits.
pub open spec fn spec_slot(entries: Seq<Entry>, name_capacity: nat, i: int) -> Option<Entry> {
    if 0 <= i < entries.len() && spec_name_fits(entries[i].name, name_capacity) {
        Some(entries[i])
    } else {
        None
    }
}

/// The slots of a catalog with `capacity` slots once `entries` have gone by.
pub open spec fn spec_slots(entries: Seq<Entry>, capacity: nat, name_capacity: nat) -> Seq<
    Option<Entry>,
> {
    Seq::new(capacity, |i: int| spec_slot(entries, name_capacity, i))
}

/// `R` slots for descriptors with names of at most `N` bytes, with the count
/// the server reported. Slot `i` is for the `i`-th entry of the response.
#[derive(Clone, Copy, Debug, PartialEq, Eq)]
pub struct ResourceCatalog<const R: usize, const N: usize> {
    slots: [Option<ResourceDescriptor<N>>; R],
    reported: u16,
}

impl<const R: usize, const N: usize> View for ResourceCatalog<R, N> {
    type V = Seq<Option<Entry>>;

    closed spec fn view(&self) -> Seq<Option<Entry>> {
        Seq::new(
            R as nat,
            |i: int|
                match self.slots@[i] {
                    Some(d) => Some(d@),
                    None => None,
                },
        )
    }
}

impl<const R: usize, const N: usize> ResourceCatalog<R, N> {
    /// The count the server reported.
    pub closed spec fn spec_reported(&self) -> nat {
        self.reported as nat
    }

    /// The invariant: every stored descriptor is well-formed, and no slot at
    /// or past the reported count is occupied.
    pub closed spec fn wf(&self) -> bool {
        &&& forall|i: int| 0 <= i < R ==> (#[trigger] self.slots@[i]) is Some ==> self.slots@[i]->0.wf()
        &&& forall|i: int| self.reported <= i < R ==> (#[trigger] self.slots@[i]) is None
    }

    /// A catalog has exactly `R` slots, and none at or past the reported
    /// count is occupied.
    pub proof fn lemma_shape(&self)
        requires
            self.wf(),
        ensures
            self@.len() == R,
            forall|i: int| self.spec_reported() <= i < R ==> self@[i] is None,
    {
    }

    /// The occupied slots number at most the reported count, and at most `R`.
    pub proof fn lemma_occupied_bounded(&self)
        requires
            self.wf(),
        ensures
            spec_occupied(self@) <= self.spec_reported(),
            spec_occupied(self@) <= R,
    {
        self.lemma_shape();
        lemma_occupied_prefix(self@, self.spec_reported());
    }

    /// A catalog with every slot empty and nothing reported.
    pub fn new() -> (catalog: Self)
        ensures
            catalog.wf(),
            catalog.spec_reported() == 0,
            catalog@ == Seq::new(R as nat, |i: int| None::<Entry>),
    {
        let catalog = ResourceCatalog { slots: [None; R], reported: 0 };
        assert(catalog@ =~= Seq::new(R as nat, |i: int| None::<Entry>));
        catalog
    }

    /// The number of slots.
    pub fn capacity(&self) -> (capacity: usize)
        ensures
            capacity == R,
    {
        R
    }

    /// The count the server reported.
    pub fn reported(&self) -> (reported: u16)
        ensures
            reported == self.spec_reported(),
    {
        self.reported
    }

    /// The descriptor in slot `i`, if the slot exists and is occupied.
    pub fn get(&self, i: usize) -> (found: Option<ResourceDescriptor<N>>)
        requires
            self.wf(),
        ensures
            i >= R ==> found is None,
            i < R ==> (found is Some <==> self@[i as int] is Some),
            found is Some ==> found->0.wf() && found->0@ == self@[i as int]->0,
    {
        if i < R {
            self.slots[i]
        } else {
            None
        }
    }

    /// The number of occupied slots.
    pub fn stored(&self) -> (stored: usize)
        requires
            self.wf(),
        ensures
            stored == spec_occupied(self@),
            stored <= R,
            stored <= self.spec_reported(),
    {
        let mut stored: usize = 0;
        let mut i: usize = 0;
        while i < R
            invariant
                i <= R,
                stored <= i,
                stored == spec_occupied(self@.subrange(0, i as int)),
            decreases R - i,
        {
            proof {
                let upto = self@.subrange(0, i + 1);
                assert(upto.drop_last() =~= self@.subrange(0, i as int));
                assert(upto.last() == self@[i as int]);
            }
            if self.slots[i].is_some() {
                stored = stored + 1;
            }
            i = i + 1;
        }
        proof {
            assert(self@.subrange(0, R as int) =~= self@);
            self.lemma_occupied_bounded();
        }
        stored
    }
}

/// No more slots are occupied than there are slots, and when every slot from
/// `bound` on is empty, no more than `bound`.
pub proof fn lemma_occupied_prefix(slots: Seq<Option<Entry>>, bound: nat)
    requires
        forall|i: int| bound <= i < slots.len() ==> slots[i] is None,
    ensures
        spec_occupied(slots) <= slots.len(),
        spec_occupied(slots) <= bound,
    decreases slots.len(),
{
    if slots.len() > 0 {
        lemma_occupied_prefix(slots.drop_last(), bound);
    }
}

/// Where a catalog exchange stands.
#[derive(Clone, Copy, Debug, PartialEq, Eq, Structural)]
pub enum CatalogPhase {
    /// The request is being written.
    Sending,
    /// The 16-bit entry count is being read.
    Count,
    /// The four header bytes of an entry are being read.
    Header,
    /// The name of an entry is being read.
    Name,
    /// Every entry has been read.
    Done,
    /// The exchange was given up.
    Failed(TransferError),
}

/// A catalog exchange as contracts see it.
pub struct CatalogState {
    pub phase: CatalogPhase,
    pub session: SessionModel,
    /// The number of slots, and the room each has for a name.
    pub capacity: nat,
    pub name_capacity: nat,
    /// The entry count the response declared.
    pub count: nat,
    /// The entries read in full so far, in order.
    pub entries: Seq<Entry>,
    /// The header of the entry whose name is being read.
    pub id: u16,
    pub name_len: nat,
    /// The bytes of the field in progress.
    pub field: Seq<u8>,
    pub slots: Seq<Option<Entry>>,
    /// Every byte of the response taken from the stream so far.
    pub consumed: Seq<u8>,
}

/// The exchange at its start, while the request is being written.
pub open spec fn spec_start(session: SessionModel, capacity: nat, name_capacity: nat) -> CatalogState {
    CatalogState {
        phase: CatalogPhase::Sending,
        session: spec_progress(session),
        capacity,
        name_capacity,
        count: 0,
        entries: Seq::empty(),
        id: 0,
        name_len: 0,
        field: Seq::empty(),
        slots: spec_slots(Seq::empty(), capacity, name_capacity),
        consumed: Seq::empty(),
    }
}

/// The length of the field in progress.
pub open spec fn spec_want(s: CatalogState) -> nat {
    match s.phase {
        CatalogPhase::Count => 2,
        CatalogPhase::Header => ENTRY_HEADER_LEN as nat,
        CatalogPhase::Name => s.name_len,
        _ => 0,
    }
}

/// The exchange given up with `error`.
pub open spec fn spec_fail(s: CatalogState, error: TransferError) -> (CatalogState, FetchAction) {
    (CatalogState { phase: CatalogPhase::Failed(error), ..s }, FetchAction::Finished)
}

/// The exchange once the entry in progress, with the name `name`, has been
/// read in full: the entry is stored if it has a slot and its name fits, and
/// the next entry, if any, is begun.
pub open spec fn spec_entry_done(s: CatalogState, name: Seq<u8>) -> (CatalogState, FetchAction) {
    let entry = Entry { id: s.id, name };
    let entries = s.entries.push(entry);
    let t = CatalogState {
        entries,
        slots: spec_slots(entries, s.capacity, s.name_capacity),
        field: Seq::empty(),
        ..s
    };
    if entries.len() >= s.count {
        (CatalogState { phase: CatalogPhase::Done, ..t }, FetchAction::Finished)
    } else {
        (
            CatalogState { phase: CatalogPhase::Header, ..t },
            FetchAction::Read { len: ENTRY_HEADER_LEN, delay_ms: 0 },
        )
    }
}

/// The exchange once the field in progress is complete.
pub open spec fn spec_field_done(s: CatalogState) -> (CatalogState, FetchAction) {
    match s.phase {
        CatalogPhase::Count => {
            let count = spec_u16_from_be(s.field[0], s.field[1]) as nat;
            let t = CatalogState { count, field: Seq::empty(), ..s };
            if count == 0 {
                (CatalogState { phase: CatalogPhase::Done, ..t }, FetchAction::Finished)
            } else {
                (
                    CatalogState { phase: CatalogPhase::Header, ..t },
                    FetchAction::Read { len: ENTRY_HEADER_LEN, delay_ms: 0 },
                )
            }
        },
        CatalogPhase::Header => {
            let id = spec_u16_from_be(s.field[0], s.field[1]);
            let name_len = spec_u16_from_be(s.field[2], s.field[3]);
            let t = CatalogState { id, name_len: name_len as nat, field: Seq::empty(), ..s };
            if name_len == 0 {
                spec_entry_done(t, Seq::empty())
            } else {
                (
                    CatalogState { phase: CatalogPhase::Name, ..t },
                    FetchAction::Read { len: name_len as usize, delay_ms: 0 },
                )
            }
        },
        CatalogPhase::Name => spec_entry_done(s, s.field),
        _ => (s, FetchAction::Finished),
    }
}

/// The exchange after a read that returned `chunk`.
pub open spec fn spec_received(s: CatalogState, chunk: Seq<u8>) -> (CatalogState, FetchAction) {
    let missing = spec_want(s) - s.field.len();
    if chunk.len() == 0 {
        if spec_exhausted(s.session) {
            spec_fail(s, TransferError::Timeout)
        } else {
            let session = spec_idle(s.session);
            (
                CatalogState { session, ..s },
                FetchAction::Read { len: missing as usize, delay_ms: spec_delay(session) as u32 },
            )
        }
    } else if chunk.len() > missing {
        spec_fail(s, TransferError::Protocol)
    } else {
        let t = CatalogState {
            session: spec_progress(s.session),
            field: s.field + chunk,
            consumed: s.consumed + chunk,
            ..s
        };
        if chunk.len() < missing {
            (t, FetchAction::Read { len: (missing - chunk.len()) as usize, delay_ms: 0 })
        } else {
            spec_field_done(t)
        }
    }
}

/// One step of the exchange: the state after `event`, and what to do next.
///
/// While the request is being written only `Sent` moves the exchange on. While
/// a field is being read, an empty read counts against the retry budget, a
/// read longer than what was asked for is a protocol fault, and anything else
/// is taken into the field. A closed stream ends the exchange with
/// `Truncated`, a transport failure with `Io`. A finished exchange stays as
/// it is.
pub open spec fn spec_step(s: CatalogState, event: TransportEvent) -> (CatalogState, FetchAction) {
    match s.phase {
        CatalogPhase::Done | CatalogPhase::Failed(_) => (s, FetchAction::Finished),
        CatalogPhase::Sending => match event {
            TransportEvent::Sent => (
                CatalogState { phase: CatalogPhase::Count, ..s },
                FetchAction::Read { len: 2, delay_ms: 0 },
            ),
            TransportEvent::Failed => spec_fail(s, TransferError::Io),
            TransportEvent::Closed => spec_fail(s, TransferError::Truncated),
            TransportEvent::Received(_) => spec_fail(s, TransferError::Protocol),
        },
        _ => match event {
            TransportEvent::Sent => spec_fail(s, TransferError::Protocol),
            TransportEvent::Failed => spec_fail(s, TransferError::Io),
            TransportEvent::Closed => spec_fail(s, TransferError::Truncated),
            TransportEvent::Received(chunk) => spec_received(s, chunk@),
        },
    }
}

/// The bytes of the response that precede the field in progress.
pub open spec fn spec_before_field(s: CatalogState) -> Seq<u8> {
    match s.phase {
        CatalogPhase::Header | CatalogPhase::Done => spec_u16_to_be(s.count as u16)
            + spec_encode_entries(s.entries),
        CatalogPhase::Name => spec_u16_to_be(s.count as u16) + spec_encode_entries(s.entries)
            + spec_u16_to_be(s.id) + spec_u16_to_be(s.name_len as u16),
        _ => Seq::empty(),
    }
}

/// What holds of every state an exchange can reach: the slots hold what the
/// entries read so far put there, and, until the exchange fails, the bytes
/// consumed are the wire form of the count, of those entries, and of the part
/// of the field in progress that has arrived.
pub open spec fn spec_inv(s: CatalogState) -> bool {
    &&& s.slots == spec_slots(s.entries, s.capacity, s.name_capacity)
    &&& s.count <= MAX_FIELD
    &&& s.entries.len() <= s.count
    &&& s.name_len <= MAX_FIELD
    &&& (forall|i: int| 0 <= i < s.entries.len() ==> (#[trigger] s.entries[i]).name.len() <= MAX_FIELD)
    &&& match s.phase {
        CatalogPhase::Failed(_) => true,
        CatalogPhase::Sending => s.count == 0 && s.field.len() == 0 && s.consumed.len() == 0,
        CatalogPhase::Count => s.count == 0 && s.field.len() < 2 && s.consumed == s.field,
        CatalogPhase::Header => s.entries.len() < s.count && s.field.len() < ENTRY_HEADER_LEN
            && s.consumed == spec_before_field(s) + s.field,
        CatalogPhase::Name => s.entries.len() < s.count && s.field.len() < s.name_len
            && s.consumed == spec_before_field(s) + s.field,
        CatalogPhase::Done => s.entries.len() == s.count && s.field.len() == 0 && s.consumed
            == spec_before_field(s),
    }
}

/// An exchange starts in a state that satisfies the invariant.
pub proof fn lemma_start_inv(session: SessionModel, capacity: nat, name_capacity: nat)
    ensures
        spec_inv(spec_start(session, capacity, name_capacity)),
{
}

/// Appending an entry appends its wire form.
pub proof fn lemma_encode_push(entries: Seq<Entry>, entry: Entry)
    ensures
        spec_encode_entries(entries.push(entry)) == spec_encode_entries(entries)
            + spec_encode_entry(entry),
{
    assert(entries.push(entry).drop_last() =~= entries);
}

/// Completing an entry keeps the invariant.
proof fn lemma_entry_done_inv(s: CatalogState, name: Seq<u8>)
    requires
        s.slots == spec_slots(s.entries, s.capacity, s.name_capacity),
        s.count <= MAX_FIELD,
        s.entries.len() < s.count,
        s.name_len <= MAX_FIELD,
        forall|i: int| 0 <= i < s.entries.len() ==> (#[trigger] s.entries[i]).name.len() <= MAX_FIELD,
        name.len() == s.name_len,
        s.consumed == spec_u16_to_be(s.count as u16) + spec_encode_entries(s.entries)
            + spec_u16_to_be(s.id) + spec_u16_to_be(s.name_len as u16) + name,
    ensures
        spec_inv(spec_entry_done(s, name).0),
{
    let entry = Entry { id: s.id, name };
    lemma_encode_push(s.entries, entry);
    let after = spec_entry_done(s, name).0;
    assert(after.consumed =~= spec_u16_to_be(s.count as u16) + spec_encode_entries(
        s.entries.push(entry),
    ));
    assert(after.consumed + Seq::<u8>::empty() =~= after.consumed);
}

/// Completing the count keeps the invariant.
proof fn lemma_count_done_inv(t: CatalogState)
    requires
        t.phase is Count,
        t.slots == spec_slots(t.entries, t.capacity, t.name_capacity),
        t.entries.len() == 0,
        t.name_len <= MAX_FIELD,
        t.field.len() == 2,
        t.consumed == t.field,
    ensures
        spec_inv(spec_field_done(t).0),
{
    lemma_be_round_trip(t.field[0], t.field[1]);
    assert(t.field =~= seq![t.field[0], t.field[1]]);
    let after = spec_field_done(t).0;
    assert(t.entries =~= Seq::<Entry>::empty());
    assert(spec_encode_entries(t.entries) =~= Seq::<u8>::empty());
    assert(after.consumed =~= spec_before_field(after));
    assert(after.consumed =~= spec_before_field(after) + after.field);
}

/// Completing an entry's header keeps the invariant.
proof fn lemma_header_done_inv(t: CatalogState)
    requires
        t.phase is Header,
        t.slots == spec_slots(t.entries, t.capacity, t.name_capacity),
        t.count <= MAX_FIELD,
        t.entries.len() < t.count,
        forall|i: int| 0 <= i < t.entries.len() ==> (#[trigger] t.entries[i]).name.len() <= MAX_FIELD,
        t.field.len() == ENTRY_HEADER_LEN,
        t.consumed == spec_u16_to_be(t.count as u16) + spec_encode_entries(t.entries) + t.field,
    ensures
        spec_inv(spec_field_done(t).0),
{
    lemma_be_round_trip(t.field[0], t.field[1]);
    lemma_be_round_trip(t.field[2], t.field[3]);
    let id = spec_u16_from_be(t.field[0], t.field[1]);
    let name_len = spec_u16_from_be(t.field[2], t.field[3]);
    assert(t.field =~= seq![t.field[0], t.field[1]] + seq![t.field[2], t.field[3]]);
    let u = CatalogState { id, name_len: name_len as nat, field: Seq::empty(), ..t };
    assert(u.consumed =~= spec_u16_to_be(u.count as u16) + spec_encode_entries(u.entries)
        + spec_u16_to_be(u.id) + spec_u16_to_be(u.name_len as u16) + Seq::<u8>::empty());
    if name_len == 0 {
        lemma_entry_done_inv(u, Seq::empty());
    } else {
        let after = spec_field_done(t).0;
        assert(after.consumed =~= spec_before_field(after) + after.field);
    }
}

/// Taking bytes into the field in progress keeps the invariant.
proof fn lemma_received_inv(s: CatalogState, chunk: Seq<u8>)
    requires
        spec_inv(s),
        s.phase is Count || s.phase is Header || s.phase is Name,
        0 < chunk.len() <= spec_want(s) - s.field.len(),
    ensures
        spec_inv(spec_received(s, chunk).0),
{
    let t = CatalogState {
        session: spec_progress(s.session),
        field: s.field + chunk,
        consumed: s.consumed + chunk,
        ..s
    };
    assert(t.consumed =~= spec_before_field(s) + t.field);
    if chunk.len() == spec_want(s) - s.field.len() {
        match s.phase {
            CatalogPhase::Count => {
                assert(t.consumed =~= t.field);
                lemma_count_done_inv(t);
            },
            CatalogPhase::Header => {
                lemma_header_done_inv(t);
            },
            _ => {
                assert(t.consumed =~= spec_u16_to_be(t.count as u16) + spec_encode_entries(
                    t.entries,
                ) + spec_u16_to_be(t.id) + spec_u16_to_be(t.name_len as u16) + t.field);
                lemma_entry_done_inv(t, t.field);
            },
        }
    }
}

/// Every step keeps the invariant.
pub proof fn lemma_step_inv(s: CatalogState, event: TransportEvent)
    requires
        spec_inv(s),
    ensures
        spec_inv(spec_step(s, event).0),
{
    match s.phase {
        CatalogPhase::Done | CatalogPhase::Failed(_) => {},
        CatalogPhase::Sending => {
            assert(s.consumed =~= s.field);
        },
        _ => {
            match event {
                TransportEvent::Received(bytes) => {
                    if 0 < bytes@.len() <= spec_want(s) - s.field.len() {
                        lemma_received_inv(s, bytes@);
                    }
                },
                _ => {},
            }
        },
    }
}

/// Every read the exchange asks for is for at least one byte and at most a
/// 16-bit length's worth, after a delay within the policy's ceiling.
pub proof fn lemma_reads_are_bounded(s: CatalogState, event: TransportEvent)
    requires
        spec_inv(s),
    ensures
        match spec_step(s, event).1 {
            FetchAction::Read { len, delay_ms } => 1 <= len <= MAX_FIELD && delay_ms
                <= s.session.policy.max_delay_ms,
            FetchAction::Send(_) => false,
            FetchAction::Finished => true,
        },
{
    let idle = spec_idle(s.session);
    if idle.idle > 0 {
        lemma_backoff_bounded(idle.policy, (idle.idle - 1) as nat);
    }
}

/// When an exchange is done, what it took from the stream is exactly one
/// catalog response: the wire form of the entries it read, as many as the
/// response declared. Slot `i` holds entry `i` wherever there is such a slot
/// and the entry's name fits, and nothing else is stored.
pub proof fn lemma_done_consumed_whole_response(s: CatalogState)
    requires
        spec_inv(s),
        s.phase == CatalogPhase::Done,
    ensures
        s.entries.len() == s.count,
        s.consumed == spec_encode_catalog(s.entries),
        s.slots == spec_slots(s.entries, s.capacity, s.name_capacity),
        spec_occupied(s.slots) <= s.count,
        spec_occupied(s.slots) <= s.capacity,
{
    lemma_occupied_prefix(s.slots, s.count);
}

/// When every name fits, a finished exchange has stored the first
/// `min(count, capacity)` entries and no others.
pub proof fn lemma_done_stored_count(s: CatalogState)
    requires
        spec_inv(s),
        s.phase == CatalogPhase::Done,
        forall|i: int| 0 <= i < s.entries.len() ==> spec_name_fits(s.entries[i].name, s.name_capacity),
    ensures
        spec_occupied(s.slots) == (if s.count <= s.capacity {
            s.count
        } else {
            s.capacity
        }),
{
    lemma_occupied_full(s.slots, s.entries.len());
}

/// Slots that are occupied exactly below `bound` number `min(bound, len)`.
pub proof fn lemma_occupied_full(slots: Seq<Option<Entry>>, bound: nat)
    requires
        forall|i: int| 0 <= i < slots.len() ==> (slots[i] is Some <==> i < bound),
    ensures
        spec_occupied(slots) == (if bound <= slots.len() {
            bound
        } else {
            slots.len()
        }),
    decreases slots.len(),
{
    if slots.len() > 0 {
        lemma_occupied_full(slots.drop_last(), bound);
    }
}

/// The exchange after a read that returned `chunk`, whatever phase it is in:
/// what [`spec_step`] gives for a `Received` event.
pub open spec fn spec_on_chunk(s: CatalogState, chunk: Seq<u8>) -> (CatalogState, FetchAction) {
    match s.phase {
        CatalogPhase::Done | CatalogPhase::Failed(_) => (s, FetchAction::Finished),
        CatalogPhase::Sending => spec_fail(s, TransferError::Protocol),
        _ => spec_received(s, chunk),
    }
}

/// The exchange after a run of reads that returned `chunks`, one after the
/// other.
pub open spec fn spec_feed(s: CatalogState, chunks: Seq<Seq<u8>>) -> CatalogState
    decreases chunks.len(),
{
    if chunks.len() == 0 {
        s
    } else {
        spec_on_chunk(spec_feed(s, chunks.drop_last()), chunks.last()).0
    }
}

/// Whether each of `chunks` brings something, and no more than the exchange
/// lacked for the field in progress when the chunk arrived.
pub open spec fn spec_fed_as_asked(s: CatalogState, chunks: Seq<Seq<u8>>) -> bool
    decreases chunks.len(),
{
    if chunks.len() == 0 {
        true
    } else {
        let before = spec_feed(s, chunks.drop_last());
        &&& spec_fed_as_asked(s, chunks.drop_last())
        &&& 0 < chunks.last().len() <= spec_want(before) - before.field.len()
    }
}

/// The exchange after `n` reads in a row that returned nothing.
pub open spec fn spec_silence(s: CatalogState, n: nat) -> CatalogState
    decreases n,
{
    if n == 0 {
        s
    } else {
        spec_on_chunk(spec_silence(s, (n - 1) as nat), Seq::empty()).0
    }
}

/// A silent peer is given up on. While a field is awaited, reads that return
/// nothing only count up, and the one that brings the count of empty reads
/// in a row to the policy's limit ends the exchange with `Timeout`.
pub proof fn lemma_silence_times_out(s: CatalogState, n: nat)
    requires
        s.phase is Count || s.phase is Header || s.phase is Name,
    ensures
        s.session.idle + n < s.session.policy.max_attempts ==> spec_silence(s, n) == (CatalogState {
            session: SessionModel { idle: s.session.idle + n, ..s.session },
            ..s
        }),
        n > 0 && s.session.idle + n >= s.session.policy.max_attempts ==> spec_silence(s, n).phase
            == CatalogPhase::Failed(TransferError::Timeout),
    decreases n,
{
    if n > 0 {
        lemma_silence_times_out(s, (n - 1) as nat);
    }
}

/// A `Received` event is a read that returned the event's bytes.
pub proof fn lemma_step_on_chunk(s: CatalogState, bytes: &[u8])
    ensures
        spec_step(s, TransportEvent::Received(bytes)) == spec_on_chunk(s, bytes@),
{
}

/// A read that brings what was asked for keeps the exchange on course, and
/// what it has consumed grows by the chunk.
proof fn lemma_received_on_course(s: CatalogState, chunk: Seq<u8>)
    requires
        s.phase is Count || s.phase is Header || s.phase is Name,
        0 < chunk.len() <= spec_want(s) - s.field.len(),
    ensures
        !(spec_received(s, chunk).0.phase is Failed),
        !(spec_received(s, chunk).0.phase is Sending),
        spec_received(s, chunk).0.consumed == s.consumed + chunk,
        spec_received(s, chunk).0.capacity == s.capacity,
        spec_received(s, chunk).0.name_capacity == s.name_capacity,
{
}

/// Reads that bring what was asked for never fail the exchange: it stays on
/// course, and what it has consumed grows by every chunk.
proof fn lemma_feed_consumes(s: CatalogState, chunks: Seq<Seq<u8>>)
    requires
        spec_inv(s),
        s.phase is Count || s.phase is Header || s.phase is Name,
        spec_fed_as_asked(s, chunks),
    ensures
        spec_inv(spec_feed(s, chunks)),
        !(spec_feed(s, chunks).phase is Failed),
        !(spec_feed(s, chunks).phase is Sending),
        spec_feed(s, chunks).consumed == s.consumed + spec_joined(chunks),
        spec_feed(s, chunks).capacity == s.capacity,
        spec_feed(s, chunks).name_capacity == s.name_capacity,
    decreases chunks.len(),
{
    if chunks.len() == 0 {
        assert(s.consumed + spec_joined(chunks) =~= s.consumed);
    } else {
        let earlier = chunks.drop_last();
        let last = chunks.last();
        lemma_feed_consumes(s, earlier);
        let mid = spec_feed(s, earlier);
        assert(mid.phase is Count || mid.phase is Header || mid.phase is Name);
        assert(spec_feed(s, chunks) == spec_received(mid, last).0);
        lemma_received_inv(mid, last);
        lemma_received_on_course(mid, last);
        assert(s.consumed + spec_joined(earlier) + last =~= s.consumed + spec_joined(chunks));
    }
}

/// A catalog response can be read in one way only: an exchange that is on
/// course and has consumed exactly the wire form of `sent` is done, and has
/// read `sent`.
proof fn lemma_consumed_response_is_read(s: CatalogState, sent: Seq<Entry>)
    requires
        spec_inv(s),
        !(s.phase is Failed),
        !(s.phase is Sending),
        sent.len() <= MAX_FIELD,
        forall|i: int| 0 <= i < sent.len() ==> sent[i].name.len() <= MAX_FIELD,
        s.consumed == spec_encode_catalog(sent),
    ensures
        s.phase == CatalogPhase::Done,
        s.entries == sent,
        s.count == sent.len(),
{
    let whole = spec_encode_catalog(sent);
    assert(spec_u16_to_be(sent.len() as u16).len() == 2);
    assert(whole.len() >= 2);
    if s.phase is Count {
        assert(false);
    } else {
        let tail = if s.phase is Header {
            s.field
        } else if s.phase is Name {
            spec_u16_to_be(s.id) + spec_u16_to_be(s.name_len as u16) + s.field
        } else {
            Seq::<u8>::empty()
        };
        assert(spec_u16_to_be(s.count as u16).len() == 2);
        assert(s.consumed =~= spec_u16_to_be(s.count as u16) + (spec_encode_entries(s.entries)
            + tail));
        lemma_u16_round_trip(s.count as u16);
        lemma_u16_round_trip(sent.len() as u16);
        assert(s.consumed[0] == spec_u16_to_be(s.count as u16)[0]);
        assert(s.consumed[1] == spec_u16_to_be(s.count as u16)[1]);
        assert(whole[0] == spec_u16_to_be(sent.len() as u16)[0]);
        assert(whole[1] == spec_u16_to_be(sent.len() as u16)[1]);
        assert(s.count == sent.len());
        assert(spec_encode_entries(s.entries) + tail =~= s.consumed.subrange(
            2,
            s.consumed.len() as int,
        ));
        assert(spec_encode_entries(sent) =~= whole.subrange(2, whole.len() as int));
        lemma_entries_determined(s.entries, tail, sent);
        let rest = sent.skip(s.entries.len() as int);
        if s.phase is Done {
            assert(sent.take(sent.len() as int) =~= sent);
        } else {
            assert(rest.len() > 0);
            lemma_encode_entries_len(rest);
            if s.phase is Name {
                lemma_encode_entries_front(rest[0], rest.drop_first());
                assert(rest =~= seq![rest[0]] + rest.drop_first());
                lemma_u16_round_trip(s.name_len as u16);
                lemma_u16_round_trip(rest[0].name.len() as u16);
                let wire = spec_encode_entries(rest);
                assert(tail[2] == spec_u16_to_be(s.name_len as u16)[0]);
                assert(tail[3] == spec_u16_to_be(s.name_len as u16)[1]);
                assert(wire[2] == spec_u16_to_be(rest[0].name.len() as u16)[0]);
                assert(wire[3] == spec_u16_to_be(rest[0].name.len() as u16)[1]);
                assert(s.name_len == rest[0].name.len());
                assert(tail.len() == 4 + s.field.len());
            }
            assert(false);
        }
    }
}

/// A well-formed response is fetched. Take an exchange that has sent its
/// request and is about to read the count, and let the reads that follow
/// bring, in any pieces, each no longer than what was asked for, exactly the
/// wire form of the entries `sent`. Then the exchange ends done, having
/// consumed the whole response and nothing more: it has read every entry,
/// and slot `i` holds entry `i` wherever there is such a slot and the entry's
/// name fits.
pub proof fn lemma_response_is_fetched(s: CatalogState, sent: Seq<Entry>, chunks: Seq<Seq<u8>>)
    requires
        spec_inv(s),
        s.phase == CatalogPhase::Count,
        s.field.len() == 0,
        sent.len() <= MAX_FIELD,
        forall|i: int| 0 <= i < sent.len() ==> sent[i].name.len() <= MAX_FIELD,
        spec_joined(chunks) == spec_encode_catalog(sent),
        spec_fed_as_asked(s, chunks),
    ensures
        spec_feed(s, chunks).phase == CatalogPhase::Done,
        spec_feed(s, chunks).entries == sent,
        spec_feed(s, chunks).count == sent.len(),
        spec_feed(s, chunks).consumed == spec_encode_catalog(sent),
        spec_feed(s, chunks).slots == spec_slots(sent, s.capacity, s.name_capacity),
{
    lemma_feed_consumes(s, chunks);
    assert(s.consumed + spec_joined(chunks) =~= spec_joined(chunks));
    lemma_consumed_response_is_read(spec_feed(s, chunks), sent);
}

/// A catalog exchange in progress, for a catalog of `R` slots with names of
/// at most `N` bytes. It holds the session for as long as the exchange lasts.
pub struct CatalogFetcher<const R: usize, const N: usize> {
    session: TransferSession,
    phase: CatalogPhase,
    catalog: ResourceCatalog<R, N>,
    index: u16,
    id: u16,
    name_len: u16,
    head: [u8; 4],
    scratch: [u8; N],
    have: usize,
    entries: Ghost<Seq<Entry>>,
    field: Ghost<Seq<u8>>,
    consumed: Ghost<Seq<u8>>,
}

impl<const R: usize, const N: usize> View for CatalogFetcher<R, N> {
    type V = CatalogState;

    closed spec fn view(&self) -> CatalogState {
        CatalogState {
            phase: self.phase,
            session: self.session@,
            capacity: R as nat,
            name_capacity: N as nat,
            count: self.catalog.reported as nat,
            entries: self.entries@,
            id: self.id,
            name_len: self.name_len as nat,
            field: self.field@,
            slots: self.catalog@,
            consumed: self.consumed@,
        }
    }
}

impl<const R: usize, const N: usize> CatalogFetcher<R, N> {
    /// Whether the name being read is kept: the entry has a slot and the
    /// name's declared length fits the scratch buffer.
    spec fn keeping(&self) -> bool {
        self.index < R && self.name_len <= N
    }

    /// The stored fields agree with the state they stand for.
    spec fn repr(&self) -> bool {
        &&& self.session.wf()
        &&& forall|i: int|
            0 <= i < R ==> (#[trigger] self.catalog.slots@[i]) is Some
                ==> self.catalog.slots@[i]->0.wf()
        &&& self.catalog@ == spec_slots(self.entries@, R as nat, N as nat)
        &&& self.index == self.entries@.len()
        &&& self.index <= self.catalog.reported
        &&& self.have == self.field@.len()
        &&& match self.phase {
            CatalogPhase::Count | CatalogPhase::Header => self.have <= spec_want(self@)
                && forall|i: int| 0 <= i < self.have ==> self.head@[i] == self.field@[i],
            CatalogPhase::Name => self.have <= self.name_len && self.index
                < self.catalog.reported && (self.keeping() ==> forall|i: int|
                0 <= i < self.have ==> self.scratch@[i] == self.field@[i]),
            _ => true,
        }
    }

    /// The invariant of a fetcher: its fields agree with its state, and the
    /// state is one an exchange can reach.
    pub closed spec fn wf(&self) -> bool {
        self.repr() && spec_inv(self@)
    }

    /// The state of a well-formed fetcher satisfies the exchange's invariant,
    /// and its capacities are those of its type.
    pub proof fn lemma_wf_inv(&self)
        requires
            self.wf(),
        ensures
            spec_inv(self@),
            self@.capacity == R,
            self@.name_capacity == N,
    {
    }

    /// Begins an exchange on `session`. The action returned is the request
    /// to send.
    pub fn start(session: TransferSession) -> (begun: (Self, FetchAction))
        requires
            session.wf(),
        ensures
            begun.0.wf(),
            begun.0@ == spec_start(session@, R as nat, N as nat),
            begun.1 matches FetchAction::Send(frame) && frame@ == spec_catalog_request(),
    {
        let mut session = session;
        session.note_progress();
        let fetcher = CatalogFetcher {
            session,
            phase: CatalogPhase::Sending,
            catalog: ResourceCatalog::new(),
            index: 0,
            id: 0,
            name_len: 0,
            head: [0u8; 4],
            scratch: [0u8; N],
            have: 0,
            entries: Ghost(Seq::empty()),
            field: Ghost(Seq::empty()),
            consumed: Ghost(Seq::empty()),
        };
        assert(fetcher.catalog@ =~= spec_slots(Seq::empty(), R as nat, N as nat));
        (fetcher, FetchAction::Send(catalog_request()))
    }

    /// Where the exchange stands.
    pub fn phase(&self) -> (phase: CatalogPhase)
        ensures
            phase == self@.phase,
    {
        self.phase
    }

    /// The outcome of the exchange: nothing while it is in progress, the
    /// catalog once it is done, the error once it has failed.
    pub fn outcome(&self) -> (outcome: Option<Result<ResourceCatalog<R, N>, TransferError>>)
        requires
            self.wf(),
        ensures
            match self@.phase {
                CatalogPhase::Done => outcome matches Some(Ok(catalog)) && catalog.wf() && catalog@
                    == self@.slots && catalog.spec_reported() == self@.count,
                CatalogPhase::Failed(error) => outcome == Some(
                    Err::<ResourceCatalog<R, N>, TransferError>(error),
                ),
                _ => outcome is None,
            },
    {
        match self.phase {
            CatalogPhase::Done => {
                proof {
                    assert forall|i: int| self.catalog.reported <= i < R implies (
                    #[trigger] self.catalog.slots@[i]) is None by {
                        assert(self.catalog@[i] == spec_slot(self.entries@, N as nat, i));
                    }
                }
                Some(Ok(self.catalog))
            },
            CatalogPhase::Failed(error) => Some(Err(error)),
            _ => None,
        }
    }

    /// Ends the exchange, finished or not, and gives the session back.
    pub fn into_session(self) -> (session: TransferSession)
        requires
            self.wf(),
        ensures
            session.wf(),
            session@ == self@.session,
    {
        self.session
    }

    /// Gives the exchange up with `error`.
    fn fail(&mut self, error: TransferError) -> (action: FetchAction)
        requires
            old(self).repr(),
        ensures
            final(self).repr(),
            (final(self)@, action) == spec_fail(old(self)@, error),
    {
        self.phase = CatalogPhase::Failed(error);
        FetchAction::Finished
    }

    /// Takes `chunk` into the field in progress.
    fn take(&mut self, chunk: &[u8])
        requires
            old(self).repr(),
            old(self).phase is Count || old(self).phase is Header || old(self).phase is Name,
            0 < chunk@.len() <= spec_want(old(self)@) - old(self).field@.len(),
        ensures
            final(self).repr(),
            final(self)@ == (CatalogState {
                session: spec_progress(old(self)@.session),
                field: old(self)@.field + chunk@,
                consumed: old(self)@.consumed + chunk@,
                ..old(self)@
            }),
    {
        let keep_name: bool = (self.index as usize) < R && (self.name_len as usize) <= N;
        let in_head: bool = match self.phase {
            CatalogPhase::Name => false,
            _ => true,
        };
        let base: usize = self.have;
        let ghost before = self.field@;
        let mut k: usize = 0;
        while k < chunk.len()
            invariant
                k <= chunk@.len(),
                base + chunk@.len() <= spec_want(old(self)@),
                in_head ==> base + chunk@.len() <= 4,
                !in_head && keep_name ==> base + chunk@.len() <= N,
                self.session == old(self).session,
                self.phase == old(self).phase,
                self.catalog == old(self).catalog,
                self.index == old(self).index,
                self.id == old(self).id,
                self.name_len == old(self).name_len,
                self.have == base,
                self.entries == old(self).entries,
                self.field == old(self).field,
                self.consumed == old(self).consumed,
                before == self.field@,
                base == before.len(),
                in_head ==> forall|i: int| 0 <= i < base ==> self.head@[i] == before[i],
                in_head ==> forall|i: int| 0 <= i < k ==> self.head@[base + i] == chunk@[i],
                !in_head && keep_name ==> forall|i: int|
                    0 <= i < base ==> self.scratch@[i] == before[i],
                !in_head && keep_name ==> forall|i: int|
                    0 <= i < k ==> self.scratch@[base + i] == chunk@[i],
            decreases chunk@.len() - k,
        {
            if in_head {
                self.head[base + k] = chunk[k];
            } else if keep_name {
                self.scratch[base + k] = chunk[k];
            }
            k = k + 1;
        }
        self.have = base + chunk.len();
        self.session.note_progress();
        self.field = Ghost(before + chunk@);
        self.consumed = Ghost(self.consumed@ + chunk@);
    }

    /// Closes the entry in progress, whose name was `name`.
    fn entry_done(&mut self, Ghost(name): Ghost<Seq<u8>>) -> (action: FetchAction)
        requires
            old(self).repr(),
            old(self).index < old(self).catalog.reported,
            name.len() == old(self).name_len,
            old(self).keeping() ==> forall|i: int|
                0 <= i < old(self).name_len ==> old(self).scratch@[i] == name[i],
        ensures
            final(self).repr(),
            (final(self)@, action) == spec_entry_done(old(self)@, name),
    {
        let ghost entry = Entry { id: self.id, name };
        let ghost entries = self.entries@.push(entry);
        let slot: usize = self.index as usize;
        let len: usize = self.name_len as usize;
        let mut stored: bool = false;
        if slot < R && len <= N {
            let bytes: &[u8] = slice_subrange(self.scratch.as_slice(), 0, len);
            assert(bytes@ =~= name);
            match ResourceDescriptor::<N>::from_bytes(self.id, bytes) {
                Ok(made) => {
                    self.catalog.slots[slot] = Some(made);
                    stored = true;
                },
                Err(_) => {},
            }
        }
        proof {
            assert(stored <==> (slot < R && spec_name_fits(name, N as nat)));
            assert forall|i: int| 0 <= i < R implies (#[trigger] self.catalog@[i]) == spec_slot(
                entries,
                N as nat,
                i,
            ) by {
                assert(old(self).catalog@[i] == spec_slot(old(self).entries@, N as nat, i));
                if i == slot {
                } else {
                    assert(self.catalog.slots@[i] == old(self).catalog.slots@[i]);
                }
            }
            assert(self.catalog@ =~= spec_slots(entries, R as nat, N as nat));
        }
        self.entries = Ghost(entries);
        self.field = Ghost(Seq::empty());
        self.have = 0;
        self.index = self.index + 1;
        if self.index >= self.catalog.reported {
            self.phase = CatalogPhase::Done;
            FetchAction::Finished
        } else {
            self.phase = CatalogPhase::Header;
            FetchAction::Read { len: ENTRY_HEADER_LEN, delay_ms: 0 }
        }
    }

    /// Acts on the field in progress, now complete.
    fn field_done(&mut self) -> (action: FetchAction)
        requires
            old(self).repr(),
            old(self).phase is Count || old(self).phase is Header || old(self).phase is Name,
            old(self).field@.len() == spec_want(old(self)@),
            old(self).phase is Count ==> old(self).index == 0 && old(self).catalog.reported == 0,
            old(self).phase is Header ==> old(self).index < old(self).catalog.reported,
        ensures
            final(self).repr(),
            (final(self)@, action) == spec_field_done(old(self)@),
    {
        match self.phase {
            CatalogPhase::Count => {
                let count: u16 = u16_from_be(self.head[0], self.head[1]);
                self.catalog.reported = count;
                self.field = Ghost(Seq::empty());
                self.have = 0;
                proof {
                    assert(self.catalog@ =~= old(self).catalog@);
                }
                if count == 0 {
                    self.phase = CatalogPhase::Done;
                    FetchAction::Finished
                } else {
                    self.phase = CatalogPhase::Header;
                    FetchAction::Read { len: ENTRY_HEADER_LEN, delay_ms: 0 }
                }
            },
            CatalogPhase::Header => {
                let id: u16 = u16_from_be(self.head[0], self.head[1]);
                let name_len: u16 = u16_from_be(self.head[2], self.head[3]);
                self.id = id;
                self.name_len = name_len;
                self.field = Ghost(Seq::empty());
                self.have = 0;
                if name_len == 0 {
                    self.entry_done(Ghost(Seq::empty()))
                } else {
                    self.phase = CatalogPhase::Name;
                    FetchAction::Read { len: name_len as usize, delay_ms: 0 }
                }
            },
            _ => {
                let ghost name = self.field@;
                self.entry_done(Ghost(name))
            },
        }
    }

    /// Acts on a read that returned `chunk`.
    fn received(&mut self, chunk: &[u8]) -> (action: FetchAction)
        requires
            old(self).wf(),
            old(self).phase is Count || old(self).phase is Header || old(self).phase is Name,
        ensures
            final(self).repr(),
            (final(self)@, action) == spec_received(old(self)@, chunk@),
    {
        let want: usize = match self.phase {
            CatalogPhase::Count => 2,
            CatalogPhase::Header => ENTRY_HEADER_LEN,
            _ => self.name_len as usize,
        };
        let missing: usize = want - self.have;
        if chunk.len() == 0 {
            match self.session.note_idle() {
                None => self.fail(TransferError::Timeout),
                Some(delay_ms) => FetchAction::Read { len: missing, delay_ms },
            }
        } else if chunk.len() > missing {
            self.fail(TransferError::Protocol)
        } else {
            self.take(chunk);
            if chunk.len() < missing {
                FetchAction::Read { len: missing - chunk.len(), delay_ms: 0 }
            } else {
                self.field_done()
            }
        }
    }

    /// Advances the exchange by one event and says what to do next.
    pub fn step(&mut self, event: TransportEvent) -> (action: FetchAction)
        requires
            old(self).wf(),
        ensures
            final(self).wf(),
            (final(self)@, action) == spec_step(old(self)@, event),
    {
        proof {
            lemma_step_inv(self@, event);
        }
        match self.phase {
            CatalogPhase::Done => FetchAction::Finished,
            CatalogPhase::Failed(_) => FetchAction::Finished,
            CatalogPhase::Sending => match event {
                TransportEvent::Sent => {
                    self.phase = CatalogPhase::Count;
                    FetchAction::Read { len: 2, delay_ms: 0 }
                },
                TransportEvent::Failed => self.fail(TransferError::Io),
                TransportEvent::Closed => self.fail(TransferError::Truncated),
                TransportEvent::Received(_) => self.fail(TransferError::Protocol),
            },
            _ => match event {
                TransportEvent::Sent => self.fail(TransferError::Protocol),
                TransportEvent::Failed => self.fail(TransferError::Io),
                TransportEvent::Closed => self.fail(TransferError::Truncated),
                TransportEvent::Received(chunk) => self.received(chunk),
            },
        }
    }
}

} // verus!
