//! The fixed binary frames exchanged with the resource server. Every integer
//! on the wire is unsigned and big-endian.
//!
//! | frame             | layout                                            |
//! |-------------------|---------------------------------------------------|
//! | catalog request   | `00 00 00 01`                                     |
//! | resource request  | `id_hi id_lo 00 02`                               |
//! | catalog response  | `count:u16`, then `count` × (`id:u16 len:u16 name`) |
//! | resource response | `size:u16`, then `size` raw bytes                 |

use crate::error::CodecError;
use vstd::prelude::*;
use vstd::slice::slice_subrange;
use vstd::utf8::{decode_utf8, encode_utf8, valid_utf8};

verus! {

/// Command byte of a catalog request.
pub const CMD_LIST: u8 = 0x01;

/// Command byte of a resource request.
pub const CMD_GET: u8 = 0x02;

/// Length of the header that precedes each catalog entry's name.
pub const ENTRY_HEADER_LEN: usize = 4;

/// Largest value a 16-bit length field can declare.
pub const MAX_FIELD: usize = 0xffff;

/// The value of a big-endian 16-bit field whose bytes are `hi` then `lo`.
pub open spec fn spec_u16_from_be(hi: u8, lo: u8) -> u16 {
    (hi as int * 256 + lo as int) as u16
}

/// The two bytes of `value` as a big-endian field.
pub open spec fn spec_u16_to_be(value: u16) -> Seq<u8> {
    seq![(value / 256) as u8, (value % 256) as u8]
}

/// The catalog request frame.
pub open spec fn spec_catalog_request() -> Seq<u8> {
    seq![0u8, 0u8, 0u8, CMD_LIST]
}

/// The resource request frame for `id`.
pub open spec fn spec_resource_request(id: u16) -> Seq<u8> {
    seq![(id / 256) as u8, (id % 256) as u8, 0u8, CMD_GET]
}

/// What a catalog entry says: an identifier and the bytes of a name.
pub struct Entry {
    pub id: u16,
    pub name: Seq<u8>,
}

/// The wire form of one catalog entry.
pub open spec fn spec_encode_entry(e: Entry) -> Seq<u8> {
    spec_u16_to_be(e.id) + spec_u16_to_be(e.name.len() as u16) + e.name
}

/// The wire form of a run of catalog entries, one after the other.
pub open spec fn spec_encode_entries(entries: Seq<Entry>) -> Seq<u8>
    decreases entries.len(),
{
    if entries.len() == 0 {
        Seq::empty()
    } else {
        spec_encode_entries(entries.drop_last()) + spec_encode_entry(entries.last())
    }
}

/// The wire form of a catalog response.
pub open spec fn spec_encode_catalog(entries: Seq<Entry>) -> Seq<u8> {
    spec_u16_to_be(entries.len() as u16) + spec_encode_entries(entries)
}

/// The wire form of a resource response.
pub open spec fn spec_encode_resource(payload: Seq<u8>) -> Seq<u8> {
    spec_u16_to_be(payload.len() as u16) + payload
}

/// Whether a name of these bytes fits a descriptor with room for `capacity`
/// bytes: short enough for the buffer and for a 16-bit length, and UTF-8.
pub open spec fn spec_name_fits(name: Seq<u8>, capacity: nat) -> bool {
    name.len() <= capacity && name.len() <= MAX_FIELD && valid_utf8(name)
}

/// What decoding the entry at the start of `frame` yields, with room for
/// `capacity` name bytes: the entry and the number of bytes it occupies.
///
/// An over-long declared length is reported before the frame is examined any
/// further, so that nothing is ever read past a destination buffer.
pub open spec fn spec_decode_entry(frame: Seq<u8>, capacity: nat) -> Result<(Entry, nat), CodecError> {
    if frame.len() < ENTRY_HEADER_LEN {
        Err(CodecError::Incomplete)
    } else {
        let id = spec_u16_from_be(frame[0], frame[1]);
        let len = spec_u16_from_be(frame[2], frame[3]) as nat;
        if len > capacity {
            Err(CodecError::FrameTooLarge)
        } else if frame.len() < ENTRY_HEADER_LEN + len {
            Err(CodecError::Incomplete)
        } else {
            let name = frame.subrange(ENTRY_HEADER_LEN as int, ENTRY_HEADER_LEN + len as int);
            if valid_utf8(name) {
                Ok((Entry { id, name }, (ENTRY_HEADER_LEN + len) as nat))
            } else {
                Err(CodecError::InvalidEncoding)
            }
        }
    }
}

/// What decoding a resource response at the start of `frame` yields for a
/// destination with room for `capacity` bytes: the payload.
pub open spec fn spec_decode_resource(frame: Seq<u8>, capacity: nat) -> Result<Seq<u8>, CodecError> {
    if frame.len() < 2 {
        Err(CodecError::Incomplete)
    } else {
        let size = spec_u16_from_be(frame[0], frame[1]) as nat;
        if size > capacity {
            Err(CodecError::FrameTooLarge)
        } else if frame.len() < 2 + size {
            Err(CodecError::Incomplete)
        } else {
            Ok(frame.subrange(2, 2 + size as int))
        }
    }
}

/// Decodes a big-endian 16-bit field.
pub fn u16_from_be(hi: u8, lo: u8) -> (value: u16)
    ensures
        value == spec_u16_from_be(hi, lo),
        value as int == hi as int * 256 + lo as int,
{
    let wide: u16 = hi as u16;
    wide * 256 + lo as u16
}

/// Encodes a 16-bit field big-endian.
pub fn u16_to_be(value: u16) -> (bytes: [u8; 2])
    ensures
        bytes@ == spec_u16_to_be(value),
        spec_u16_from_be(bytes@[0], bytes@[1]) == value,
{
    let bytes: [u8; 2] = [(value / 256) as u8, (value % 256) as u8];
    assert(bytes@ =~= spec_u16_to_be(value));
    bytes
}

/// Builds the frame that asks the server for its catalog.
pub fn catalog_request() -> (frame: [u8; 4])
    ensures
        frame@ == spec_catalog_request(),
{
    let frame: [u8; 4] = [0, 0, 0, CMD_LIST];
    assert(frame@ =~= spec_catalog_request());
    frame
}

/// Builds the frame that asks the server for the resource `id`.
pub fn resource_request(id: u16) -> (frame: [u8; 4])
    ensures
        frame@ == spec_resource_request(id),
{
    let frame: [u8; 4] = [(id / 256) as u8, (id % 256) as u8, 0, CMD_GET];
    assert(frame@ =~= spec_resource_request(id));
    frame
}

/// `core::str::from_utf8`, with the error dropped. It accepts exactly the
/// well-formed UTF-8 byte strings, and the string it returns is the one those
/// bytes encode.
#[verifier::external_body]
fn str_from_utf8(bytes: &[u8]) -> (text: Option<&str>)
    ensures
        text is Some <==> valid_utf8(bytes@),
        text is Some ==> text->0@ == decode_utf8(bytes@),
{
    core::str::from_utf8(bytes).ok()
}

/// A catalog entry held in fixed storage: an identifier and a UTF-8 name of
/// at most `N` bytes.
#[derive(Clone, Copy, Debug, PartialEq, Eq)]
pub struct ResourceDescriptor<const N: usize> {
    id: u16,
    name: [u8; N],
    name_len: usize,
}

impl<const N: usize> View for ResourceDescriptor<N> {
    type V = Entry;

    open spec fn view(&self) -> Entry {
        Entry { id: self.spec_id(), name: self.spec_name() }
    }
}

impl<const N: usize> ResourceDescriptor<N> {
    /// The identifier.
    pub closed spec fn spec_id(&self) -> u16 {
        self.id
    }

    /// The bytes of the name.
    pub closed spec fn spec_name(&self) -> Seq<u8> {
        self.name@.subrange(0, self.name_len as int)
    }

    /// The storage invariant: the name fits, is UTF-8, and the unused tail of
    /// the buffer is zero.
    pub closed spec fn wf(&self) -> bool {
        &&& self.name_len <= N
        &&& self.name_len <= MAX_FIELD
        &&& valid_utf8(self.name@.subrange(0, self.name_len as int))
        &&& forall|i: int| self.name_len <= i < N ==> self.name@[i] == 0u8
    }

    /// A well-formed descriptor's name fits its capacity.
    pub proof fn lemma_wf_fits(&self)
        requires
            self.wf(),
        ensures
            spec_name_fits(self@.name, N as nat),
    {
    }

    /// Round trip: the wire form of a well-formed descriptor decodes, with
    /// room for `N` name bytes, to what the descriptor says, and takes up the
    /// whole of the wire form.
    pub proof fn lemma_round_trip(&self)
        requires
            self.wf(),
        ensures
            spec_decode_entry(spec_encode_entry(self@), N as nat) == Ok::<(Entry, nat), CodecError>(
                (self@, spec_encode_entry(self@).len()),
            ),
    {
        self.lemma_wf_fits();
        lemma_entry_round_trip(self@, N as nat, Seq::empty());
        assert(spec_encode_entry(self@) + Seq::<u8>::empty() =~= spec_encode_entry(self@));
    }

    /// Two well-formed descriptors that say the same are the same value.
    pub proof fn lemma_view_injective(&self, other: &Self)
        requires
            self.wf(),
            other.wf(),
            self@ == other@,
        ensures
            *self == *other,
    {
        let a = self.name@.subrange(0, self.name_len as int);
        let b = other.name@.subrange(0, other.name_len as int);
        assert(a.len() == self.name_len);
        assert(b.len() == other.name_len);
        assert forall|i: int| 0 <= i < N implies self.name@[i] == other.name@[i] by {
            if i < self.name_len {
                assert(a[i] == self.name@[i]);
                assert(b[i] == other.name@[i]);
            }
        }
        assert(self.name =~= other.name);
    }

    /// Builds a descriptor from an identifier and the raw bytes of a name.
    ///
    /// Fails with `FrameTooLarge` when the name does not fit in `N` bytes (or
    /// in a 16-bit length), and with `InvalidEncoding` when it fits but is not
    /// UTF-8.
    pub fn from_bytes(id: u16, name: &[u8]) -> (made: Result<Self, CodecError>)
        ensures
            made is Ok <==> spec_name_fits(name@, N as nat),
            made is Ok ==> made->Ok_0.wf() && made->Ok_0@ == (Entry { id, name: name@ }),
            made is Err ==> made->Err_0 == (if name@.len() > N || name@.len() > MAX_FIELD {
                CodecError::FrameTooLarge
            } else {
                CodecError::InvalidEncoding
            }),
    {
        if name.len() > N || name.len() > MAX_FIELD {
            return Err(CodecError::FrameTooLarge);
        }
        if str_from_utf8(name).is_none() {
            return Err(CodecError::InvalidEncoding);
        }
        let mut stored: [u8; N] = [0u8; N];
        let mut k: usize = 0;
        while k < name.len()
            invariant
                k <= name@.len() <= N,
                forall|i: int| 0 <= i < k ==> stored@[i] == name@[i],
                forall|i: int| k <= i < N ==> stored@[i] == 0u8,
            decreases name@.len() - k,
        {
            stored[k] = name[k];
            k += 1;
        }
        let made = ResourceDescriptor { id, name: stored, name_len: name.len() };
        assert(made.name@.subrange(0, made.name_len as int) =~= name@);
        Ok(made)
    }

    /// Builds a descriptor from an identifier and a name.
    ///
    /// Returns `None` exactly when the name's UTF-8 form is longer than `N`
    /// bytes or than a 16-bit length can declare.
    pub fn new(id: u16, name: &str) -> (made: Option<Self>)
        ensures
            made is Some <==> encode_utf8(name@).len() <= N && encode_utf8(name@).len() <= MAX_FIELD,
            made is Some ==> made->0.wf() && made->0@ == (Entry { id, name: encode_utf8(name@) }),
    {
        proof {
            vstd::utf8::encode_utf8_valid_utf8(name@);
        }
        match Self::from_bytes(id, name.as_bytes()) {
            Ok(made) => Some(made),
            Err(_) => None,
        }
    }

    /// The identifier.
    pub fn id(&self) -> (id: u16)
        ensures
            id == self@.id,
    {
        self.id
    }

    /// The length of the name in bytes.
    pub fn name_len(&self) -> (len: usize)
        requires
            self.wf(),
        ensures
            len == self@.name.len(),
            len <= N,
    {
        self.name_len
    }

    /// The name as bytes.
    pub fn name_bytes(&self) -> (bytes: &[u8])
        requires
            self.wf(),
        ensures
            bytes@ == self@.name,
    {
        slice_subrange(self.name.as_slice(), 0, self.name_len)
    }

    /// The name as text.
    pub fn name(&self) -> (text: &str)
        requires
            self.wf(),
        ensures
            text@ == decode_utf8(self@.name),
    {
        match str_from_utf8(self.name_bytes()) {
            Some(text) => text,
            None => {
                proof {
                    assert(false);
                }
                ""
            },
        }
    }

    /// Writes the entry in wire form.
    pub fn encode(&self) -> (frame: Vec<u8>)
        requires
            self.wf(),
        ensures
            frame@ == spec_encode_entry(self@),
    {
        let id: [u8; 2] = u16_to_be(self.id);
        let len: [u8; 2] = u16_to_be(self.name_len as u16);
        let mut frame: Vec<u8> = Vec::new();
        frame.push(id[0]);
        frame.push(id[1]);
        frame.push(len[0]);
        frame.push(len[1]);
        let mut k: usize = 0;
        while k < self.name_len
            invariant
                self.wf(),
                k <= self.name_len <= N,
                frame@.len() == 4 + k,
                frame@.subrange(0, 4) == spec_u16_to_be(self.id) + spec_u16_to_be(
                    self.name_len as u16,
                ),
                forall|i: int| 0 <= i < k ==> frame@[4 + i] == self.name@[i],
            decreases self.name_len - k,
        {
            frame.push(self.name[k]);
            k += 1;
        }
        assert(frame@ =~= spec_encode_entry(self@));
        frame
    }

    /// Decodes the entry at the start of `frame`, returning it together with
    /// the number of bytes it occupies.
    pub fn decode(frame: &[u8]) -> (got: Result<(Self, usize), CodecError>)
        ensures
            got is Ok ==> got->Ok_0.0.wf(),
            match spec_decode_entry(frame@, N as nat) {
                Ok((entry, used)) => got is Ok && got->Ok_0.0@ == entry && got->Ok_0.1 == used,
                Err(e) => got is Err && got->Err_0 == e,
            },
    {
        if frame.len() < ENTRY_HEADER_LEN {
            return Err(CodecError::Incomplete);
        }
        let id: u16 = u16_from_be(frame[0], frame[1]);
        let len: usize = u16_from_be(frame[2], frame[3]) as usize;
        if len > N {
            return Err(CodecError::FrameTooLarge);
        }
        if frame.len() - ENTRY_HEADER_LEN < len {
            return Err(CodecError::Incomplete);
        }
        let name: &[u8] = slice_subrange(frame, ENTRY_HEADER_LEN, ENTRY_HEADER_LEN + len);
        match Self::from_bytes(id, name) {
            Ok(made) => Ok((made, ENTRY_HEADER_LEN + len)),
            Err(e) => Err(e),
        }
    }
}

/// Decoding undoes encoding: an entry whose name fits `capacity` bytes,
/// written in wire form and followed by anything at all, decodes to the same
/// entry and to the length of its wire form.
pub proof fn lemma_entry_round_trip(e: Entry, capacity: nat, rest: Seq<u8>)
    requires
        spec_name_fits(e.name, capacity),
    ensures
        spec_decode_entry(spec_encode_entry(e) + rest, capacity) == Ok::<(Entry, nat), CodecError>(
            (e, spec_encode_entry(e).len()),
        ),
{
    let frame = spec_encode_entry(e) + rest;
    let len = e.name.len();
    lemma_u16_round_trip(e.id);
    lemma_u16_round_trip(len as u16);
    assert(frame[0] == spec_u16_to_be(e.id)[0]);
    assert(frame[1] == spec_u16_to_be(e.id)[1]);
    assert(frame[2] == spec_u16_to_be(len as u16)[0]);
    assert(frame[3] == spec_u16_to_be(len as u16)[1]);
    assert(frame.subrange(ENTRY_HEADER_LEN as int, ENTRY_HEADER_LEN + len as int) =~= e.name);
}

/// The bytes of a run of chunks, joined in order.
pub open spec fn spec_joined(chunks: Seq<Seq<u8>>) -> Seq<u8>
    decreases chunks.len(),
{
    if chunks.len() == 0 {
        Seq::empty()
    } else {
        spec_joined(chunks.drop_last()) + chunks.last()
    }
}

/// The wire form of a run of entries that starts with `first` is the wire
/// form of `first` followed by that of the others.
pub proof fn lemma_encode_entries_front(first: Entry, rest: Seq<Entry>)
    ensures
        spec_encode_entries(seq![first] + rest) == spec_encode_entry(first) + spec_encode_entries(
            rest,
        ),
    decreases rest.len(),
{
    let all = seq![first] + rest;
    if rest.len() == 0 {
        assert(all.drop_last() =~= Seq::<Entry>::empty());
        assert(all.last() == first);
        assert(spec_encode_entries(all.drop_last()) =~= Seq::<u8>::empty());
        assert(spec_encode_entries(rest) =~= Seq::<u8>::empty());
        assert(spec_encode_entries(all) =~= spec_encode_entry(first) + spec_encode_entries(rest));
    } else {
        assert(all.drop_last() =~= seq![first] + rest.drop_last());
        assert(all.last() == rest.last());
        lemma_encode_entries_front(first, rest.drop_last());
        assert(spec_encode_entries(all) =~= spec_encode_entry(first) + spec_encode_entries(rest));
    }
}

/// The wire form of an entry is its four header bytes and its name.
pub proof fn lemma_encode_entry_len(e: Entry)
    ensures
        spec_encode_entry(e).len() == ENTRY_HEADER_LEN + e.name.len(),
{
    assert(spec_u16_to_be(e.id).len() == 2);
    assert(spec_u16_to_be(e.name.len() as u16).len() == 2);
}

/// The wire form of a run of entries is at least as long as the wire form of
/// the first of them.
pub proof fn lemma_encode_entries_len(entries: Seq<Entry>)
    requires
        entries.len() > 0,
    ensures
        spec_encode_entries(entries).len() >= ENTRY_HEADER_LEN + entries[0].name.len(),
{
    let rest = entries.drop_first();
    assert(entries =~= seq![entries[0]] + rest);
    lemma_encode_entries_front(entries[0], rest);
    lemma_encode_entry_len(entries[0]);
}

/// An entry can be read back from the front of a stream in one way only: two
/// streams that agree and each start with an entry start with the same entry
/// and go on alike.
pub proof fn lemma_entry_determined(e1: Entry, after1: Seq<u8>, e2: Entry, after2: Seq<u8>)
    requires
        e1.name.len() <= MAX_FIELD,
        e2.name.len() <= MAX_FIELD,
        spec_encode_entry(e1) + after1 == spec_encode_entry(e2) + after2,
    ensures
        e1 == e2,
        after1 == after2,
{
    let s1 = spec_encode_entry(e1) + after1;
    let s2 = spec_encode_entry(e2) + after2;
    lemma_u16_round_trip(e1.id);
    lemma_u16_round_trip(e2.id);
    lemma_u16_round_trip(e1.name.len() as u16);
    lemma_u16_round_trip(e2.name.len() as u16);
    assert(s1[0] == spec_u16_to_be(e1.id)[0] && s1[1] == spec_u16_to_be(e1.id)[1]);
    assert(s2[0] == spec_u16_to_be(e2.id)[0] && s2[1] == spec_u16_to_be(e2.id)[1]);
    assert(s1[2] == spec_u16_to_be(e1.name.len() as u16)[0]);
    assert(s1[3] == spec_u16_to_be(e1.name.len() as u16)[1]);
    assert(s2[2] == spec_u16_to_be(e2.name.len() as u16)[0]);
    assert(s2[3] == spec_u16_to_be(e2.name.len() as u16)[1]);
    assert(e1.id == e2.id);
    assert(e1.name.len() == e2.name.len());
    let len = e1.name.len() as int;
    assert(e1.name =~= s1.subrange(4, 4 + len));
    assert(e2.name =~= s2.subrange(4, 4 + len));
    assert(after1 =~= s1.subrange(4 + len, s1.len() as int));
    assert(after2 =~= s2.subrange(4 + len, s2.len() as int));
}

/// A run of entries can be read back from the front of a stream in one way
/// only: if the wire form of `read`, followed by `after`, is the wire form of
/// `sent`, and `read` has no more entries than `sent`, then `read` is the
/// front of `sent` and `after` is the wire form of the others.
pub proof fn lemma_entries_determined(read: Seq<Entry>, after: Seq<u8>, sent: Seq<Entry>)
    requires
        read.len() <= sent.len(),
        forall|i: int| 0 <= i < read.len() ==> read[i].name.len() <= MAX_FIELD,
        forall|i: int| 0 <= i < sent.len() ==> sent[i].name.len() <= MAX_FIELD,
        spec_encode_entries(read) + after == spec_encode_entries(sent),
    ensures
        read == sent.take(read.len() as int),
        after == spec_encode_entries(sent.skip(read.len() as int)),
    decreases read.len(),
{
    if read.len() == 0 {
        assert(read =~= sent.take(0));
        assert(sent.skip(0) =~= sent);
        assert(spec_encode_entries(read) + after =~= after);
    } else {
        let r = read.drop_first();
        let s = sent.drop_first();
        assert(read =~= seq![read[0]] + r);
        assert(sent =~= seq![sent[0]] + s);
        lemma_encode_entries_front(read[0], r);
        lemma_encode_entries_front(sent[0], s);
        assert(spec_encode_entry(read[0]) + (spec_encode_entries(r) + after) =~= spec_encode_entry(
            sent[0],
        ) + spec_encode_entries(s));
        lemma_entry_determined(read[0], spec_encode_entries(r) + after, sent[0], spec_encode_entries(s));
        assert forall|i: int| 0 <= i < r.len() implies r[i].name.len() <= MAX_FIELD by {
            assert(r[i] == read[i + 1]);
        }
        assert forall|i: int| 0 <= i < s.len() implies s[i].name.len() <= MAX_FIELD by {
            assert(s[i] == sent[i + 1]);
        }
        lemma_entries_determined(r, after, s);
        assert(read =~= sent.take(read.len() as int)) by {
            assert forall|i: int| 0 <= i < read.len() implies read[i] == sent[i] by {
                if i > 0 {
                    assert(r[i - 1] == s.take(r.len() as int)[i - 1]);
                }
            }
        }
        assert(sent.skip(read.len() as int) =~= s.skip(r.len() as int));
    }
}

/// A 16-bit field survives encoding and decoding.
pub proof fn lemma_u16_round_trip(value: u16)
    ensures
        spec_u16_to_be(value).len() == 2,
        spec_u16_from_be(spec_u16_to_be(value)[0], spec_u16_to_be(value)[1]) == value,
{
}

/// Two bytes survive decoding and encoding.
pub proof fn lemma_be_round_trip(hi: u8, lo: u8)
    ensures
        spec_u16_to_be(spec_u16_from_be(hi, lo)) == seq![hi, lo],
{
    assert(spec_u16_to_be(spec_u16_from_be(hi, lo)) =~= seq![hi, lo]);
}

/// A resource response decodes to the payload it was made from, whatever
/// follows it on the stream.
pub proof fn lemma_resource_round_trip(payload: Seq<u8>, capacity: nat, rest: Seq<u8>)
    requires
        payload.len() <= capacity,
        payload.len() <= MAX_FIELD,
    ensures
        spec_decode_resource(spec_encode_resource(payload) + rest, capacity) == Ok::<
            Seq<u8>,
            CodecError,
        >(payload),
{
    let frame = spec_encode_resource(payload) + rest;
    lemma_u16_round_trip(payload.len() as u16);
    assert(frame[0] == spec_u16_to_be(payload.len() as u16)[0]);
    assert(frame[1] == spec_u16_to_be(payload.len() as u16)[1]);
    assert(frame.subrange(2, 2 + payload.len() as int) =~= payload);
}

} // verus!
