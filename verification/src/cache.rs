//! The result cache: records framed one after the other, each as an
//! eight-byte big-endian length followed by that many bytes of payload.

use vstd::prelude::*;
use vstd::utf8::{
    decode_utf8, decode_utf8_encode_utf8, encode_utf8, encode_utf8_valid_utf8, valid_utf8,
};

verus! {

/// The number of bytes in a length prefix.
pub const PREFIX_LEN: usize = 8;

/// Why a payload is not a record.
#[derive(Clone, Copy, Debug, PartialEq, Eq, Structural)]
pub enum DecodeError {
    /// The payload is not UTF-8 text.
    InvalidText,
}

/// A record that can be kept in the cache.
pub trait Cacheable: Sized {
    /// The bytes that stand for this record.
    spec fn payload(&self) -> Seq<u8>;

    /// Whether `bytes` stand for a record.
    spec fn accepts(bytes: Seq<u8>) -> bool;

    /// What a record is written as is read back as a record.
    proof fn lemma_payload_accepted(&self)
        ensures
            Self::accepts(self.payload()),
    ;

    fn serialize(&self) -> (bytes: &[u8])
        ensures
            bytes@ == self.payload(),
    ;

    fn deserialize(bytes: Vec<u8>) -> (r: Result<Self, DecodeError>)
        ensures
            match r {
                Ok(record) => Self::accepts(bytes@) && record.payload() == bytes@,
                Err(_) => !Self::accepts(bytes@),
            },
    ;
}

/// Calls `String::from_utf8`. Trusted: the bytes are taken as text exactly
/// when they are valid UTF-8, and the text is then what they decode to.
#[verifier::external_body]
fn string_from_utf8(bytes: Vec<u8>) -> (text: Option<String>)
    ensures
        match text {
            Some(s) => valid_utf8(bytes@) && s@ == decode_utf8(bytes@),
            None => !valid_utf8(bytes@),
        },
{
    String::from_utf8(bytes).ok()
}

/// A path is kept as its UTF-8 text.
impl Cacheable for String {
    open spec fn payload(&self) -> Seq<u8> {
        encode_utf8(self@)
    }

    open spec fn accepts(bytes: Seq<u8>) -> bool {
        valid_utf8(bytes)
    }

    proof fn lemma_payload_accepted(&self) {
        encode_utf8_valid_utf8(self@);
    }

    fn serialize(&self) -> (bytes: &[u8]) {
        self.as_str().as_bytes()
    }

    fn deserialize(bytes: Vec<u8>) -> (r: Result<Self, DecodeError>) {
        proof {
            if valid_utf8(bytes@) {
                decode_utf8_encode_utf8(bytes@);
            }
        }
        match string_from_utf8(bytes) {
            Some(text) => Ok(text),
            None => Err(DecodeError::InvalidText),
        }
    }
}

/// The eight bytes of `n`, most significant first.
pub open spec fn length_prefix(n: u64) -> Seq<u8> {
    seq![
        ((n >> 56) & 0xff) as u8,
        ((n >> 48) & 0xff) as u8,
        ((n >> 40) & 0xff) as u8,
        ((n >> 32) & 0xff) as u8,
        ((n >> 24) & 0xff) as u8,
        ((n >> 16) & 0xff) as u8,
        ((n >> 8) & 0xff) as u8,
        (n & 0xff) as u8,
    ]
}

/// The number that eight bytes stand for, most significant first.
pub open spec fn prefix_value(b: Seq<u8>) -> u64 {
    (b[0] as u64) << 56 | (b[1] as u64) << 48 | (b[2] as u64) << 40 | (b[3] as u64) << 32 | (
    b[4] as u64) << 24 | (b[5] as u64) << 16 | (b[6] as u64) << 8 | (b[7] as u64)
}

/// A length is read back from its prefix.
pub proof fn lemma_prefix_round_trip(n: u64)
    ensures
        length_prefix(n).len() == 8,
        prefix_value(length_prefix(n)) == n,
{
    assert((((((n >> 56) & 0xff) as u8) as u64) << 56 | ((((n >> 48) & 0xff) as u8) as u64) << 48
        | ((((n >> 40) & 0xff) as u8) as u64) << 40 | ((((n >> 32) & 0xff) as u8) as u64) << 32
        | ((((n >> 24) & 0xff) as u8) as u64) << 24 | ((((n >> 16) & 0xff) as u8) as u64) << 16
        | ((((n >> 8) & 0xff) as u8) as u64) << 8 | (((n & 0xff) as u8) as u64)) == n)
        by (bit_vector);
}

/// One record as it stands in the file: the length of its payload, then the
/// payload.
pub open spec fn frame(payload: Seq<u8>) -> Seq<u8> {
    length_prefix(payload.len() as u64) + payload
}

/// The file that holds exactly these payloads, in this order.
pub open spec fn frames(payloads: Seq<Seq<u8>>) -> Seq<u8>
    decreases payloads.len(),
{
    if payloads.len() == 0 {
        Seq::empty()
    } else {
        frame(payloads[0]) + frames(payloads.skip(1))
    }
}

/// The payloads read from a file, from its start up to the first record that
/// is cut short or not accepted.
pub open spec fn unframe(bytes: Seq<u8>, accepts: spec_fn(Seq<u8>) -> bool) -> Seq<Seq<u8>>
    decreases bytes.len(),
{
    if bytes.len() < 8 {
        Seq::empty()
    } else {
        let n = prefix_value(bytes.take(8)) as int;
        if 8 + n > bytes.len() {
            Seq::empty()
        } else if !accepts(bytes.subrange(8, 8 + n)) {
            Seq::empty()
        } else {
            seq![bytes.subrange(8, 8 + n)] + unframe(bytes.skip(8 + n), accepts)
        }
    }
}

/// The payloads of a list of records.
pub open spec fn payloads<T: Cacheable>(records: Seq<T>) -> Seq<Seq<u8>> {
    Seq::new(records.len(), |i: int| records[i].payload())
}

/// The test that a payload stands for a record of type `T`.
pub open spec fn accepted_by<T: Cacheable>() -> spec_fn(Seq<u8>) -> bool {
    |bytes: Seq<u8>| T::accepts(bytes)
}

proof fn lemma_frames_push(payloads: Seq<Seq<u8>>, last: Seq<u8>)
    ensures
        frames(payloads.push(last)) == frames(payloads) + frame(last),
    decreases payloads.len(),
{
    if payloads.len() == 0 {
        let single = payloads.push(last);
        assert(single.skip(1) =~= payloads);
        assert(frames(single) == frame(last) + frames(single.skip(1)));
        assert(frames(single) =~= frames(payloads) + frame(last));
    } else {
        let longer = payloads.push(last);
        assert(longer.skip(1) =~= payloads.skip(1).push(last));
        assert(longer[0] == payloads[0]);
        lemma_frames_push(payloads.skip(1), last);
        assert(frames(longer) == frame(payloads[0]) + frames(longer.skip(1)));
        assert(frames(payloads) == frame(payloads[0]) + frames(payloads.skip(1)));
        assert(frames(longer) =~= frames(payloads) + frame(last));
    }
}

/// Reading undoes writing: payloads that are accepted and whose lengths fit
/// the prefix are read back from their frames, all of them and in order.
pub proof fn lemma_unframe_frames(payloads: Seq<Seq<u8>>, accepts: spec_fn(Seq<u8>) -> bool)
    requires
        forall|i: int| 0 <= i < payloads.len() ==> accepts(#[trigger] payloads[i]),
        forall|i: int| 0 <= i < payloads.len() ==> (#[trigger] payloads[i]).len() <= u64::MAX,
    ensures
        unframe(frames(payloads), accepts) == payloads,
    decreases payloads.len(),
{
    if payloads.len() == 0 {
        assert(unframe(frames(payloads), accepts) =~= payloads);
    } else {
        let first = payloads[0];
        let rest = payloads.skip(1);
        let bytes = frames(payloads);
        lemma_prefix_round_trip(first.len() as u64);
        assert(bytes.take(8) =~= length_prefix(first.len() as u64));
        assert(bytes.subrange(8, 8 + first.len() as int) =~= first);
        assert(bytes.skip(8 + first.len() as int) =~= frames(rest));
        assert forall|i: int| 0 <= i < rest.len() implies accepts(#[trigger] rest[i]) by {
            assert(rest[i] == payloads[i + 1]);
        }
        assert forall|i: int| 0 <= i < rest.len() implies (#[trigger] rest[i]).len()
            <= u64::MAX by {
            assert(rest[i] == payloads[i + 1]);
        }
        lemma_unframe_frames(rest, accepts);
        assert(unframe(bytes, accepts) =~= seq![first] + rest);
        assert(seq![first] + rest =~= payloads);
    }
}

/// Appends the length prefix for `n` to `out`.
fn write_length(out: &mut Vec<u8>, n: u64)
    ensures
        final(out)@ == old(out)@ + length_prefix(n),
{
    let ghost before = out@;
    out.push(((n >> 56) & 0xff) as u8);
    out.push(((n >> 48) & 0xff) as u8);
    out.push(((n >> 40) & 0xff) as u8);
    out.push(((n >> 32) & 0xff) as u8);
    out.push(((n >> 24) & 0xff) as u8);
    out.push(((n >> 16) & 0xff) as u8);
    out.push(((n >> 8) & 0xff) as u8);
    out.push((n & 0xff) as u8);
    assert(out@ =~= before + length_prefix(n));
}

/// Reads the length prefix that starts at `pos`.
fn read_length(bytes: &[u8], pos: usize) -> (n: u64)
    requires
        pos + 8 <= bytes@.len(),
    ensures
        n == prefix_value(bytes@.subrange(pos as int, pos + 8)),
{
    let ghost b = bytes@.subrange(pos as int, pos + 8);
    assert(b[0] == bytes@[pos + 0] && b[1] == bytes@[pos + 1] && b[2] == bytes@[pos + 2] && b[3]
        == bytes@[pos + 3] && b[4] == bytes@[pos + 4] && b[5] == bytes@[pos + 5] && b[6]
        == bytes@[pos + 6] && b[7] == bytes@[pos + 7]);
    (bytes[pos] as u64) << 56 | (bytes[pos + 1] as u64) << 48 | (bytes[pos + 2] as u64) << 40 | (
    bytes[pos + 3] as u64) << 32 | (bytes[pos + 4] as u64) << 24 | (bytes[pos + 5] as u64) << 16
        | (bytes[pos + 6] as u64) << 8 | (bytes[pos + 7] as u64)
}

/// Writes the records one after the other, each as its length and payload.
pub fn encode<T: Cacheable>(records: &Vec<T>) -> (bytes: Vec<u8>)
    ensures
        bytes@ == frames(payloads(records@)),
{
    let mut bytes: Vec<u8> = Vec::new();
    let mut i: usize = 0;
    assert(payloads(records@).take(0) =~= Seq::<Seq<u8>>::empty());
    while i < records.len()
        invariant
            i <= records@.len(),
            bytes@ == frames(payloads(records@).take(i as int)),
        decreases records@.len() - i,
    {
        let payload = records[i].serialize();
        let ghost before = bytes@;
        write_length(&mut bytes, payload.len() as u64);
        bytes.extend_from_slice(payload);
        proof {
            let done = payloads(records@).take(i as int);
            assert(payloads(records@).take(i + 1) =~= done.push(payload@));
            lemma_frames_push(done, payload@);
            assert(bytes@ =~= before + frame(payload@));
        }
        i += 1;
    }
    assert(payloads(records@).take(records@.len() as int) =~= payloads(records@));
    bytes
}

/// Reads records from the start of `bytes` until they run out. A record that
/// is cut short, or whose payload is not accepted, ends the reading: what
/// stood before it is returned.
pub fn decode<T: Cacheable>(bytes: &[u8]) -> (records: Vec<T>)
    ensures
        payloads(records@) == unframe(bytes@, accepted_by::<T>()),
{
    let mut records: Vec<T> = Vec::new();
    let mut pos: usize = 0;
    let total = bytes.len();
    assert(bytes@.skip(0) =~= bytes@);
    assert(payloads(records@) + unframe(bytes@.skip(0), accepted_by::<T>()) =~= unframe(
        bytes@,
        accepted_by::<T>(),
    ));
    loop
        invariant_except_break
            pos <= total,
            payloads(records@) + unframe(bytes@.skip(pos as int), accepted_by::<T>()) == unframe(
                bytes@,
                accepted_by::<T>(),
            ),
        invariant
            total == bytes@.len(),
        ensures
            payloads(records@) == unframe(bytes@, accepted_by::<T>()),
        decreases total - pos,
    {
        let ghost rest = bytes@.skip(pos as int);
        let ghost done = payloads(records@);
        if total - pos < 8 {
            assert(done + unframe(rest, accepted_by::<T>()) =~= done);
            break;
        }
        let n = read_length(bytes, pos);
        assert(rest.take(8) =~= bytes@.subrange(pos as int, pos + 8));
        if n > (total - pos - 8) as u64 {
            assert(done + unframe(rest, accepted_by::<T>()) =~= done);
            break;
        }
        let len = n as usize;
        let start = pos + 8;
        let mut payload: Vec<u8> = Vec::new();
        let mut k: usize = 0;
        while k < len
            invariant
                k <= len,
                start + len <= total,
                total == bytes@.len(),
                payload@ == bytes@.subrange(start as int, start + k),
            decreases len - k,
        {
            payload.push(bytes[start + k]);
            assert(payload@ =~= bytes@.subrange(start as int, start + k + 1));
            k += 1;
        }
        assert(payload@ =~= rest.subrange(8, 8 + n as int));
        let ghost held = payload@;
        match T::deserialize(payload) {
            Ok(record) => {
                records.push(record);
                proof {
                    assert(payloads(records@) =~= done.push(held));
                    assert(rest.skip(8 + n as int) =~= bytes@.skip(start + len));
                    assert(payloads(records@) + unframe(
                        bytes@.skip(start + len),
                        accepted_by::<T>(),
                    ) =~= done + unframe(rest, accepted_by::<T>()));
                }
                pos = start + len;
            },
            Err(_) => {
                assert(done + unframe(rest, accepted_by::<T>()) =~= done);
                break;
            },
        }
    }
    records
}

/// What the backing file of the cache holds. A file that is missing is one
/// that holds nothing.
pub struct CacheFile {
    bytes: Vec<u8>,
}

impl View for CacheFile {
    type V = Seq<u8>;

    closed spec fn view(&self) -> Seq<u8> {
        self.bytes@
    }
}

impl CacheFile {
    /// A file with this content.
    pub fn new(bytes: Vec<u8>) -> (file: CacheFile)
        ensures
            file@ == bytes@,
    {
        CacheFile { bytes }
    }

    /// The content of the file.
    pub fn bytes(&self) -> (bytes: &Vec<u8>)
        ensures
            bytes@ == self@,
    {
        &self.bytes
    }

    /// Whether the file holds nothing, which is how a cache asks to be
    /// built anew.
    pub fn is_empty(&self) -> (r: bool)
        ensures
            r == (self@.len() == 0),
    {
        self.bytes.len() == 0
    }
}

/// Keeps records in a cache file, if it has been told where the file is.
/// Without a place for the file it keeps nothing: what is saved is handed
/// back untouched, and what is read is empty.
pub struct CacheManager {
    path: Option<String>,
}

impl CacheManager {
    /// A manager for the cache file at `path`, or one that keeps nothing.
    pub fn new(path: Option<String>) -> (manager: CacheManager)
        ensures
            manager.is_configured() == path.is_some(),
            path matches Some(p) ==> manager.location() == Some(p@),
    {
        CacheManager { path }
    }

    /// Whether this manager has a cache file.
    pub closed spec fn is_configured(&self) -> bool {
        self.path.is_some()
    }

    /// Where the cache file is.
    pub closed spec fn location(&self) -> Option<Seq<char>> {
        match self.path {
            Some(p) => Some(p@),
            None => None,
        }
    }

    /// Where the cache file is, if this manager has one.
    pub fn path(&self) -> (path: Option<&String>)
        ensures
            path.is_some() == self.is_configured(),
            path matches Some(p) ==> self.location() == Some(p@),
    {
        self.path.as_ref()
    }

    /// The records that `file` holds, in order: all of them, or those before
    /// the first that is cut short or damaged. Empty without a cache file.
    pub fn bunch_read<T: Cacheable>(&self, file: &CacheFile) -> (records: Vec<T>)
        ensures
            payloads(records@) == if self.is_configured() {
                unframe(file@, accepted_by::<T>())
            } else {
                Seq::empty()
            },
    {
        if self.path.is_none() {
            let records: Vec<T> = Vec::new();
            assert(payloads(records@) =~= Seq::<Seq<u8>>::empty());
            return records;
        }
        decode(file.bytes.as_slice())
    }

    /// Replaces what `file` holds by `data`, and hands `data` back. Nothing
    /// of the old content is kept. Without a cache file, `file` is left as
    /// it is.
    pub fn bunch_save<T: Cacheable>(&self, file: &mut CacheFile, data: Vec<T>) -> (saved: Vec<T>)
        ensures
            saved == data,
            final(file)@ == if self.is_configured() {
                frames(payloads(data@))
            } else {
                old(file)@
            },
    {
        if self.path.is_none() {
            return data;
        }
        file.bytes = encode(&data);
        data
    }
}

/// What is saved is what is read right after: the same records in the same
/// order, as far as their payloads tell. (A payload is always shorter than
/// 2^64 bytes where it is held in memory.)
pub proof fn lemma_save_then_read<T: Cacheable>(data: Seq<T>)
    requires
        forall|i: int| 0 <= i < data.len() ==> (#[trigger] data[i]).payload().len() <= u64::MAX,
    ensures
        unframe(frames(payloads(data)), accepted_by::<T>()) == payloads(data),
{
    let held = payloads(data);
    assert forall|i: int| 0 <= i < held.len() implies accepted_by::<T>()(#[trigger] held[i]) by {
        data[i].lemma_payload_accepted();
    }
    lemma_unframe_frames(held, accepted_by::<T>());
}

/// Paths are read back as the very text that was saved.
pub proof fn lemma_paths_round_trip(saved: Seq<String>, read: Seq<String>)
    requires
        payloads(read) == payloads(saved),
    ensures
        read.len() == saved.len(),
        forall|i: int| 0 <= i < saved.len() ==> (#[trigger] read[i])@ == saved[i]@,
{
    assert(payloads(read).len() == read.len());
    assert(payloads(saved).len() == saved.len());
    assert forall|i: int| 0 <= i < saved.len() implies (#[trigger] read[i])@ == saved[i]@ by {
        assert(payloads(read)[i] == payloads(saved)[i]);
        vstd::utf8::encode_utf8_decode_utf8(read[i]@);
        vstd::utf8::encode_utf8_decode_utf8(saved[i]@);
    }
}

} // verus!
