//! The full container: a fixed 8-byte signature followed by an ordered
//! sequence of chunks.

use crate::bytes::be_u32;
use crate::chunk::{
    lemma_chunk_round_trip, lemma_chunk_ser_len, spec_chunk_bytes_ok, spec_chunk_matches, Chunk,
};
use crate::chunk_type::spec_type_bytes_ok;
use crate::PngError;
use vstd::prelude::*;
use vstd::string::StringSliceAdditionalSpecFns;

verus! {

broadcast use vstd::array::group_array_axioms;

/// The fixed 8-byte signature that opens every container.
pub open spec fn spec_signature() -> Seq<u8> {
    seq![137u8, 80u8, 78u8, 71u8, 13u8, 10u8, 26u8, 10u8]
}

/// The fixed 8-byte signature as a value.
pub fn signature() -> (r: [u8; 8])
    ensures
        r@ == spec_signature(),
{
    let r: [u8; 8] = [137u8, 80u8, 78u8, 71u8, 13u8, 10u8, 26u8, 10u8];
    proof {
        assert(r@ =~= spec_signature());
    }
    r
}

/// The serialization of a sequence of chunks: each chunk's record, in order.
pub open spec fn spec_ser_seq(chunks: Seq<Chunk>) -> Seq<u8>
    decreases chunks.len(),
{
    if chunks.len() == 0 {
        Seq::empty()
    } else {
        chunks[0].spec_ser() + spec_ser_seq(chunks.drop_first())
    }
}

/// Serialization distributes over concatenation of chunk sequences.
pub proof fn lemma_ser_seq_concat(a: Seq<Chunk>, b: Seq<Chunk>)
    ensures
        spec_ser_seq(a + b) == spec_ser_seq(a) + spec_ser_seq(b),
    decreases a.len(),
{
    if a.len() == 0 {
        assert(a + b =~= b);
        assert(spec_ser_seq(a) + spec_ser_seq(b) =~= spec_ser_seq(b));
    } else {
        assert((a + b).drop_first() =~= a.drop_first() + b);
        lemma_ser_seq_concat(a.drop_first(), b);
        assert((a + b)[0] == a[0]);
        assert(a[0].spec_ser() + (spec_ser_seq(a.drop_first()) + spec_ser_seq(b)) =~= (
        a[0].spec_ser() + spec_ser_seq(a.drop_first())) + spec_ser_seq(b));
    }
}

/// The serialization of a one-chunk sequence is that chunk's record.
pub proof fn lemma_ser_seq_singleton(c: Chunk)
    ensures
        spec_ser_seq(seq![c]) == c.spec_ser(),
{
    assert(seq![c].drop_first() =~= Seq::<Chunk>::empty());
    assert(c.spec_ser() + spec_ser_seq(Seq::<Chunk>::empty()) =~= c.spec_ser());
}

/// Parsing a stream of chunk records: the records' byte slices in order, or
/// the first record's failure. Each record's extent is 12 bytes plus its
/// leading length field.
pub open spec fn spec_parse_stream(bytes: Seq<u8>) -> Result<Seq<Seq<u8>>, PngError>
    decreases bytes.len(),
{
    if bytes.len() == 0 {
        Ok(Seq::empty())
    } else if bytes.len() < 12 {
        Err(PngError::TooShort)
    } else if bytes.len() < 12 + be_u32(bytes.subrange(0, 4)) {
        Err(PngError::TooShort)
    } else if !spec_type_bytes_ok(bytes.subrange(4, 8)) {
        Err(PngError::InvalidTypeBytes)
    } else if !spec_chunk_bytes_ok(bytes.subrange(0, 12 + be_u32(bytes.subrange(0, 4)))) {
        Err(PngError::ChecksumMismatch)
    } else {
        match spec_parse_stream(bytes.skip(12 + be_u32(bytes.subrange(0, 4)))) {
            Ok(rest) => Ok(seq![bytes.subrange(0, 12 + be_u32(bytes.subrange(0, 4)))] + rest),
            Err(e) => Err(e),
        }
    }
}

/// The records a serialized chunk sequence is made of: each chunk's own
/// serialization, in order.
pub open spec fn spec_ser_slices(chunks: Seq<Chunk>) -> Seq<Seq<u8>>
    decreases chunks.len(),
{
    if chunks.len() == 0 {
        Seq::empty()
    } else {
        seq![chunks[0].spec_ser()] + spec_ser_slices(chunks.drop_first())
    }
}

/// The record list is as long as the chunk list, and holds each chunk's
/// serialization at that chunk's position.
pub proof fn lemma_ser_slices_index(chunks: Seq<Chunk>, i: int)
    requires
        0 <= i < chunks.len(),
    ensures
        spec_ser_slices(chunks).len() == chunks.len(),
        spec_ser_slices(chunks)[i] == chunks[i].spec_ser(),
    decreases chunks.len(),
{
    lemma_ser_slices_len(chunks);
    if i > 0 {
        lemma_ser_slices_index(chunks.drop_first(), i - 1);
    }
}

/// The record list is as long as the chunk list.
pub proof fn lemma_ser_slices_len(chunks: Seq<Chunk>)
    ensures
        spec_ser_slices(chunks).len() == chunks.len(),
    decreases chunks.len(),
{
    if chunks.len() > 0 {
        lemma_ser_slices_len(chunks.drop_first());
    }
}

/// There is a chunk whose type tag is `key`.
pub open spec fn spec_has_chunk(chunks: Seq<Chunk>, key: Seq<u8>) -> bool {
    exists|i: int|
        0 <= i < chunks.len() && (#[trigger] chunks[i]).spec_chunk_type().spec_bytes() == key
}

/// Position `i` holds the first chunk whose type tag is `key`.
pub open spec fn spec_is_first_match(chunks: Seq<Chunk>, key: Seq<u8>, i: int) -> bool {
    &&& 0 <= i < chunks.len()
    &&& chunks[i].spec_chunk_type().spec_bytes() == key
    &&& forall|j: int|
        0 <= j < i ==> (#[trigger] chunks[j]).spec_chunk_type().spec_bytes() != key
}

/// The multi-line listing of the chunks' type tags, one tag per line.
pub open spec fn spec_listing_bytes(chunks: Seq<Chunk>) -> Seq<u8>
    decreases chunks.len(),
{
    if chunks.len() == 0 {
        Seq::empty()
    } else {
        chunks[0].spec_chunk_type().spec_bytes() + seq![10u8] + spec_listing_bytes(
            chunks.drop_first(),
        )
    }
}

/// The listing distributes over concatenation of chunk sequences.
pub proof fn lemma_listing_concat(a: Seq<Chunk>, b: Seq<Chunk>)
    ensures
        spec_listing_bytes(a + b) == spec_listing_bytes(a) + spec_listing_bytes(b),
    decreases a.len(),
{
    if a.len() == 0 {
        assert(a + b =~= b);
        assert(spec_listing_bytes(a) + spec_listing_bytes(b) =~= spec_listing_bytes(b));
    } else {
        assert((a + b).drop_first() =~= a.drop_first() + b);
        lemma_listing_concat(a.drop_first(), b);
        assert((a + b)[0] == a[0]);
        assert(a[0].spec_chunk_type().spec_bytes() + seq![10u8] + (spec_listing_bytes(
            a.drop_first(),
        ) + spec_listing_bytes(b)) =~= (a[0].spec_chunk_type().spec_bytes() + seq![10u8]
            + spec_listing_bytes(a.drop_first())) + spec_listing_bytes(b));
    }
}

/// The listing of a one-chunk sequence is that chunk's tag and a newline.
pub proof fn lemma_listing_singleton(c: Chunk)
    ensures
        spec_listing_bytes(seq![c]) == c.spec_chunk_type().spec_bytes() + seq![10u8],
{
    assert(seq![c].drop_first() =~= Seq::<Chunk>::empty());
    assert(c.spec_chunk_type().spec_bytes() + seq![10u8] + spec_listing_bytes(
        Seq::<Chunk>::empty(),
    ) =~= c.spec_chunk_type().spec_bytes() + seq![10u8]);
}

/// The container: the signature plus an ordered chunk sequence.
#[derive(Clone, Debug, PartialEq, Eq)]
pub struct Png {
    chunks: Vec<Chunk>,
}

impl Png {
    /// The ordered chunk sequence.
    pub closed spec fn spec_chunks(self) -> Seq<Chunk> {
        self.chunks@
    }

    /// Validity: every chunk is valid.
    pub open spec fn wf(self) -> bool {
        forall|i: int|
            0 <= i < self.spec_chunks().len() ==> (#[trigger] self.spec_chunks()[i]).wf()
    }

    /// Every chunk's stored checksum matches its type and payload.
    pub open spec fn crcs_ok(self) -> bool {
        forall|i: int|
            0 <= i < self.spec_chunks().len() ==> (#[trigger] self.spec_chunks()[i]).crc_ok()
    }

    /// The serialized container: the signature, then each chunk's record.
    pub open spec fn spec_ser(self) -> Seq<u8> {
        spec_signature() + spec_ser_seq(self.spec_chunks())
    }

    /// Wraps an ordered chunk list with the standard signature; no further
    /// validation.
    pub fn from_chunks(chunks: Vec<Chunk>) -> (r: Png)
        ensures
            r.spec_chunks() == chunks@,
    {
        Png { chunks }
    }

    /// The ordered chunk list.
    pub fn chunks(&self) -> (r: &[Chunk])
        ensures
            r@ == self.spec_chunks(),
    {
        self.chunks.as_slice()
    }

    /// Parses a whole container: the 8-byte signature, then one chunk
    /// record after another until the buffer ends. A wrong or missing
    /// signature and any chunk failure abort the parse.
    pub fn try_from(value: &[u8]) -> (r: Result<Png, PngError>)
        ensures
            r is Ok <==> (value@.len() >= 8 && value@.subrange(0, 8) == spec_signature()
                && spec_parse_stream(value@.skip(8)) is Ok),
            value@.len() < 8 || value@.subrange(0, 8) != spec_signature() ==> r == Err::<
                Png,
                PngError,
            >(PngError::BadSignature),
            value@.len() >= 8 && value@.subrange(0, 8) == spec_signature() && spec_parse_stream(
                value@.skip(8),
            ) is Err ==> r == Err::<Png, PngError>(spec_parse_stream(value@.skip(8))->Err_0),
            r is Ok ==> (r->Ok_0).spec_chunks().len() == spec_parse_stream(
                value@.skip(8),
            )->Ok_0.len(),
            r is Ok ==> forall|i: int|
                0 <= i < (r->Ok_0).spec_chunks().len() ==> spec_chunk_matches(
                    #[trigger] (r->Ok_0).spec_chunks()[i],
                    spec_parse_stream(value@.skip(8))->Ok_0[i],
                ),
            r is Ok ==> (r->Ok_0).wf() && (r->Ok_0).crcs_ok(),
    {
        let n = value.len();
        if n < 8 {
            return Err(PngError::BadSignature);
        }
        let sig = signature();
        let mut k: usize = 0;
        while k < 8
            invariant
                n == value@.len(),
                n >= 8,
                k <= 8,
                sig@ == spec_signature(),
                forall|j: int| 0 <= j < k ==> value@[j] == spec_signature()[j],
            decreases 8 - k,
        {
            if *vstd::slice::slice_index_get(value, k) != sig[k] {
                proof {
                    assert(value@.subrange(0, 8)[k as int] != spec_signature()[k as int]);
                }
                return Err(PngError::BadSignature);
            }
            k += 1;
        }
        proof {
            assert(value@.subrange(0, 8) =~= spec_signature());
        }
        let mut chunks: Vec<Chunk> = Vec::new();
        let ghost mut slices: Seq<Seq<u8>> = Seq::empty();
        let mut cursor: usize = 8;
        while cursor < n
            invariant
                8 <= cursor <= n,
                n == value@.len(),
                value@.subrange(0, 8) == spec_signature(),
                chunks@.len() == slices.len(),
                forall|i: int|
                    0 <= i < chunks@.len() ==> spec_chunk_matches(
                        #[trigger] chunks@[i],
                        slices[i],
                    ) && chunks@[i].wf() && chunks@[i].crc_ok(),
                spec_parse_stream(value@.skip(cursor as int)) is Ok ==> spec_parse_stream(
                    value@.skip(8),
                ) == Ok::<Seq<Seq<u8>>, PngError>(
                    slices + spec_parse_stream(value@.skip(cursor as int))->Ok_0,
                ),
                spec_parse_stream(value@.skip(cursor as int)) is Err ==> spec_parse_stream(
                    value@.skip(8),
                ) == spec_parse_stream(value@.skip(cursor as int)),
            decreases n - cursor,
        {
            let ghost s = value@.skip(cursor as int);
            let rem = n - cursor;
            if rem < 12 {
                return Err(PngError::TooShort);
            }
            let len0 = crate::bytes::read_be_u32(value, cursor);
            proof {
                assert(value@.subrange(cursor as int, cursor as int + 4) =~= s.subrange(0, 4));
            }
            if ((rem - 12) as u64) < (len0 as u64) {
                return Err(PngError::TooShort);
            }
            let end = cursor + 12 + (len0 as usize);
            let chunk_slice = vstd::slice::slice_subrange(value, cursor, end);
            proof {
                assert(chunk_slice@ =~= s.subrange(0, 12 + len0 as int));
                assert(chunk_slice@.subrange(0, 4) =~= s.subrange(0, 4));
                assert(chunk_slice@.subrange(4, 8) =~= s.subrange(4, 8));
            }
            let c = match Chunk::try_from(chunk_slice) {
                Ok(c) => c,
                Err(e) => {
                    return Err(e);
                },
            };
            chunks.push(c);
            proof {
                let prior = slices;
                slices = slices + seq![chunk_slice@];
                let tail = value@.skip(end as int);
                assert(tail =~= s.skip(12 + len0 as int));
                assert(s.len() == n - cursor);
                if spec_parse_stream(tail) is Ok {
                    let rest = spec_parse_stream(tail)->Ok_0;
                    assert(spec_parse_stream(s) == Ok::<Seq<Seq<u8>>, PngError>(
                        seq![chunk_slice@] + rest,
                    ));
                    assert(prior + (seq![chunk_slice@] + rest) =~= slices + rest);
                } else {
                    assert(spec_parse_stream(s) == spec_parse_stream(tail));
                }
            }
            cursor = end;
        }
        proof {
            assert(value@.skip(cursor as int) =~= Seq::<u8>::empty());
            assert(slices + Seq::<Seq<u8>>::empty() =~= slices);
        }
        Ok(Png { chunks })
    }

    /// The serialized container, the exact inverse of `try_from` for any
    /// container whose chunks this crate handed out.
    pub fn as_bytes(&self) -> (r: Vec<u8>)
        ensures
            r@ == self.spec_ser(),
    {
        let mut out: Vec<u8> = Vec::new();
        let sig = signature();
        out.extend_from_slice(sig.as_slice());
        proof {
            assert(out@ =~= spec_signature() + spec_ser_seq(self.spec_chunks().take(0)));
        }
        let mut i: usize = 0;
        while i < self.chunks.len()
            invariant
                i <= self.chunks@.len(),
                out@ == spec_signature() + spec_ser_seq(self.chunks@.take(i as int)),
            decreases self.chunks@.len() - i,
        {
            let mut cb = self.chunks[i].as_bytes();
            out.append(&mut cb);
            proof {
                assert(self.chunks@.take(i as int + 1) =~= self.chunks@.take(i as int)
                    + seq![self.chunks@[i as int]]);
                lemma_ser_seq_concat(self.chunks@.take(i as int), seq![self.chunks@[i as int]]);
                lemma_ser_seq_singleton(self.chunks@[i as int]);
                assert(out@ =~= spec_signature() + spec_ser_seq(
                    self.chunks@.take(i as int + 1),
                ));
            }
            i += 1;
        }
        proof {
            assert(self.chunks@.take(self.chunks@.len() as int) =~= self.chunks@);
        }
        out
    }

    /// The first chunk whose type string equals `chunk_type`, going by
    /// exact byte equality; later chunks with the same type are ignored.
    pub fn chunk_by_type(&self, chunk_type: &str) -> (r: Option<&Chunk>)
        ensures
            (r is Some) <==> spec_has_chunk(self.spec_chunks(), chunk_type.spec_bytes()),
            r is Some ==> exists|i: int|
                #[trigger] spec_is_first_match(self.spec_chunks(), chunk_type.spec_bytes(), i)
                    && *(r->0) == self.spec_chunks()[i],
    {
        let key = chunk_type.as_bytes();
        let mut i: usize = 0;
        while i < self.chunks.len()
            invariant
                i <= self.chunks@.len(),
                key@ == chunk_type.spec_bytes(),
                forall|j: int|
                    0 <= j < i ==> (#[trigger] self.chunks@[j]).spec_chunk_type().spec_bytes()
                        != key@,
            decreases self.chunks@.len() - i,
        {
            if type_matches(&self.chunks[i], key) {
                proof {
                    assert(spec_is_first_match(self.spec_chunks(), key@, i as int));
                }
                return Some(&self.chunks[i]);
            }
            i += 1;
        }
        None
    }

    /// Removes the first chunk whose type string equals `chunk_type` and
    /// returns it; fails with `ChunkNotFound`, leaving the container
    /// unchanged, if no chunk matches. At most one chunk is removed.
    pub fn remove_chunk(&mut self, chunk_type: &str) -> (r: Result<Chunk, PngError>)
        ensures
            !spec_has_chunk(old(self).spec_chunks(), chunk_type.spec_bytes()) ==> r == Err::<
                Chunk,
                PngError,
            >(PngError::ChunkNotFound) && final(self).spec_chunks() == old(self).spec_chunks(),
            spec_has_chunk(old(self).spec_chunks(), chunk_type.spec_bytes()) ==> r is Ok,
            r is Ok ==> exists|i: int|
                #[trigger] spec_is_first_match(old(self).spec_chunks(), chunk_type.spec_bytes(), i)
                    && r->Ok_0 == old(self).spec_chunks()[i] && final(self).spec_chunks() == old(
                    self,
                ).spec_chunks().remove(i),
            old(self).wf() ==> final(self).wf(),
            old(self).crcs_ok() ==> final(self).crcs_ok(),
    {
        let key = chunk_type.as_bytes();
        let mut i: usize = 0;
        while i < self.chunks.len()
            invariant
                i <= self.chunks@.len(),
                *self == *old(self),
                key@ == chunk_type.spec_bytes(),
                forall|j: int|
                    0 <= j < i ==> (#[trigger] self.chunks@[j]).spec_chunk_type().spec_bytes()
                        != key@,
            decreases self.chunks@.len() - i,
        {
            if type_matches(&self.chunks[i], key) {
                proof {
                    assert(spec_is_first_match(old(self).spec_chunks(), key@, i as int));
                }
                let removed = self.chunks.remove(i);
                proof {
                    assert forall|k: int| 0 <= k < self.chunks@.len() implies (
                    #[trigger] self.chunks@[k]) == old(self).spec_chunks()[k] || self.chunks@[k]
                        == old(self).spec_chunks()[k + 1] by {
                        assert(self.chunks@ == old(self).spec_chunks().remove(i as int));
                    }
                }
                return Ok(removed);
            }
            i += 1;
        }
        Err(PngError::ChunkNotFound)
    }

    /// The multi-line listing of the container's chunk types, one
    /// 4-character tag per line, in stored order.
    pub fn to_string(&self) -> (r: String)
        requires
            self.wf(),
        ensures
            r@.len() == spec_listing_bytes(self.spec_chunks()).len(),
            forall|i: int|
                0 <= i < r@.len() ==> r@[i] == (spec_listing_bytes(self.spec_chunks())[i] as char),
    {
        let mut buf: Vec<u8> = Vec::new();
        let mut i: usize = 0;
        while i < self.chunks.len()
            invariant
                i <= self.chunks@.len(),
                self.wf(),
                buf@ == spec_listing_bytes(self.chunks@.take(i as int)),
                forall|k: int| 0 <= k < buf@.len() ==> #[trigger] buf@[k] < 128,
            decreases self.chunks@.len() - i,
        {
            proof {
                assert(self.spec_chunks()[i as int].wf());
            }
            let tag = self.chunks[i].chunk_type().bytes();
            buf.push(tag[0]);
            buf.push(tag[1]);
            buf.push(tag[2]);
            buf.push(tag[3]);
            buf.push(10);
            proof {
                assert(self.chunks@.take(i as int + 1) =~= self.chunks@.take(i as int)
                    + seq![self.chunks@[i as int]]);
                lemma_listing_concat(self.chunks@.take(i as int), seq![self.chunks@[i as int]]);
                lemma_listing_singleton(self.chunks@[i as int]);
                assert(buf@ =~= spec_listing_bytes(self.chunks@.take(i as int + 1)));
            }
            i += 1;
        }
        proof {
            assert(self.chunks@.take(self.chunks@.len() as int) =~= self.chunks@);
        }
        crate::text::ascii_to_string(buf.as_slice())
    }
}

/// Whether the chunk's type tag equals `key` bytewise.
fn type_matches(c: &Chunk, key: &[u8]) -> (r: bool)
    ensures
        r == (c.spec_chunk_type().spec_bytes() == key@),
{
    let tag = c.chunk_type().bytes();
    if key.len() != 4 {
        proof {
            assert(tag@.len() == 4);
        }
        return false;
    }
    let r = tag[0] == *vstd::slice::slice_index_get(key, 0) && tag[1]
        == *vstd::slice::slice_index_get(key, 1) && tag[2] == *vstd::slice::slice_index_get(key, 2)
        && tag[3] == *vstd::slice::slice_index_get(key, 3);
    proof {
        if r {
            assert(tag@ =~= key@);
        } else {
            if c.spec_chunk_type().spec_bytes() == key@ {
                assert(tag@[0] == key@[0] && tag@[1] == key@[1] && tag@[2] == key@[2] && tag@[3]
                    == key@[3]);
            }
        }
    }
    r
}

/// Round-trip law for chunk streams: serializing any sequence of valid
/// chunks with correct checksums and parsing the result back yields
/// exactly those chunks' records, in order.
pub proof fn lemma_stream_round_trip(chunks: Seq<Chunk>)
    requires
        forall|i: int| 0 <= i < chunks.len() ==> (#[trigger] chunks[i]).wf() && chunks[i].crc_ok(),
    ensures
        spec_parse_stream(spec_ser_seq(chunks)) == Ok::<Seq<Seq<u8>>, PngError>(
            spec_ser_slices(chunks),
        ),
    decreases chunks.len(),
{
    if chunks.len() == 0 {
        assert(spec_ser_seq(chunks).len() == 0);
        assert(spec_ser_slices(chunks) =~= Seq::<Seq<u8>>::empty());
    } else {
        let c0 = chunks[0];
        let rest = chunks.drop_first();
        let s = spec_ser_seq(chunks);
        lemma_chunk_round_trip(c0);
        let head = c0.spec_ser();
        assert(s == head + spec_ser_seq(rest));
        assert(s.len() >= head.len());
        assert(s.subrange(0, 4) =~= head.subrange(0, 4));
        assert(be_u32(s.subrange(0, 4)) == c0.spec_length());
        let n0 = be_u32(s.subrange(0, 4)) as int;
        assert(12 + n0 == head.len());
        assert(s.subrange(0, 12 + n0) =~= head);
        assert(s.subrange(4, 8) =~= head.subrange(4, 8));
        assert(s.skip(12 + n0) =~= spec_ser_seq(rest));
        lemma_stream_round_trip(rest);
        assert(spec_parse_stream(s) == Ok::<Seq<Seq<u8>>, PngError>(
            seq![head] + spec_ser_slices(rest),
        ));
    }
}

/// Container round-trip law: the serialized container opens with the
/// signature, its chunk stream parses back, and the parsed records are
/// exactly the chunks' own serializations, so each chunk's length, type,
/// payload and checksum are reproduced in order.
pub proof fn lemma_container_round_trip(p: Png)
    requires
        p.wf(),
        p.crcs_ok(),
    ensures
        p.spec_ser().len() >= 8,
        p.spec_ser().subrange(0, 8) == spec_signature(),
        spec_parse_stream(p.spec_ser().skip(8)) == Ok::<Seq<Seq<u8>>, PngError>(
            spec_ser_slices(p.spec_chunks()),
        ),
        spec_ser_slices(p.spec_chunks()).len() == p.spec_chunks().len(),
        forall|i: int|
            0 <= i < p.spec_chunks().len() ==> spec_ser_slices(p.spec_chunks())[i] == (
            #[trigger] p.spec_chunks()[i]).spec_ser() && spec_chunk_matches(
                p.spec_chunks()[i],
                spec_ser_slices(p.spec_chunks())[i],
            ),
{
    assert(p.spec_ser().subrange(0, 8) =~= spec_signature());
    assert(p.spec_ser().skip(8) =~= spec_ser_seq(p.spec_chunks()));
    lemma_stream_round_trip(p.spec_chunks());
    lemma_ser_slices_len(p.spec_chunks());
    assert forall|i: int| 0 <= i < p.spec_chunks().len() implies spec_ser_slices(
        p.spec_chunks(),
    )[i] == (#[trigger] p.spec_chunks()[i]).spec_ser() && spec_chunk_matches(
        p.spec_chunks()[i],
        spec_ser_slices(p.spec_chunks())[i],
    ) by {
        lemma_ser_slices_index(p.spec_chunks(), i);
        lemma_chunk_round_trip(p.spec_chunks()[i]);
    }
}

/// Removing one chunk shrinks the serialized chunk stream by exactly that
/// chunk's record: 12 bytes of framing plus its payload length.
pub proof fn lemma_remove_shrinks_ser(chunks: Seq<Chunk>, i: int)
    requires
        0 <= i < chunks.len(),
    ensures
        spec_ser_seq(chunks.remove(i)).len() + 12 + chunks[i].spec_data().len() == spec_ser_seq(
            chunks,
        ).len(),
{
    assert(chunks =~= (chunks.take(i) + seq![chunks[i]]) + chunks.skip(i + 1));
    lemma_ser_seq_concat(chunks.take(i) + seq![chunks[i]], chunks.skip(i + 1));
    lemma_ser_seq_concat(chunks.take(i), seq![chunks[i]]);
    lemma_ser_seq_singleton(chunks[i]);
    lemma_chunk_ser_len(chunks[i]);
    assert(chunks.remove(i) =~= chunks.take(i) + chunks.skip(i + 1));
    lemma_ser_seq_concat(chunks.take(i), chunks.skip(i + 1));
}

} // verus!
