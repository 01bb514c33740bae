//! One length-prefixed, checksummed chunk record.

use crate::bytes::{be_bytes, be_u32, lemma_be_round_trip, read_be_u32, write_be_u32};
use crate::chunk_type::{spec_type_bytes_ok, ChunkType};
use crate::PngError;
use vstd::prelude::*;

verus! {

broadcast use vstd::array::group_array_axioms;

/// What the CRC-32/ISO-HDLC checksum of a byte sequence is; the codec
/// relies on the `crc` crate to compute it.
pub uninterp spec fn crc32_of(bytes: Seq<u8>) -> u32;

/// Relies on `crc::Crc::<u32>::checksum` with `crc::CRC_32_ISO_HDLC`:
/// the CRC-32/ISO-HDLC checksum, a function of the input bytes alone.
#[verifier::external_body]
fn crc32_checksum(data: &[u8]) -> (r: u32)
    ensures
        r == crc32_of(data@),
{
    crc::Crc::<u32>::new(&crc::CRC_32_ISO_HDLC).checksum(data)
}

/// A chunk record: a payload under a 4-byte type tag, together with the
/// payload's byte count and the checksum over type plus payload.
#[derive(Clone, Debug, PartialEq, Eq)]
pub struct Chunk {
    length: u32,
    chunk_type: ChunkType,
    chunk_data: Vec<u8>,
    crc: u32,
}

/// A serialized chunk record is well-formed: at least 12 bytes, an ASCII
/// alphabetic type tag, a length field that counts the data region, and a
/// trailing checksum that matches the type and data bytes.
pub open spec fn spec_chunk_bytes_ok(bytes: Seq<u8>) -> bool {
    &&& bytes.len() >= 12
    &&& spec_type_bytes_ok(bytes.subrange(4, 8))
    &&& be_u32(bytes.subrange(0, 4)) == bytes.len() - 12
    &&& be_u32(bytes.subrange(bytes.len() - 4, bytes.len() as int)) == crc32_of(
        bytes.subrange(4, bytes.len() - 4),
    )
}

/// The chunk's fields are exactly the ones laid down in `bytes`: big-endian
/// length, then the type tag, then the data region up to the trailing
/// 4-byte checksum.
pub open spec fn spec_chunk_matches(c: Chunk, bytes: Seq<u8>) -> bool
    recommends
        bytes.len() >= 12,
{
    &&& c.spec_length() == be_u32(bytes.subrange(0, 4))
    &&& c.spec_chunk_type().spec_bytes() == bytes.subrange(4, 8)
    &&& c.spec_data() == bytes.subrange(8, bytes.len() - 4)
    &&& c.spec_crc() == be_u32(bytes.subrange(bytes.len() - 4, bytes.len() as int))
}

impl Chunk {
    /// The stored payload byte count.
    pub closed spec fn spec_length(self) -> u32 {
        self.length
    }

    /// The stored type tag.
    pub closed spec fn spec_chunk_type(self) -> ChunkType {
        self.chunk_type
    }

    /// The payload bytes.
    pub closed spec fn spec_data(self) -> Seq<u8> {
        self.chunk_data@
    }

    /// The stored checksum.
    pub closed spec fn spec_crc(self) -> u32 {
        self.crc
    }

    /// Validity: the type tag is well-formed and the stored length counts
    /// the payload bytes.
    pub open spec fn wf(self) -> bool {
        &&& self.spec_chunk_type().wf()
        &&& self.spec_length() == self.spec_data().len()
    }

    /// The stored checksum is the checksum of the type tag and the payload.
    pub open spec fn crc_ok(self) -> bool {
        self.spec_crc() == crc32_of(self.spec_chunk_type().spec_bytes() + self.spec_data())
    }

    /// The serialized record: length, type, data, checksum, the two
    /// integers big-endian.
    pub open spec fn spec_ser(self) -> Seq<u8> {
        be_bytes(self.spec_length()) + self.spec_chunk_type().spec_bytes() + self.spec_data()
            + be_bytes(self.spec_crc())
    }

    /// Builds a chunk from a type tag and a payload, computing the length
    /// and a fresh, necessarily correct checksum.
    pub fn new(chunk_type: ChunkType, data: Vec<u8>) -> (r: Chunk)
        requires
            data@.len() <= u32::MAX,
        ensures
            r.spec_chunk_type() == chunk_type,
            r.spec_data() == data@,
            r.spec_length() == data@.len(),
            r.crc_ok(),
            chunk_type.wf() ==> r.wf(),
    {
        let length = data.len() as u32;
        let tag = chunk_type.bytes();
        let mut buf: Vec<u8> = Vec::new();
        buf.push(tag[0]);
        buf.push(tag[1]);
        buf.push(tag[2]);
        buf.push(tag[3]);
        buf.extend_from_slice(data.as_slice());
        proof {
            assert(buf@ =~= chunk_type.spec_bytes() + data@);
        }
        let crc = crc32_checksum(buf.as_slice());
        Chunk { length, chunk_type, chunk_data: data, crc }
    }

    /// Builds a chunk as `new` does, but rejects a payload whose byte count
    /// does not fit in 32 bits instead of ruling it out.
    pub fn build(chunk_type: ChunkType, data: Vec<u8>) -> (r: Result<Chunk, PngError>)
        ensures
            data@.len() > u32::MAX ==> r == Err::<Chunk, PngError>(PngError::PayloadTooLarge),
            data@.len() <= u32::MAX ==> r is Ok,
            r is Ok ==> (r->Ok_0).spec_chunk_type() == chunk_type && (r->Ok_0).spec_data() == data@
                && (r->Ok_0).spec_length() == data@.len() && (r->Ok_0).crc_ok(),
            r is Ok && chunk_type.wf() ==> (r->Ok_0).wf(),
    {
        if data.len() > u32::MAX as usize {
            return Err(PngError::PayloadTooLarge);
        }
        Ok(Self::new(chunk_type, data))
    }

    /// Parses one chunk record from `value`, which must hold exactly the
    /// record: the data region runs from offset 8 to 4 bytes before the
    /// end. The length field must count that region and the stored checksum
    /// must match the type and data bytes.
    pub fn try_from(value: &[u8]) -> (r: Result<Chunk, PngError>)
        ensures
            r is Ok <==> spec_chunk_bytes_ok(value@),
            r is Ok ==> (r->Ok_0).wf() && (r->Ok_0).crc_ok() && spec_chunk_matches(
                r->Ok_0,
                value@,
            ),
            value@.len() < 12 ==> r == Err::<Chunk, PngError>(PngError::TooShort),
            value@.len() >= 12 && !spec_type_bytes_ok(value@.subrange(4, 8)) ==> r == Err::<
                Chunk,
                PngError,
            >(PngError::InvalidTypeBytes),
            value@.len() >= 12 && spec_type_bytes_ok(value@.subrange(4, 8))
                && !spec_chunk_bytes_ok(value@) ==> r == Err::<Chunk, PngError>(
                PngError::ChecksumMismatch,
            ),
    {
        let n = value.len();
        if n < 12 {
            return Err(PngError::TooShort);
        }
        let length = read_be_u32(value, 0);
        let t0 = *vstd::slice::slice_index_get(value, 4);
        let t1 = *vstd::slice::slice_index_get(value, 5);
        let t2 = *vstd::slice::slice_index_get(value, 6);
        let t3 = *vstd::slice::slice_index_get(value, 7);
        proof {
            assert(seq![t0, t1, t2, t3] =~= value@.subrange(4, 8));
        }
        let chunk_type = match ChunkType::try_from([t0, t1, t2, t3]) {
            Ok(t) => t,
            Err(_) => {
                return Err(PngError::InvalidTypeBytes);
            },
        };
        let chunk_data = vstd::slice::slice_to_vec(vstd::slice::slice_subrange(value, 8, n - 4));
        let crc = read_be_u32(value, n - 4);
        let mut buf: Vec<u8> = Vec::new();
        buf.push(t0);
        buf.push(t1);
        buf.push(t2);
        buf.push(t3);
        buf.extend_from_slice(chunk_data.as_slice());
        proof {
            assert(buf@ =~= value@.subrange(4, value@.len() - 4));
        }
        let computed = crc32_checksum(buf.as_slice());
        if length as usize != n - 12 || crc != computed {
            return Err(PngError::ChecksumMismatch);
        }
        proof {
            assert(chunk_type.spec_bytes() + chunk_data@ =~= value@.subrange(
                4,
                value@.len() - 4,
            ));
        }
        Ok(Chunk { length, chunk_type, chunk_data, crc })
    }

    /// The payload byte count.
    pub fn length(&self) -> (r: u32)
        ensures
            r == self.spec_length(),
    {
        self.length
    }

    /// The type tag.
    pub fn chunk_type(&self) -> (r: &ChunkType)
        ensures
            *r == self.spec_chunk_type(),
    {
        &self.chunk_type
    }

    /// The payload bytes.
    pub fn data(&self) -> (r: &[u8])
        ensures
            r@ == self.spec_data(),
    {
        self.chunk_data.as_slice()
    }

    /// The stored checksum.
    pub fn crc(&self) -> (r: u32)
        ensures
            r == self.spec_crc(),
    {
        self.crc
    }

    /// The payload read as UTF-8 text; fails iff it is not valid UTF-8.
    pub fn data_as_string(&self) -> (r: Result<String, PngError>)
        ensures
            r is Ok <==> vstd::utf8::valid_utf8(self.spec_data()),
            r is Ok ==> vstd::utf8::encode_utf8((r->Ok_0)@) == self.spec_data(),
            !vstd::utf8::valid_utf8(self.spec_data()) ==> r == Err::<String, PngError>(
                PngError::NotUtf8,
            ),
    {
        match crate::text::utf8_to_string(self.chunk_data.as_slice()) {
            Some(s) => Ok(s),
            None => Err(PngError::NotUtf8),
        }
    }

    /// The serialized record, the exact inverse of `try_from` for any chunk
    /// this module hands out.
    pub fn as_bytes(&self) -> (r: Vec<u8>)
        ensures
            r@ == self.spec_ser(),
    {
        let mut out: Vec<u8> = Vec::new();
        write_be_u32(&mut out, self.length);
        let tag = self.chunk_type.bytes();
        out.push(tag[0]);
        out.push(tag[1]);
        out.push(tag[2]);
        out.push(tag[3]);
        out.extend_from_slice(self.chunk_data.as_slice());
        write_be_u32(&mut out, self.crc);
        proof {
            assert(out@ =~= self.spec_ser());
        }
        out
    }

    /// The chunk's 4-character type string, its human-readable listing form.
    pub fn to_string(&self) -> (r: String)
        requires
            self.wf(),
        ensures
            r@.len() == 4,
            forall|i: int| 0 <= i < 4 ==> r@[i] == (self.spec_chunk_type().spec_bytes()[i] as char),
    {
        self.chunk_type.to_string()
    }
}

/// A serialized chunk record is 12 bytes of framing plus the payload.
pub proof fn lemma_chunk_ser_len(c: Chunk)
    ensures
        c.spec_ser().len() == 12 + c.spec_data().len(),
{
    crate::chunk_type::lemma_tag_len(c.spec_chunk_type());
}

/// Round-trip law: the serialized form of any valid chunk with a correct
/// checksum is itself a well-formed record, and it lays down exactly the
/// chunk's own fields, so parsing it back yields an equal chunk.
pub proof fn lemma_chunk_round_trip(c: Chunk)
    requires
        c.wf(),
        c.crc_ok(),
    ensures
        c.spec_ser().len() == 12 + c.spec_data().len(),
        spec_chunk_bytes_ok(c.spec_ser()),
        spec_chunk_matches(c, c.spec_ser()),
{
    let s = c.spec_ser();
    lemma_be_round_trip(c.spec_length());
    lemma_be_round_trip(c.spec_crc());
    assert(s.subrange(0, 4) =~= be_bytes(c.spec_length()));
    assert(s.subrange(4, 8) =~= c.spec_chunk_type().spec_bytes());
    assert(s.subrange(8, s.len() - 4) =~= c.spec_data());
    assert(s.subrange(s.len() - 4, s.len() as int) =~= be_bytes(c.spec_crc()));
    assert(s.subrange(4, s.len() - 4) =~= c.spec_chunk_type().spec_bytes() + c.spec_data());
}

} // verus!
