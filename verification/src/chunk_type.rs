//! The 4-byte chunk type tag and its embedded property bits.

use crate::PngError;
use vstd::prelude::*;
use vstd::string::StringSliceAdditionalSpecFns;

verus! {

broadcast use vstd::array::group_array_axioms;

/// A byte is ASCII alphabetic: `A`-`Z` or `a`-`z`.
pub open spec fn spec_is_alphabetic(b: u8) -> bool {
    (65 <= b && b <= 90) || (97 <= b && b <= 122)
}

/// Bit 5 of a byte, the case bit that carries a chunk type's property flags.
pub open spec fn spec_bit5(b: u8) -> bool {
    b & 0x20 == 0x20
}

/// A well-formed chunk type tag: exactly 4 bytes, all ASCII alphabetic.
pub open spec fn spec_type_bytes_ok(s: Seq<u8>) -> bool {
    &&& s.len() == 4
    &&& forall|i: int| 0 <= i < 4 ==> spec_is_alphabetic(#[trigger] s[i])
}

/// A 4-byte chunk type tag together with its four property bits, which are
/// computed from bit 5 of each byte once at construction.
#[derive(Copy, Clone, Debug, PartialEq, Eq)]
pub struct ChunkType {
    bytes: [u8; 4],
    ancillary: bool,
    private: bool,
    reserved: bool,
    safe_to_copy: bool,
}

impl ChunkType {
    /// The raw 4-byte tag.
    pub closed spec fn spec_bytes(self) -> Seq<u8> {
        self.bytes@
    }

    /// Validity: the tag is ASCII alphabetic and each stored property bit
    /// agrees with bit 5 of its byte.
    pub open spec fn wf(self) -> bool {
        &&& spec_type_bytes_ok(self.spec_bytes())
        &&& self.spec_flags_ok()
    }

    /// The stored property bits agree with bit 5 of the corresponding bytes.
    pub closed spec fn spec_flags_ok(self) -> bool {
        &&& self.ancillary == spec_bit5(self.bytes@[0])
        &&& self.private == spec_bit5(self.bytes@[1])
        &&& self.reserved == spec_bit5(self.bytes@[2])
        &&& self.safe_to_copy == spec_bit5(self.bytes@[3])
    }

    /// Builds a chunk type from 4 raw bytes; succeeds iff all of them are
    /// ASCII alphabetic.
    pub fn try_from(value: [u8; 4]) -> (r: Result<ChunkType, PngError>)
        ensures
            r is Ok <==> spec_type_bytes_ok(value@),
            r is Ok ==> (r->Ok_0).wf() && (r->Ok_0).spec_bytes() == value@,
            !spec_type_bytes_ok(value@) ==> r == Err::<ChunkType, PngError>(
                PngError::InvalidTypeBytes,
            ),
    {
        if is_alphabetic(value[0]) && is_alphabetic(value[1]) && is_alphabetic(value[2])
            && is_alphabetic(value[3]) {
            Ok(
                ChunkType {
                    bytes: value,
                    ancillary: value[0] & 0x20 == 0x20,
                    private: value[1] & 0x20 == 0x20,
                    reserved: value[2] & 0x20 == 0x20,
                    safe_to_copy: value[3] & 0x20 == 0x20,
                },
            )
        } else {
            Err(PngError::InvalidTypeBytes)
        }
    }

    /// Builds a chunk type from a string; fails if the string is not exactly
    /// 4 bytes long, and otherwise goes by the bytes.
    pub fn from_str(s: &str) -> (r: Result<ChunkType, PngError>)
        ensures
            s.spec_bytes().len() != 4 ==> r == Err::<ChunkType, PngError>(PngError::WrongLength),
            s.spec_bytes().len() == 4 ==> ((r is Ok) <==> spec_type_bytes_ok(s.spec_bytes())),
            r is Ok ==> (r->Ok_0).wf() && (r->Ok_0).spec_bytes() == s.spec_bytes(),
            s.spec_bytes().len() == 4 && !spec_type_bytes_ok(s.spec_bytes()) ==> r == Err::<
                ChunkType,
                PngError,
            >(PngError::InvalidTypeBytes),
    {
        let b: &[u8] = s.as_bytes();
        if b.len() != 4 {
            return Err(PngError::WrongLength);
        }
        let value = [
            *vstd::slice::slice_index_get(b, 0),
            *vstd::slice::slice_index_get(b, 1),
            *vstd::slice::slice_index_get(b, 2),
            *vstd::slice::slice_index_get(b, 3),
        ];
        proof {
            assert(value@ =~= s.spec_bytes());
        }
        Self::try_from(value)
    }

    /// The raw tag, unchanged.
    pub fn bytes(&self) -> (r: [u8; 4])
        ensures
            r@ == self.spec_bytes(),
    {
        self.bytes
    }

    /// True iff the reserved bit (bit 5 of byte 2) is clear; the tag is
    /// invalid per the current revision of the format otherwise.
    pub fn is_valid(&self) -> (r: bool)
        ensures
            self.wf() ==> r == !spec_bit5(self.spec_bytes()[2]),
    {
        !self.reserved
    }

    /// True iff the chunk is critical to rendering (bit 5 of byte 0 clear).
    pub fn is_critical(&self) -> (r: bool)
        ensures
            self.wf() ==> r == !spec_bit5(self.spec_bytes()[0]),
    {
        !self.ancillary
    }

    /// True iff the type is a registered public one (bit 5 of byte 1 clear).
    pub fn is_public(&self) -> (r: bool)
        ensures
            self.wf() ==> r == !spec_bit5(self.spec_bytes()[1]),
    {
        !self.private
    }

    /// True iff the reserved bit (bit 5 of byte 2) is clear.
    pub fn is_reserved_bit_valid(&self) -> (r: bool)
        ensures
            self.wf() ==> r == !spec_bit5(self.spec_bytes()[2]),
    {
        !self.reserved
    }

    /// True iff editors that do not understand the chunk may copy it
    /// (bit 5 of byte 3 set).
    pub fn is_safe_to_copy(&self) -> (r: bool)
        ensures
            self.wf() ==> r == spec_bit5(self.spec_bytes()[3]),
    {
        self.safe_to_copy
    }

    /// The tag as a 4-character string, one character per byte.
    pub fn to_string(&self) -> (r: String)
        requires
            self.wf(),
        ensures
            r@.len() == 4,
            forall|i: int| 0 <= i < 4 ==> r@[i] == (self.spec_bytes()[i] as char),
    {
        let tag: [u8; 4] = self.bytes;
        crate::text::ascii_to_string(tag.as_slice())
    }
}

/// A chunk type's raw tag is always exactly 4 bytes.
pub proof fn lemma_tag_len(t: ChunkType)
    ensures
        t.spec_bytes().len() == 4,
{
}

/// Whether a byte is ASCII alphabetic.
fn is_alphabetic(b: u8) -> (r: bool)
    ensures
        r == spec_is_alphabetic(b),
{
    (65 <= b && b <= 90) || (97 <= b && b <= 122)
}

} // verus!
