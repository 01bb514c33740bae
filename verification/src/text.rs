//! Text conversions: ASCII bytes to strings, and UTF-8 decoding.

use vstd::prelude::*;
use vstd::string::StringExecFns;
use vstd::utf8::*;

verus! {

/// Relies on `std::str::from_utf8`, which succeeds exactly on valid UTF-8
/// and decodes it, and on `str::to_owned`.
#[verifier::external_body]
pub(crate) fn utf8_to_string(bytes: &[u8]) -> (r: Option<String>)
    ensures
        r is Some <==> valid_utf8(bytes@),
        r is Some ==> encode_utf8((r->0)@) == bytes@,
{
    match std::str::from_utf8(bytes) {
        Ok(s) => Some(s.to_owned()),
        Err(_) => None,
    }
}

/// An all-ASCII byte sequence is valid UTF-8.
proof fn lemma_ascii_valid_utf8(bytes: Seq<u8>)
    requires
        forall|i: int| 0 <= i < bytes.len() ==> #[trigger] bytes[i] < 128,
    ensures
        valid_utf8(bytes),
{
    assert(bytes.subrange(0, 0) =~= Seq::<u8>::empty());
    assert(partial_valid_utf8(bytes, 0));
    partial_valid_utf8_extend_ascii_block(bytes, 0, bytes.len() as int);
    assert(bytes.subrange(0, bytes.len() as int) =~= bytes);
}

/// The characters behind an all-ASCII UTF-8 encoding are the bytes
/// themselves, one character per byte.
proof fn lemma_ascii_encode_inverse(chars: Seq<char>, bytes: Seq<u8>)
    requires
        encode_utf8(chars) == bytes,
        forall|i: int| 0 <= i < bytes.len() ==> #[trigger] bytes[i] < 128,
    ensures
        chars.len() == bytes.len(),
        forall|i: int| 0 <= i < bytes.len() ==> chars[i] == ((#[trigger] bytes[i]) as char),
    decreases chars.len(),
{
    if chars.len() == 0 {
    } else {
        let c0 = chars[0];
        char_is_scalar(c0);
        let u = c0 as u32;
        assert(bytes == encode_scalar(u) + encode_utf8(chars.drop_first()));
        if !has_width_1_encoding(u) {
            if has_width_2_encoding(u) {
                assert(0xC0u8 | (((u >> 6) & 0x1F) as u8) >= 128) by (bit_vector);
            } else if has_width_3_encoding(u) {
                assert(0xE0u8 | (((u >> 12) & 0x0F) as u8) >= 128) by (bit_vector);
            } else {
                assert(0xF0u8 | (((u >> 18) & 0x7) as u8) >= 128) by (bit_vector);
            }
            assert(encode_scalar(u)[0] >= 128);
            assert(bytes[0] >= 128);
            assert(false);
        }
        assert(encode_scalar(u) == seq![leading_byte_width_1(u)]);
        assert(leading_byte_width_1(u) == u as u8) by (bit_vector)
            requires
                has_width_1_encoding(u),
        ;
        assert(bytes[0] == u as u8);
        char_u32_cast(c0, u);
        assert((bytes[0] as char) == c0);
        assert(encode_utf8(chars.drop_first()) =~= bytes.skip(1));
        lemma_ascii_encode_inverse(chars.drop_first(), bytes.skip(1));
        assert forall|i: int| 0 <= i < bytes.len() implies chars[i] == ((#[trigger] bytes[i])
            as char) by {
            if i > 0 {
                assert(chars.drop_first()[i - 1] == (bytes.skip(1)[i - 1] as char));
            }
        }
    }
}

/// Builds the string whose characters are the given bytes, which must all
/// be ASCII.
pub(crate) fn ascii_to_string(bytes: &[u8]) -> (r: String)
    requires
        forall|i: int| 0 <= i < bytes@.len() ==> #[trigger] bytes@[i] < 128,
    ensures
        r@.len() == bytes@.len(),
        forall|i: int| 0 <= i < bytes@.len() ==> r@[i] == ((#[trigger] bytes@[i]) as char),
{
    proof {
        lemma_ascii_valid_utf8(bytes@);
    }
    match utf8_to_string(bytes) {
        Some(s) => {
            proof {
                lemma_ascii_encode_inverse(s@, bytes@);
            }
            s
        },
        None => {
            proof {
                assert(false);
            }
            String::from_str("")
        },
    }
}

} // verus!
