//! Moving between `String` values and the byte sequences the codec works on.

use vstd::prelude::*;
use vstd::utf8::{valid_utf8, encode_utf8, partial_valid_utf8, partial_valid_utf8_extend_ascii_block};
use vstd::string::StringSliceAdditionalSpecFns;

verus! {

/// The UTF-8 bytes of a string value; string fields are viewed through this.
pub open spec fn str_bytes(s: Seq<char>) -> Seq<u8> {
    encode_utf8(s)
}

pub open spec fn ascii_seq(s: Seq<u8>) -> bool {
    forall|i: int| 0 <= i < s.len() ==> #[trigger] s[i] < 0x80
}

/// A sequence of ASCII bytes is valid UTF-8.
pub proof fn lemma_ascii_valid_utf8(s: Seq<u8>)
    requires
        ascii_seq(s),
    ensures
        valid_utf8(s),
{
    assert(s.subrange(0, 0) =~= Seq::<u8>::empty());
    assert(partial_valid_utf8(s, 0));
    partial_valid_utf8_extend_ascii_block(s, 0, s.len() as int);
    assert(s.subrange(0, s.len() as int) =~= s);
}

/// Relies on `String::from_utf8`: it succeeds exactly on valid UTF-8 input
/// and the resulting string's encoding is the input bytes.
#[verifier::external_body]
pub fn bytes_to_string(v: Vec<u8>) -> (r: Option<String>)
    ensures
        r is Some <==> valid_utf8(v@),
        r matches Some(s) ==> str_bytes(s@) == v@,
{
    String::from_utf8(v).ok()
}

/// A byte of a rendered identifier: a digit, a lowercase hex letter, or a
/// hyphen. Such bytes are ASCII and are none of the separators the SDP
/// parsers split on.
pub open spec fn is_id_byte(b: u8) -> bool {
    (48 <= b <= 57) || (97 <= b <= 102) || b == 45
}

/// The bytes of a string of identifier characters are identifier bytes,
/// one per character.
pub proof fn lemma_id_chars_bytes(s: Seq<char>)
    requires
        forall|i: int| 0 <= i < s.len() ==> crate::ice::is_id_char(#[trigger] s[i]),
    ensures
        str_bytes(s).len() == s.len(),
        forall|i: int| 0 <= i < str_bytes(s).len() ==> is_id_byte(#[trigger] str_bytes(s)[i]),
{
    assert(vstd::utf8::is_ascii_chars(s)) by {
        assert forall|i: int| 0 <= i < s.len() implies '\0' <= #[trigger] s[i] <= '\u{7f}' by {
            assert(crate::ice::is_id_char(s[i]));
            assert(s[i] as u32 <= 102);
            vstd::utf8::char_u32_cast(s[i], s[i] as u32);
        }
    }
    vstd::utf8::is_ascii_chars_encode_utf8(s);
    assert(str_bytes(s) =~= Seq::new(s.len(), |i: int| s[i] as u8));
    assert forall|i: int| 0 <= i < str_bytes(s).len() implies is_id_byte(
        #[trigger] str_bytes(s)[i],
    ) by {
        assert(crate::ice::is_id_char(s[i]));
        assert(str_bytes(s)[i] == s[i] as u8);
    }
}

/// Whether two strings hold the same characters (compared bytewise).
pub fn str_eq(a: &str, b: &str) -> (r: bool)
    ensures
        r == (a@ == b@),
{
    let r = crate::text::bytes_eq(a.as_bytes(), b.as_bytes());
    proof {
        vstd::utf8::encode_utf8_decode_utf8(a@);
        vstd::utf8::encode_utf8_decode_utf8(b@);
    }
    r
}

/// The UTF-8 bytes of a string, as a fresh vector.
pub fn string_to_bytes(s: &String) -> (r: Vec<u8>)
    ensures
        r@ == str_bytes(s@),
{
    vstd::slice::slice_to_vec(s.as_str().as_bytes())
}

} // verus!
