//! Text and bytes: UTF-8 in both directions, and quoted text for diagnostics.

use vstd::prelude::*;
use vstd::utf8::{decode_utf8, encode_utf8, valid_utf8};

verus! {

/// What `String::from_utf8_lossy` makes of bytes that are not valid UTF-8.
pub uninterp spec fn spec_lossy(bytes: Seq<u8>) -> Seq<char>;

/// What the formatting trait `Debug` writes for a string.
pub uninterp spec fn spec_debug_text(s: Seq<char>) -> Seq<char>;

/// What the formatting trait `Debug` writes for a character.
pub uninterp spec fn spec_debug_char(c: char) -> Seq<char>;

/// The text that bytes stand for: their UTF-8 reading where there is one, else a substitute.
pub open spec fn spec_text_of(bytes: Seq<u8>) -> Seq<char> {
    if valid_utf8(bytes) {
        decode_utf8(bytes)
    } else {
        spec_lossy(bytes)
    }
}

/// Calls `String::from_utf8_lossy`. Trusted: valid UTF-8 is decoded as it is, and what replaces
/// anything else depends on the bytes alone. Which characters replace it is left unsaid.
#[verifier::external_body]
fn from_utf8_lossy(bytes: &[u8]) -> (r: String)
    ensures
        r@ == (if valid_utf8(bytes@) {
            decode_utf8(bytes@)
        } else {
            spec_lossy(bytes@)
        }),
{
    String::from_utf8_lossy(bytes).into_owned()
}

/// Calls `std::str::from_utf8`. Trusted: it succeeds on valid UTF-8 and on nothing else, and
/// then gives the decoded characters.
#[verifier::external_body]
fn from_utf8(bytes: &[u8]) -> (r: Option<String>)
    ensures
        match r {
            Some(s) => valid_utf8(bytes@) && s@ == decode_utf8(bytes@),
            None => !valid_utf8(bytes@),
        },
{
    match std::str::from_utf8(bytes) {
        Ok(s) => Some(s.to_owned()),
        Err(_) => None,
    }
}

/// Formats a string with `{:?}`. Trusted: the result depends on the string alone. How the
/// escapes look is left unsaid.
#[verifier::external_body]
pub(crate) fn debug_text(s: &str) -> (r: String)
    ensures
        r@ == spec_debug_text(s@),
{
    format!("{:?}", s)
}

/// Formats a character with `{:?}`. Trusted: the result depends on the character alone. How the
/// escapes look is left unsaid.
#[verifier::external_body]
pub(crate) fn debug_char(c: char) -> (r: String)
    ensures
        r@ == spec_debug_char(c),
{
    format!("{:?}", c)
}

/// The text that bytes stand for.
pub fn text_of(bytes: &[u8]) -> (r: Vec<char>)
    ensures
        r@ == spec_text_of(bytes@),
{
    crate::text::chars_of(from_utf8_lossy(bytes).as_str())
}

/// The text of valid UTF-8, `None` for other bytes.
pub fn strict_text_of(bytes: &[u8]) -> (r: Option<Vec<char>>)
    ensures
        match r {
            Some(s) => valid_utf8(bytes@) && s@ == decode_utf8(bytes@),
            None => !valid_utf8(bytes@),
        },
{
    match from_utf8(bytes) {
        Some(s) => Some(crate::text::chars_of(s.as_str())),
        None => None,
    }
}

/// The UTF-8 encoding of a text.
pub fn bytes_of(s: &str) -> (r: Vec<u8>)
    ensures
        r@ == encode_utf8(s@),
{
    s.as_bytes_vec()
}

/// The encoding of a text is that of its parts, one after the other.
pub proof fn lemma_encode_concat(a: Seq<char>, b: Seq<char>)
    ensures
        encode_utf8(a + b) == encode_utf8(a) + encode_utf8(b),
    decreases a.len(),
{
    if a.len() == 0 {
        assert(a + b =~= b);
        assert(encode_utf8(a) + encode_utf8(b) =~= encode_utf8(b));
    } else {
        lemma_encode_concat(a.drop_first(), b);
        assert((a + b).drop_first() =~= a.drop_first() + b);
        assert(encode_utf8(a + b) =~= encode_utf8(a) + encode_utf8(b));
    }
}

/// Encoded text reads back as it was.
pub proof fn lemma_text_of_encoded(s: Seq<char>)
    ensures
        valid_utf8(encode_utf8(s)),
        spec_text_of(encode_utf8(s)) == s,
{
    vstd::utf8::encode_utf8_valid_utf8(s);
    vstd::utf8::encode_utf8_decode_utf8(s);
}

} // verus!
