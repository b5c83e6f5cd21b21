//! The two things this library takes from the standard library's strings
//! without proof: reading bytes as text, and lower-casing text.

use vstd::prelude::*;
use vstd::utf8::*;

verus! {

/// The lower-case form of `text`, as `str::to_lowercase` gives it.
pub uninterp spec fn lowercase_of(text: Seq<char>) -> Seq<char>;

/// Calls `str::to_lowercase`. Trusted: the result is the lower-case form of
/// `text` by Unicode's rules, which this library does not spell out and knows
/// only by the name `lowercase_of`; and a text without characters has a
/// lower-case form without characters.
#[verifier::external_body]
pub(crate) fn lowercase(text: &str) -> (r: String)
    ensures
        r@ == lowercase_of(text@),
        text@.len() == 0 ==> r@.len() == 0,
{
    text.to_lowercase()
}

/// Calls `std::str::from_utf8`. Trusted: it accepts exactly the well-formed
/// UTF-8 byte sequences, and the text it gives has `bytes` as its encoding.
#[verifier::external_body]
pub(crate) fn decode(bytes: &[u8]) -> (r: Option<&str>)
    ensures
        r is Some <==> valid_utf8(bytes@),
        r matches Some(text) ==> encode_utf8(text@) == bytes@,
{
    std::str::from_utf8(bytes).ok()
}

} // verus!
