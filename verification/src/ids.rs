//! Identifiers as text, through the `uuid` crate.

use vstd::prelude::*;
use vstd::arithmetic::power::pow;

verus! {

/// The lowercase hexadecimal digit for `n`, below sixteen.
pub open spec fn hex_digit(n: int) -> char {
    if n < 10 {
        (('0' as int) + n) as char
    } else {
        (('a' as int) + n - 10) as char
    }
}

/// Hexadecimal digit `k` of `id`, counted from the most significant.
pub open spec fn id_digit(id: u128, k: int) -> char {
    hex_digit((id as int / pow(16, (31 - k) as nat)) % 16)
}

/// The hyphenated form of an id: its thirty-two lowercase hexadecimal
/// digits, most significant first, in groups of 8, 4, 4, 4 and 12 joined by
/// hyphens.
pub open spec fn hyphenated(id: u128) -> Seq<char> {
    Seq::new(
        36,
        |i: int|
            if i == 8 || i == 13 || i == 18 || i == 23 {
                '-'
            } else if i < 8 {
                id_digit(id, i)
            } else if i < 13 {
                id_digit(id, i - 1)
            } else if i < 18 {
                id_digit(id, i - 2)
            } else if i < 23 {
                id_digit(id, i - 3)
            } else {
                id_digit(id, i - 4)
            },
    )
}

/// Formats `uuid::Uuid::from_u128(id)` with `to_string`. Claimed: the text
/// is the hyphenated lowercase form, as the crate's `Display` writes it.
#[verifier::external_body]
pub(crate) fn uuid_text(id: u128) -> (r: String)
    ensures
        r@ == hyphenated(id),
{
    uuid::Uuid::from_u128(id).to_string()
}

/// The id that `uuid::Uuid::parse_str` reads from a text, if it reads one.
pub uninterp spec fn uuid_parsed(text: Seq<char>) -> Option<u128>;

/// Calls `uuid::Uuid::parse_str` and takes the id as a number. Claimed: the
/// result is `uuid_parsed` of the text.
#[verifier::external_body]
pub(crate) fn uuid_parse(text: &str) -> (r: Option<u128>)
    ensures
        r == uuid_parsed(text@),
{
    uuid::Uuid::parse_str(text).ok().map(|u| u.as_u128())
}

} // verus!
