//! Identifiers, by way of the `uuid` crate.
use vstd::prelude::*;
use crate::numbers;

verus! {

/// The identifier that a text denotes (`uuid::Uuid::parse_str`), as a number.
pub uninterp spec fn uuid_value(s: Seq<char>) -> Option<u128>;

/// Thirty-two digits with hyphens between the groups of an identifier.
pub open spec fn hyphenated(h: Seq<char>) -> Seq<char> {
    h.subrange(0, 8) + "-"@ + h.subrange(8, 12) + "-"@ + h.subrange(12, 16) + "-"@ + h.subrange(
        16,
        20,
    ) + "-"@ + h.subrange(20, 32)
}

/// Reads an identifier (`uuid::Uuid::parse_str`). Whether a text is one, and
/// which, depends on the text alone.
#[verifier::external_body]
fn parse_str(s: &str) -> (r: Option<u128>)
    ensures
        r == uuid_value(s@),
{
    uuid::Uuid::parse_str(s).ok().map(|u| u.as_u128())
}

/// Writes an identifier (`Display` of `uuid::Uuid`): lower-case hexadecimal
/// digits in five groups. What is written is read back.
#[verifier::external_body]
fn to_text(n: u128) -> (r: String)
    ensures
        r@ == hyphenated(numbers::hex(n as int, 32)),
        uuid_value(r@) == Some(n),
{
    uuid::Uuid::from_u128(n).to_string()
}

/// Reads an identifier in any of the forms it is written in.
pub fn parse_uuid(s: &str) -> (r: Option<u128>)
    ensures
        r == uuid_value(s@),
{
    parse_str(s)
}

/// Whether a text is an identifier.
pub fn is_uuid(s: &str) -> (r: bool)
    ensures
        r == (uuid_value(s@) is Some),
{
    parse_str(s).is_some()
}

/// An identifier in its usual form, whatever form it came in.
pub fn canonical(s: &str) -> (r: Option<String>)
    ensures
        match r {
            Some(t) => uuid_value(s@) is Some && t@ == hyphenated(
                numbers::hex(uuid_value(s@)->0 as int, 32),
            ) && uuid_value(t@) == uuid_value(s@),
            None => uuid_value(s@) is None,
        },
{
    match parse_str(s) {
        Some(n) => Some(to_text(n)),
        None => None,
    }
}

/// An identifier is written in five groups, with hyphens between them.
pub proof fn law_groups_of_identifiers(h: Seq<char>, i: int)
    requires
        h.len() == 32,
    ensures
        hyphenated(h).len() == 36,
        hyphenated(h)[8] == '-' && hyphenated(h)[13] == '-' && hyphenated(h)[18] == '-'
            && hyphenated(h)[23] == '-',
        0 <= i < 8 ==> hyphenated(h)[i] == h[i],
        8 <= i < 12 ==> hyphenated(h)[i + 1] == h[i],
        12 <= i < 16 ==> hyphenated(h)[i + 2] == h[i],
        16 <= i < 20 ==> hyphenated(h)[i + 3] == h[i],
        20 <= i < 32 ==> hyphenated(h)[i + 4] == h[i],
{
    reveal_strlit("-");
}

} // verus!
