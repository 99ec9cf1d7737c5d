//! Regular expressions, by way of the `regex` crate.
use vstd::prelude::*;

verus! {

/// `regex::Regex`, a compiled expression.
#[verifier::external_type_specification]
#[verifier::external_body]
pub struct ExRegex(regex::Regex);

/// Whether `Regex::new` accepts the pattern.
pub uninterp spec fn compiles(pattern: Seq<char>) -> bool;

/// The pattern an expression was compiled from (`Regex::as_str`).
pub uninterp spec fn source(re: regex::Regex) -> Seq<char>;

/// Whether the pattern matches somewhere in the text (`Regex::is_match`).
pub uninterp spec fn matches(pattern: Seq<char>, text: Seq<char>) -> bool;

/// The text with every match of the pattern replaced (`Regex::replace_all`).
pub uninterp spec fn substituted(pattern: Seq<char>, text: Seq<char>, by: Seq<char>) -> Seq<char>;

/// The groups of the first match, the whole match first
/// (`Regex::captures`); a group that took no part is `None`.
pub uninterp spec fn groups(pattern: Seq<char>, text: Seq<char>) -> Option<Seq<Option<Seq<char>>>>;

/// The views of a list of captured groups.
pub open spec fn group_texts(v: Seq<Option<String>>) -> Seq<Option<Seq<char>>> {
    v.map_values(
        |g: Option<String>|
            match g {
                Some(s) => Some(s@),
                None => None,
            },
    )
}

/// Compiles a pattern (`regex::Regex::new`). Succeeds exactly on the patterns
/// that the crate accepts, and the result remembers the pattern.
#[verifier::external_body]
pub(crate) fn compile(pattern: &str) -> (r: Option<regex::Regex>)
    ensures
        r is Some <==> compiles(pattern@),
        r is Some ==> source(r->0) == pattern@,
{
    regex::Regex::new(pattern).ok()
}

/// Searches the text (`regex::Regex::is_match`). The answer depends on the
/// pattern and the text alone.
#[verifier::external_body]
pub(crate) fn is_match(re: &regex::Regex, text: &str) -> (r: bool)
    ensures
        r == matches(source(*re), text@),
{
    re.is_match(text)
}

/// Replaces every match (`regex::Regex::replace_all`), `$` references in `by`
/// expanded. The result depends on the pattern and the two texts alone.
#[verifier::external_body]
pub(crate) fn replace_all(re: &regex::Regex, text: &str, by: &str) -> (r: String)
    ensures
        r@ == substituted(source(*re), text@, by@),
{
    re.replace_all(text, by).into_owned()
}

/// The groups of the first match (`regex::Regex::captures`).
#[verifier::external_body]
pub(crate) fn captures(re: &regex::Regex, text: &str) -> (r: Option<Vec<Option<String>>>)
    ensures
        match r {
            Some(v) => groups(source(*re), text@) == Some(group_texts(v@)),
            None => groups(source(*re), text@) is None,
        },
{
    let found = re.captures(text)?;
    Some(found.iter().map(|g| g.map(|m| m.as_str().to_string())).collect())
}

} // verus!
