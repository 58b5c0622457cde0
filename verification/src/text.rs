//! Contracts for the string functions of std that the library calls.
use vstd::prelude::*;

verus! {

/// What `str::to_lowercase` returns for a text: its lowercase equivalent as
/// Unicode defines it, without regard to locale.
pub uninterp spec fn lowercase(text: Seq<char>) -> Seq<char>;

/// `str::to_lowercase`: the result depends on the characters of the text
/// alone, so the contract gives it a name and claims nothing more of it.
#[verifier::external_body]
pub(crate) fn to_lowercase(text: &str) -> (lower: String)
    ensures
        lower@ == lowercase(text@),
{
    text.to_lowercase()
}

/// `==` on two string slices: whether they hold the same characters.
#[verifier::external_body]
pub(crate) fn same_text(a: &str, b: &str) -> (res: bool)
    ensures
        res == (a@ == b@),
{
    a == b
}

/// `str::starts_with` for a string pattern: whether the text begins with the
/// characters of `prefix`.
#[verifier::external_body]
pub(crate) fn starts_with(text: &str, prefix: &str) -> (res: bool)
    ensures
        res == prefix@.is_prefix_of(text@),
{
    text.starts_with(prefix)
}

/// `str::strip_prefix` for a string pattern: the text behind `prefix` where the
/// text begins with it, and `None` where it does not.
#[verifier::external_body]
pub(crate) fn strip_prefix<'a>(text: &'a str, prefix: &str) -> (rest: Option<&'a str>)
    ensures
        match rest {
            Some(r) => prefix@.is_prefix_of(text@) && r@ == text@.skip(prefix@.len() as int),
            None => !prefix@.is_prefix_of(text@),
        },
{
    text.strip_prefix(prefix)
}

/// `str::strip_suffix` for a string pattern: the text before `suffix` where the
/// text ends with it, and `None` where it does not.
#[verifier::external_body]
pub(crate) fn strip_suffix<'a>(text: &'a str, suffix: &str) -> (rest: Option<&'a str>)
    ensures
        match rest {
            Some(r) => suffix@.is_suffix_of(text@) && r@ == text@.take(text@.len() - suffix@.len()),
            None => !suffix@.is_suffix_of(text@),
        },
{
    text.strip_suffix(suffix)
}

} // verus!
