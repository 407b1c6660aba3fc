//! Regular-expression matching, done by the `regex` crate.
//!
//! Nothing in this library says what a pattern matches: each result of the
//! engine is named by a function without a body, and the contracts of the
//! library are stated over those names. A pattern that does not compile
//! matches nothing and replaces nothing.

use vstd::prelude::*;

verus! {

/// Whether `pattern` matches somewhere in `text`.
pub uninterp spec fn regex_is_match(pattern: Seq<char>, text: Seq<char>) -> bool;

/// The capture groups of the leftmost match of `pattern` in `text`, group 0
/// (the whole match) first; a group that took no part in the match is `None`.
pub uninterp spec fn regex_captures(pattern: Seq<char>, text: Seq<char>) -> Option<
    Seq<Option<Seq<char>>>,
>;

/// The capture groups of each successive non-overlapping match of `pattern`
/// in `text`, in the order of the matches.
pub uninterp spec fn regex_captures_all(pattern: Seq<char>, text: Seq<char>) -> Seq<
    Seq<Option<Seq<char>>>,
>;

/// `text` with the leftmost match of `pattern` replaced by the expansion of
/// the template `rep`.
pub uninterp spec fn regex_replace(pattern: Seq<char>, text: Seq<char>, rep: Seq<char>) -> Seq<
    char,
>;

/// `text` with every non-overlapping match of `pattern` replaced by the
/// expansion of the template `rep`.
pub uninterp spec fn regex_replace_all(pattern: Seq<char>, text: Seq<char>, rep: Seq<char>) -> Seq<
    char,
>;

/// The text of group `k` of a match; empty when the group is absent.
pub open spec fn group_text(groups: Seq<Option<Seq<char>>>, k: int) -> Seq<char> {
    if 0 <= k < groups.len() {
        match groups[k] {
            Some(t) => t,
            None => Seq::<char>::empty(),
        }
    } else {
        Seq::<char>::empty()
    }
}

/// Whether group `k` took part in a match.
pub open spec fn group_present(groups: Seq<Option<Seq<char>>>, k: int) -> bool {
    0 <= k < groups.len() && groups[k] is Some
}

/// `Regex::is_match` of the `regex` crate, on the pattern compiled by
/// `Regex::new`: the result is the engine's answer, `false` for a pattern
/// that does not compile.
#[verifier::external_body]
pub(crate) fn is_match(pattern: &str, text: &str) -> (b: bool)
    ensures
        b == regex_is_match(pattern@, text@),
{
    match regex::Regex::new(pattern) {
        Ok(re) => re.is_match(text),
        Err(_) => false,
    }
}

/// `Regex::captures` of the `regex` crate: the groups of the leftmost match
/// as owned strings, `None` where there is no match or the pattern does not
/// compile.
#[verifier::external_body]
pub(crate) fn captures(pattern: &str, text: &str) -> (groups: Option<Vec<Option<String>>>)
    ensures
        groups.deep_view() == regex_captures(pattern@, text@),
{
    match regex::Regex::new(pattern) {
        Ok(re) => re.captures(text).map(
            |c| c.iter().map(|g| g.map(|m| m.as_str().to_string())).collect(),
        ),
        Err(_) => None,
    }
}

/// `Regex::captures_iter` of the `regex` crate: the groups of every match,
/// in order, as owned strings; empty where the pattern does not compile.
#[verifier::external_body]
pub(crate) fn captures_all(pattern: &str, text: &str) -> (all: Vec<Vec<Option<String>>>)
    ensures
        all.deep_view() == regex_captures_all(pattern@, text@),
{
    match regex::Regex::new(pattern) {
        Ok(re) => re.captures_iter(text).map(
            |c| c.iter().map(|g| g.map(|m| m.as_str().to_string())).collect(),
        ).collect(),
        Err(_) => Vec::new(),
    }
}

/// `Regex::replace` of the `regex` crate: the text after replacing the
/// leftmost match; the text unchanged where the pattern does not compile.
#[verifier::external_body]
pub(crate) fn replace(pattern: &str, text: &str, rep: &str) -> (r: String)
    ensures
        r@ == regex_replace(pattern@, text@, rep@),
{
    match regex::Regex::new(pattern) {
        Ok(re) => re.replace(text, rep).into_owned(),
        Err(_) => text.to_string(),
    }
}

/// `Regex::replace_all` of the `regex` crate: the text after replacing every
/// match; the text unchanged where the pattern does not compile.
#[verifier::external_body]
pub(crate) fn replace_all(pattern: &str, text: &str, rep: &str) -> (r: String)
    ensures
        r@ == regex_replace_all(pattern@, text@, rep@),
{
    match regex::Regex::new(pattern) {
        Ok(re) => re.replace_all(text, rep).into_owned(),
        Err(_) => text.to_string(),
    }
}

/// The characters of group `k` of a match; empty when the group is absent.
pub fn group(groups: &Vec<Option<String>>, k: usize) -> (t: Vec<char>)
    ensures
        t@ == group_text(groups.deep_view(), k as int),
{
    if k < groups.len() {
        match &groups[k] {
            Some(s) => crate::text::chars_of(s.as_str()),
            None => Vec::new(),
        }
    } else {
        Vec::new()
    }
}

/// Whether group `k` took part in a match.
pub fn has_group(groups: &Vec<Option<String>>, k: usize) -> (b: bool)
    ensures
        b == group_present(groups.deep_view(), k as int),
{
    k < groups.len() && groups[k].is_some()
}

} // verus!
