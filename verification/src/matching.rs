//! The calls into the `regex` crate and into `str::to_lowercase`, each behind
//! a trusted wrapper whose result is named by a specification function.
//!
//! A pattern is handed over as text: each wrapper compiles it with
//! `regex::Regex::new` (a conversion of the pattern) and then makes its call.
use crate::text;
use regex::Regex;
use vstd::prelude::*;

verus! {

/// Whether `regex::Regex::new` accepts the pattern.
pub uninterp spec fn regex_compiles(pattern: Seq<char>) -> bool;

/// What `regex::Regex::is_match` answers for the compiled pattern on `text`.
pub uninterp spec fn regex_matches(pattern: Seq<char>, text: Seq<char>) -> bool;

/// The text of capture group `group` in the first match of the pattern in
/// `text` (`Regex::captures`, then `Captures::get`, then `Match::as_str`);
/// `None` when there is no match or the group took no part in it.
pub uninterp spec fn regex_group(pattern: Seq<char>, text: Seq<char>, group: nat) -> Option<
    Seq<char>,
>;

/// What `regex::Regex::replace` gives with an empty replacement: `text` with
/// the first match of the pattern removed.
pub uninterp spec fn regex_removed_first(pattern: Seq<char>, text: Seq<char>) -> Seq<char>;

/// What `regex::Regex::replace_all` gives with an empty replacement: `text`
/// with all non-overlapping matches of the pattern removed.
pub uninterp spec fn regex_removed_all(pattern: Seq<char>, text: Seq<char>) -> Seq<char>;

/// What `str::to_lowercase` gives on a text that is not all ASCII (the
/// Unicode lowercase mapping).
pub uninterp spec fn unicode_lowercase(s: Seq<char>) -> Seq<char>;

/// What `str::to_lowercase` gives: on an ASCII text, each of `A`..`Z`
/// becomes `a`..`z` and every other character stays; otherwise the Unicode
/// lowercase mapping.
pub open spec fn lowercase(s: Seq<char>) -> Seq<char> {
    if text::is_ascii_text(s) {
        text::ascii_lower(s)
    } else {
        unicode_lowercase(s)
    }
}

/// Calls `regex::Regex::new` and says whether it returned `Ok`: the claim is
/// only that the answer is a function of the pattern alone.
#[verifier::external_body]
pub(crate) fn pattern_compiles(pattern: &str) -> (res: bool)
    ensures
        res == regex_compiles(pattern@),
{
    Regex::new(pattern).is_ok()
}

/// Calls `regex::Regex::is_match` on the compiled pattern; the claim is only
/// that the answer is a function of the pattern and the text.
#[verifier::external_body]
pub(crate) fn pattern_is_match(pattern: &str, text: &str) -> (res: bool)
    requires
        regex_compiles(pattern@),
    ensures
        res == regex_matches(pattern@, text@),
{
    match Regex::new(pattern) {
        Ok(re) => re.is_match(text),
        Err(_) => false,
    }
}

/// Calls `regex::Regex::captures` on the compiled pattern and reads group
/// `group` of the result; the claim is only that the outcome is a function
/// of the pattern, the text and the group number.
#[verifier::external_body]
pub(crate) fn pattern_group(pattern: &str, text: &str, group: usize) -> (res: Option<String>)
    requires
        regex_compiles(pattern@),
    ensures
        res matches Some(g) ==> regex_group(pattern@, text@, group as nat) == Some(g@),
        res is None ==> regex_group(pattern@, text@, group as nat) is None,
{
    match Regex::new(pattern) {
        Ok(re) => match re.captures(text) {
            Some(caps) => match caps.get(group) {
                Some(m) => Some(m.as_str().to_string()),
                None => None,
            },
            None => None,
        },
        Err(_) => None,
    }
}

/// Calls `regex::Regex::replace` on the compiled pattern with an empty
/// replacement; the claim is only that the result is a function of the
/// pattern and the text.
#[verifier::external_body]
pub(crate) fn pattern_remove_first(pattern: &str, text: &str) -> (res: String)
    requires
        regex_compiles(pattern@),
    ensures
        res@ == regex_removed_first(pattern@, text@),
{
    match Regex::new(pattern) {
        Ok(re) => re.replace(text, "").into_owned(),
        Err(_) => String::new(),
    }
}

/// Calls `regex::Regex::replace_all` on the compiled pattern with an empty
/// replacement; the claim is only that the result is a function of the
/// pattern and the text.
#[verifier::external_body]
pub(crate) fn pattern_remove_all(pattern: &str, text: &str) -> (res: String)
    requires
        regex_compiles(pattern@),
    ensures
        res@ == regex_removed_all(pattern@, text@),
{
    match Regex::new(pattern) {
        Ok(re) => re.replace_all(text, "").into_owned(),
        Err(_) => String::new(),
    }
}

/// Calls `str::to_lowercase`. The claim: on an ASCII text it maps `A`..`Z`
/// to `a`..`z` and keeps every other character (the Unicode lowercase
/// mapping restricted to ASCII, with no context rule that applies there);
/// on other texts only that the result is a function of the text.
#[verifier::external_body]
pub(crate) fn to_lower(s: &str) -> (res: String)
    ensures
        text::is_ascii_text(s@) ==> res@ == text::ascii_lower(s@),
        !text::is_ascii_text(s@) ==> res@ == unicode_lowercase(s@),
{
    s.to_lowercase()
}

} // verus!
