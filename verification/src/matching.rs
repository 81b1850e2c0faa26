use vstd::prelude::*;

use crate::detectors::prompt::strings_view;

verus! {

/// What `regex::Regex::new` makes of a pattern: `Ok` when it compiles, else
/// the error's message.
pub uninterp spec fn regex_compile_outcome(pattern: Seq<char>) -> Result<(), Seq<char>>;

/// Whether `Regex::is_match` finds a match of the compiled pattern in the text.
pub uninterp spec fn regex_matches(pattern: Seq<char>, text: Seq<char>) -> bool;

/// What `Regex::replace_all` returns for the compiled pattern, text and
/// replacement.
pub uninterp spec fn regex_replaced(pattern: Seq<char>, text: Seq<char>, rep: Seq<char>) -> Seq<
    char,
>;

pub open spec fn regex_ok(pattern: Seq<char>) -> bool {
    regex_compile_outcome(pattern) is Ok
}

/// Compiles `pattern` with `regex::Regex::new` and reports whether it
/// compiled, or the error's message. The outcome is named, nothing more.
#[verifier::external_body]
pub(crate) fn regex_check(pattern: &str) -> (r: Result<(), String>)
    ensures
        match r {
            Ok(()) => regex_compile_outcome(pattern@) == Ok::<(), Seq<char>>(()),
            Err(m) => regex_compile_outcome(pattern@) == Err::<(), Seq<char>>(m@),
        },
{
    match regex::Regex::new(pattern) {
        Ok(_) => Ok(()),
        Err(e) => Err(e.to_string()),
    }
}

/// `Regex::new(pattern)` then `is_match(text)`: whether the pattern matches
/// anywhere in the text. The result is named, nothing more.
#[verifier::external_body]
pub(crate) fn regex_is_match(pattern: &str, text: &str) -> (r: bool)
    requires
        regex_ok(pattern@),
    ensures
        r == regex_matches(pattern@, text@),
{
    regex::Regex::new(pattern).expect("pattern compiles").is_match(text)
}

/// `Regex::new(pattern)` then `replace_all(text, rep)`. The result is
/// named; the one fact stated besides is the documented one that a text without a match comes back unchanged.
#[verifier::external_body]
pub(crate) fn regex_replace_all(pattern: &str, text: &str, rep: &str) -> (r: String)
    requires
        regex_ok(pattern@),
    ensures
        r@ == regex_replaced(pattern@, text@, rep@),
        !regex_matches(pattern@, text@) ==> r@ == text@,
{
    regex::Regex::new(pattern).expect("pattern compiles").replace_all(text, rep).into_owned()
}

/// What `AhoCorasickBuilder` (ASCII case-insensitive, leftmost-first) makes
/// of a pattern list: `Ok` when the automaton builds, else the error's message.
pub uninterp spec fn ac_build_outcome(patterns: Seq<Seq<char>>) -> Result<(), Seq<char>>;

/// The matches that `find_iter` reports on the text for the automaton built
/// from the patterns, in order: pattern index, start byte, end byte.
pub uninterp spec fn ac_hits(patterns: Seq<Seq<char>>, text: Seq<char>) -> Seq<(usize, usize, usize)>;

pub open spec fn ac_ok(patterns: Seq<Seq<char>>) -> bool {
    ac_build_outcome(patterns) is Ok
}

/// Builds the automaton the injection detector uses (ASCII case-insensitive,
/// leftmost-first) and reports whether it built, or the error's message.
/// The outcome is named, nothing more.
#[verifier::external_body]
pub(crate) fn ac_check(patterns: &Vec<String>) -> (r: Result<(), String>)
    ensures
        match r {
            Ok(()) => ac_build_outcome(strings_view(patterns@)) == Ok::<(), Seq<char>>(()),
            Err(m) => ac_build_outcome(strings_view(patterns@)) == Err::<(), Seq<char>>(m@),
        },
{
    match aho_corasick::AhoCorasickBuilder::new()
        .ascii_case_insensitive(true)
        .match_kind(aho_corasick::MatchKind::LeftmostFirst)
        .build(patterns) {
        Ok(_) => Ok(()),
        Err(e) => Err(e.to_string()),
    }
}

/// Builds the same automaton and lists what `find_iter` yields on `text`:
/// pattern index, start and end byte of each match. The list is named,
/// nothing more.
#[verifier::external_body]
pub(crate) fn ac_find_all(patterns: &Vec<String>, text: &str) -> (r: Vec<(usize, usize, usize)>)
    requires
        ac_ok(strings_view(patterns@)),
    ensures
        r@ == ac_hits(strings_view(patterns@), text@),
{
    aho_corasick::AhoCorasickBuilder::new()
        .ascii_case_insensitive(true)
        .match_kind(aho_corasick::MatchKind::LeftmostFirst)
        .build(patterns)
        .expect("automaton builds")
        .find_iter(text)
        .map(|m| (m.pattern().as_usize(), m.start(), m.end()))
        .collect()
}

} // verus!
