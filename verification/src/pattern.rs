//! Compiled regular expressions (the `regex` crate), held together with their
//! source text so that contracts can speak of what a search returns.

use regex::Regex;
use vstd::prelude::*;

verus! {

broadcast use vstd::string::group_string_axioms;

#[verifier::external_type_specification]
#[verifier::external_body]
pub struct ExRegex(Regex);

#[verifier::external_type_specification]
#[verifier::external_body]
pub struct ExRegexError(regex::Error);

/// Whether `Regex::new` accepts the pattern (it refuses invalid syntax and
/// patterns over its default size limit).
pub uninterp spec fn pattern_compiles(pattern: Seq<char>) -> bool;

/// What `captures_iter` yields on `haystack`, each match reduced to the text of
/// capture group `group` (`None` where the group did not take part).
pub uninterp spec fn pattern_group_captures(
    pattern: Seq<char>,
    haystack: Seq<char>,
    group: nat,
) -> Seq<Option<Seq<char>>>;

/// The texts of the successive non-overlapping matches that `find_iter` yields.
pub uninterp spec fn pattern_matches(pattern: Seq<char>, haystack: Seq<char>) -> Seq<Seq<char>>;

/// A compiled regular expression together with the pattern it was compiled from.
pub struct TextPattern {
    source: String,
    regex: Regex,
}

impl View for TextPattern {
    type V = Seq<char>;

    /// The pattern the expression was compiled from.
    closed spec fn view(&self) -> Seq<char> {
        self.source@
    }
}

/// The views of a sequence of strings.
pub open spec fn string_views(v: Seq<String>) -> Seq<Seq<char>> {
    v.map_values(|s: String| s@)
}

/// The views of a sequence of optional strings.
pub open spec fn option_string_views(v: Seq<Option<String>>) -> Seq<Option<Seq<char>>> {
    v.map_values(
        |o: Option<String>|
            match o {
                Some(s) => Some(s@),
                None => None,
            },
    )
}

/// Calls `Regex::new`. Claimed: it succeeds exactly when the pattern compiles,
/// a property of the pattern text alone, and the value returned remembers that
/// text.
#[verifier::external_body]
pub(crate) fn compile_pattern(source: &str) -> (res: Result<TextPattern, regex::Error>)
    ensures
        res is Ok <==> pattern_compiles(source@),
        res matches Ok(p) ==> p@ == source@,
{
    match Regex::new(source) {
        Ok(regex) => Ok(TextPattern { source: source.to_string(), regex }),
        Err(e) => Err(e),
    }
}

/// Calls `Regex::captures_iter`, reading group `group` of each match with
/// `Captures::get`. Claimed: the texts come back in match order and depend on
/// the pattern, the haystack and the group alone.
#[verifier::external_body]
pub(crate) fn group_captures(pattern: &TextPattern, haystack: &str, group: usize) -> (res: Vec<
    Option<String>,
>)
    ensures
        option_string_views(res@) == pattern_group_captures(pattern@, haystack@, group as nat),
{
    pattern.regex.captures_iter(haystack).map(|caps| caps.get(group).map(|m| m.as_str().to_string())).collect()
}

/// Calls `Regex::find_iter`. Claimed: the matched texts come back in order and
/// depend on the pattern and the haystack alone.
#[verifier::external_body]
pub(crate) fn find_all(pattern: &TextPattern, haystack: &str) -> (res: Vec<String>)
    ensures
        string_views(res@) == pattern_matches(pattern@, haystack@),
{
    pattern.regex.find_iter(haystack).map(|m| m.as_str().to_string()).collect()
}

} // verus!
