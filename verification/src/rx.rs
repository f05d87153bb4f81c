use vstd::prelude::*;

use crate::matching::group_views;
use crate::route::{pattern_source, to_pattern_source};
use crate::types::{container_models, Container, Options};

verus! {

#[verifier::external_type_specification]
#[verifier::external_body]
pub struct ExFancyRegex(fancy_regex::Regex);

#[verifier::external_type_specification]
#[verifier::external_body]
pub struct ExFancyError(fancy_regex::Error);

/// Whether the regex engine accepts a pattern source text.  Acceptance is a
/// function of the text alone.
pub uninterp spec fn regex_compiles(pattern: Seq<char>) -> bool;

/// The pattern source text that a compiled regex was built from.  A regex
/// object determines its source (the engine keeps it and hands it back
/// through `Regex::as_str`).
pub uninterp spec fn source_of(re: fancy_regex::Regex) -> Seq<char>;

/// The capture groups the engine reports when the given regex is run against
/// a text from position 0: `None` when the regex does not match (an engine
/// error counts as no match), otherwise the groups in index order, group 0
/// the whole match, and `None` for a group that did not participate.
/// Matching is a function of the regex and the text alone.
pub uninterp spec fn captures_of(re: fancy_regex::Regex, text: Seq<char>) -> Option<
    Seq<Option<Seq<char>>>,
>;

/// The views of an engine response: each group's text, kept exactly.
pub open spec fn captures_views(r: Option<Vec<Option<String>>>) -> Option<Seq<Option<Seq<char>>>> {
    match r {
        Some(g) => Some(group_views(g@)),
        None => None,
    }
}

/// Relies on `fancy_regex::Regex::new`: it parses and compiles the pattern,
/// returning `Err` exactly when the pattern text cannot be parsed, and the
/// compiled regex keeps the pattern as its source.
#[verifier::external_body]
fn regex_new(pattern: &str) -> (r: Result<fancy_regex::Regex, fancy_regex::Error>)
    ensures
        r is Ok <==> regex_compiles(pattern@),
        r matches Ok(re) ==> source_of(re) == pattern@,
{
    fancy_regex::Regex::new(pattern)
}

/// Relies on `fancy_regex::Regex::captures_from_pos` (at position 0) and
/// `fancy_regex::Captures::get`: when the regex matches, the groups are
/// returned in index order, group 0 being the whole match, and a group is
/// `None` exactly when it did not participate in the match.  An engine error
/// is folded into "no match".
#[verifier::external_body]
pub(crate) fn regex_captures(re: &fancy_regex::Regex, text: &str) -> (r: Option<
    Vec<Option<String>>,
>)
    ensures
        captures_views(r) == captures_of(*re, text@),
        r matches Some(g) ==> g@.len() >= 1 && g@[0] is Some,
{
    match re.captures_from_pos(text, 0) {
        Ok(Some(caps)) => {
            let mut out: Vec<Option<String>> = Vec::new();
            for i in 0..caps.len() {
                out.push(caps.get(i).map(|m| m.as_str().to_string()));
            }
            Some(out)
        },
        _ => None,
    }
}

/// Relies on the `Display` impl of `fancy_regex::Error` for a readable
/// account of why a pattern was rejected.
#[verifier::external_body]
fn error_message(e: &fancy_regex::Error) -> String {
    format!("{}", e)
}

/// The single fatal condition of the library: the regex engine rejected the
/// compiled pattern source (possible only with a caller-supplied capture
/// pattern).
#[derive(Debug)]
pub struct PatternError {
    pub message: String,
}

/// Compile the segment sequence into a regex object of the engine.  The
/// result is `Ok` exactly when the engine accepts the pattern source that
/// `to_pattern_source` yields for these containers and options, and the
/// returned regex is compiled from exactly that source; otherwise the
/// engine's complaint is propagated as a `PatternError`.
pub fn to_regexp(containers: &Vec<Container>, options: Options) -> (r: Result<
    fancy_regex::Regex,
    PatternError,
>)
    ensures
        r is Ok <==> regex_compiles(pattern_source(container_models(containers@), options@)),
        r matches Ok(re) ==> source_of(re) == pattern_source(
            container_models(containers@),
            options@,
        ),
{
    let src = to_pattern_source(containers, &options);
    match regex_new(src.as_str()) {
        Ok(re) => Ok(re),
        Err(e) => Err(PatternError { message: error_message(&e) }),
    }
}

} // verus!
