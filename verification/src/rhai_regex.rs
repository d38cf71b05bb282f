//! Regular expressions for scripts: compiling, searching, replacing and
//! splitting, with matches reported as plain values.

use vstd::prelude::*;
use vstd::string::StringSliceAdditionalSpecFns;
use vstd::utf8::{encode_utf8, is_char_boundary, valid_utf8};

verus! {

/// A compiled regular expression of the regex crate.
#[verifier::external_type_specification]
#[verifier::external_body]
pub struct ExCompiled(regex::Regex);

/// Why the regex crate refused a pattern.
#[verifier::external_type_specification]
#[verifier::external_body]
pub struct ExRefusal(regex::Error);

/// What `regex::Regex::new` returns for `pattern`.
pub uninterp spec fn compiled(pattern: Seq<char>) -> Result<regex::Regex, regex::Error>;

/// The text that a refusal displays as.
pub uninterp spec fn refusal_text(refusal: regex::Error) -> Seq<char>;

/// The byte offsets of the start and the end of the leftmost match that
/// `regex::Regex::find_at` finds in `text` when it searches from the byte
/// offset `start`, if it finds one.
pub uninterp spec fn match_span(regex: regex::Regex, text: Seq<char>, start: int) -> Option<
    (usize, usize),
>;

/// Whether `regex::Regex::is_match_at` finds a match in `text` when it
/// searches from the byte offset `start`.
pub uninterp spec fn has_match(regex: regex::Regex, text: Seq<char>, start: int) -> bool;

/// What `regex::Regex::replacen` makes of `text`: the first `limit`
/// matches, or all of them where `limit` is 0, give way to the expansion of
/// `rep`.
pub uninterp spec fn replaced(regex: regex::Regex, text: Seq<char>, limit: int, rep: Seq<char>) -> Seq<
    char,
>;

/// The parts of `text` between the matches, as `regex::Regex::split` hands
/// them out.
pub uninterp spec fn split_parts(regex: regex::Regex, text: Seq<char>) -> Seq<Seq<char>>;

/// The at most `limit` parts of `text` that `regex::Regex::splitn` hands
/// out.
pub uninterp spec fn splitn_parts(regex: regex::Regex, text: Seq<char>, limit: int) -> Seq<
    Seq<char>,
>;

/// A match, as a script sees it: the matched text and the byte offsets of
/// its start and end. Where nothing matched, the text is empty and both
/// offsets are 0.
#[derive(Clone, Debug, PartialEq, Eq)]
pub struct RhaiMatch {
    pub text: String,
    pub start: usize,
    pub end: usize,
}

/// A pattern that could not be compiled: the function that was asked and
/// the message of the regex crate.
#[derive(Clone, Debug, PartialEq, Eq)]
pub struct PatternError {
    pub function: String,
    pub message: String,
}

/// The text of a match.
pub fn match_get_text(m: &RhaiMatch) -> (text: String)
    ensures
        text@ == m.text@,
{
    m.text.clone()
}

/// The byte offset at which a match starts.
pub fn match_get_start(m: &RhaiMatch) -> (start: usize)
    ensures
        start == m.start,
{
    m.start
}

/// The byte offset at which a match ends.
pub fn match_get_end(m: &RhaiMatch) -> (end: usize)
    ensures
        end == m.end,
{
    m.end
}

/// Calls `regex::Regex::new`, whose outcome depends on the pattern alone.
#[verifier::external_body]
fn compile(pattern: &str) -> (outcome: Result<regex::Regex, regex::Error>)
    ensures
        outcome == compiled(pattern@),
{
    regex::Regex::new(pattern)
}

/// Formats a refusal as the regex crate displays it.
#[verifier::external_body]
fn text_of_refusal(refusal: &regex::Error) -> (text: String)
    ensures
        text@ == refusal_text(*refusal),
{
    format!("{}", refusal)
}

/// Calls `regex::Regex::find_at` and returns the offsets of the match. The
/// crate documents that the start of a match is not behind its end, that
/// both lie within the text and that both fall between characters. The
/// call panics where `start` is beyond the end of the text.
#[verifier::external_body]
fn find_span(regex: &regex::Regex, text: &str, start: usize) -> (span: Option<(usize, usize)>)
    requires
        start <= text.spec_bytes().len(),
    ensures
        span == match_span(*regex, text@, start as int),
        span matches Some((from, to)) ==> {
            &&& from <= to <= text.spec_bytes().len()
            &&& is_char_boundary(text.spec_bytes(), from as int)
            &&& is_char_boundary(text.spec_bytes(), to as int)
        },
{
    match regex.find_at(text, start) {
        Some(found) => Some((found.start(), found.end())),
        None => None,
    }
}

/// Compiles a pattern. A pattern that the regex crate refuses gives the
/// message of the crate, under the name of the function.
pub fn regex_new(re: &str) -> (outcome: Result<regex::Regex, PatternError>)
    ensures
        match outcome {
            Ok(regex) => compiled(re@) == Ok::<regex::Regex, regex::Error>(regex),
            Err(error) => {
                &&& compiled(re@) matches Err(refusal)
                &&& error.message@ == refusal_text(refusal)
                &&& error.function@ == "new_regex"@
            },
        },
{
    match compile(re) {
        Ok(regex) => Ok(regex),
        Err(refusal) => Err(
            PatternError { function: "new_regex".to_owned(), message: text_of_refusal(&refusal) },
        ),
    }
}

/// What a script is told of a search that found `span` in `text`.
pub open spec fn reported(m: RhaiMatch, text: Seq<char>, span: Option<(usize, usize)>) -> bool {
    match span {
        Some((from, to)) => {
            &&& m.start == from
            &&& m.end == to
            &&& encode_utf8(m.text@) == encode_utf8(text).subrange(from as int, to as int)
        },
        None => m.text@.len() == 0 && m.start == 0 && m.end == 0,
    }
}

/// Reports a span of `text` as a match.
pub fn report(text: &str, span: Option<(usize, usize)>) -> (m: RhaiMatch)
    requires
        span matches Some((from, to)) ==> {
            &&& from <= to <= text.spec_bytes().len()
            &&& is_char_boundary(text.spec_bytes(), from as int)
            &&& is_char_boundary(text.spec_bytes(), to as int)
        },
    ensures
        reported(m, text@, span),
{
    match span {
        Some((from, to)) => {
            let (head, _) = text.split_at(to);
            proof {
                vstd::utf8::encode_utf8_valid_utf8(text@);
                lemma_boundary_of_prefix(text.spec_bytes(), to as int, from as int);
            }
            let (_, middle) = head.split_at(from);
            assert(middle.spec_bytes() =~= text.spec_bytes().subrange(from as int, to as int));
            RhaiMatch { text: middle.to_owned(), start: from, end: to }
        },
        None => RhaiMatch { text: String::new(), start: 0, end: 0 },
    }
}

/// A place between characters of a text is a place between characters of
/// each prefix of the text that reaches it and ends between characters.
proof fn lemma_boundary_of_prefix(bytes: Seq<u8>, to: int, from: int)
    requires
        valid_utf8(bytes),
        0 <= from <= to <= bytes.len(),
        is_char_boundary(bytes, from),
        is_char_boundary(bytes, to),
    ensures
        is_char_boundary(bytes.subrange(0, to), from),
{
    let prefix = bytes.subrange(0, to);
    vstd::utf8::valid_utf8_split(bytes, to);
    if from == to {
        vstd::utf8::is_char_boundary_start_end_of_seq(prefix);
    } else {
        vstd::utf8::is_char_boundary_iff_not_is_continuation_byte(bytes, from);
        vstd::utf8::is_char_boundary_iff_not_is_continuation_byte(prefix, from);
    }
}

/// Searches `text` for the leftmost match.
pub fn regex_find(regex: &regex::Regex, text: &str) -> (m: RhaiMatch)
    ensures
        reported(m, text@, match_span(*regex, text@, 0)),
{
    let span = find_span(regex, text, 0);
    report(text, span)
}

/// Searches `text` for the leftmost match at or behind the byte offset
/// `start`, which must not be beyond the end of the text.
pub fn regex_find_at(regex: &regex::Regex, text: &str, start: usize) -> (m: RhaiMatch)
    requires
        start <= text.spec_bytes().len(),
    ensures
        reported(m, text@, match_span(*regex, text@, start as int)),
{
    let span = find_span(regex, text, start);
    report(text, span)
}

/// Whether `text` holds a match: `regex::Regex::is_match`, which searches
/// from the start of the text.
#[verifier::external_body]
pub fn regex_is_match(regex: &regex::Regex, text: &str) -> (found: bool)
    ensures
        found == has_match(*regex, text@, 0),
{
    regex.is_match(text)
}

/// Whether `text` holds a match at or behind the byte offset `start`:
/// `regex::Regex::is_match_at`, which panics where `start` is beyond the end
/// of the text.
#[verifier::external_body]
pub fn regex_is_match_at(regex: &regex::Regex, text: &str, start: usize) -> (found: bool)
    requires
        start <= text.spec_bytes().len(),
    ensures
        found == has_match(*regex, text@, start as int),
{
    regex.is_match_at(text, start)
}

/// Replaces the first match: `regex::Regex::replace`, which is `replacen`
/// with a limit of 1.
#[verifier::external_body]
pub fn regex_replace(regex: &regex::Regex, text: &str, rep: &str) -> (out: String)
    ensures
        out@ == replaced(*regex, text@, 1, rep@),
{
    regex.replace(text, rep).to_string()
}

/// Replaces the first `limit` matches, or all where `limit` is 0:
/// `regex::Regex::replacen`.
#[verifier::external_body]
pub fn regex_replacen(regex: &regex::Regex, text: &str, limit: usize, rep: &str) -> (out: String)
    ensures
        out@ == replaced(*regex, text@, limit as int, rep@),
{
    regex.replacen(text, limit, rep).to_string()
}

/// Replaces every match: `regex::Regex::replace_all`, which is `replacen`
/// with a limit of 0.
#[verifier::external_body]
pub fn regex_replacen_all(regex: &regex::Regex, text: &str, rep: &str) -> (out: String)
    ensures
        out@ == replaced(*regex, text@, 0, rep@),
{
    regex.replace_all(text, rep).to_string()
}

/// The at most `limit` parts that `regex::Regex::splitn` hands out.
#[verifier::external_body]
pub fn regex_splitn(regex: &regex::Regex, text: &str, limit: usize) -> (parts: Vec<String>)
    ensures
        parts.deep_view() == splitn_parts(*regex, text@, limit as int),
{
    regex.splitn(text, limit).map(|part| part.to_string()).collect()
}

/// The parts that `regex::Regex::split` hands out.
#[verifier::external_body]
pub fn regex_split(regex: &regex::Regex, text: &str) -> (parts: Vec<String>)
    ensures
        parts.deep_view() == split_parts(*regex, text@),
{
    regex.split(text).map(|part| part.to_string()).collect()
}

} // verus!
