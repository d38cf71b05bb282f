//! Preparing the texts of a feed: removal of unpaired delimiters, escaping
//! for LaTeX, and telling static assets apart.

use crate::balance::{balanced, lemma_balanced_unchanged, lemma_result_balanced};
use crate::rhai_regex::{compiled, regex_new, regex_replacen_all, replaced};
use crate::text::{
    chars_of, ends_with, has_suffix, reversed, string_of, trim_matches, without, without_leading,
    without_trailing,
};
use vstd::prelude::*;

verus! {

/// The pattern of a character that LaTeX reads as a command, behind a
/// character that is no backslash.
pub const LATEX_PATTERN: &'static str = r"(?P<pre>[^\\])(?P<tex>[%&_])";

/// What a match of `LATEX_PATTERN` gives way to: the same two characters
/// with a backslash between them.
pub const LATEX_REPLACEMENT: &'static str = "$pre\\$tex";

/// What `html_escape::decode_html_entities` makes of `text`.
pub uninterp spec fn html_decoded(text: Seq<char>) -> Seq<char>;

/// Calls `html_escape::decode_html_entities`, whose result depends on the
/// text alone.
#[verifier::external_body]
pub(crate) fn decode_html(text: &str) -> (decoded: String)
    ensures
        decoded@ == html_decoded(text@),
{
    html_escape::decode_html_entities(text).to_string()
}

/// The index of the first `closing` at or after `from` that no earlier
/// `opening` at or after `from` is left to pair with, when `depth` openings
/// are already waiting; `None` when there is no such character.
pub open spec fn first_unmatched(
    s: Seq<char>,
    opening: char,
    closing: char,
    from: int,
    depth: nat,
) -> Option<int>
    decreases s.len() - from,
{
    if from < 0 || from >= s.len() {
        None
    } else if s[from] == opening {
        first_unmatched(s, opening, closing, from + 1, depth + 1)
    } else if s[from] == closing {
        if depth == 0 {
            Some(from)
        } else {
            first_unmatched(s, opening, closing, from + 1, (depth - 1) as nat)
        }
    } else {
        first_unmatched(s, opening, closing, from + 1, depth)
    }
}

/// The pass that the search is in: 1 while it removes unpaired closings
/// reading forwards, 0 once the text is reversed and the two delimiters
/// have changed roles.
pub open spec fn pass_of(opening: char, top_opening: char) -> nat {
    if opening == top_opening {
        1
    } else {
        0
    }
}

/// What the search appends for the text `s`, scanned from `from`, when no
/// closing before `last_removed` may be removed any more.
///
/// Where the scan meets no unmatched closing, the text is reversed; in the
/// first pass the search then runs once more on the reversed text with the
/// delimiters exchanged, and in the second pass the reversed text (which
/// reads forwards again) is the result. Where the scan stops at an unmatched
/// closing, every removal that `unpair_removals` lists is followed up.
pub open spec fn unpair_inner(
    s: Seq<char>,
    opening: char,
    closing: char,
    top_opening: char,
    from: int,
    last_removed: int,
) -> Seq<char>
    decreases pass_of(opening, top_opening), s.len(), 1nat, 0nat,
{
    match first_unmatched(s, opening, closing, from, 0) {
        None => if opening == top_opening && opening != closing {
            unpair_inner(s.reverse(), closing, opening, top_opening, 0, 0)
        } else {
            s.reverse()
        },
        Some(stop) => unpair_removals(s, opening, closing, top_opening, stop, last_removed),
    }
}

/// The results, one after the other, of removing from `s` each `closing`
/// at an index `j..=stop` that begins a run of closings, and searching on
/// from `stop` in what is left.
pub open spec fn unpair_removals(
    s: Seq<char>,
    opening: char,
    closing: char,
    top_opening: char,
    stop: int,
    j: int,
) -> Seq<char>
    decreases pass_of(opening, top_opening), s.len(), 0nat, stop + 1 - j,
{
    if j < 0 || j > stop || stop >= s.len() {
        Seq::empty()
    } else {
        let here = if s[j] == closing && (j == 0 || s[j - 1] != closing) {
            unpair_inner(s.remove(j), opening, closing, top_opening, stop, j)
        } else {
            Seq::empty()
        };
        here + unpair_removals(s, opening, closing, top_opening, stop, j + 1)
    }
}

/// Searches `s` for unpaired delimiters and appends to `removed` every text
/// that the search arrives at.
pub fn remove_unpair_inner(
    s: Vec<char>,
    removed: &mut Vec<char>,
    opening: char,
    closing: char,
    top_opening: char,
    i: usize,
    last_removed: usize,
)
    requires
        opening != closing,
    ensures
        final(removed)@ == old(removed)@ + unpair_inner(
            s@,
            opening,
            closing,
            top_opening,
            i as int,
            last_removed as int,
        ),
    decreases pass_of(opening, top_opening), s.len(),
{
    let start: usize = i;
    let mut i: usize = i;
    let mut depth: usize = 0;
    let mut unmatched: bool = false;
    while i < s.len() && !unmatched
        invariant
            start <= i,
            i <= s.len() || i == start,
            depth <= i - start,
            unmatched ==> start < i <= s.len(),
            first_unmatched(s@, opening, closing, start as int, 0) == if unmatched {
                Some(i - 1)
            } else {
                first_unmatched(s@, opening, closing, i as int, depth as nat)
            },
        decreases s.len() - i + if unmatched { 0int } else { 1int },
    {
        if s[i] == opening {
            depth += 1;
        } else if s[i] == closing {
            if depth == 0 {
                unmatched = true;
            } else {
                depth -= 1;
            }
        }
        i += 1;
    }
    if !unmatched {
        let mut rev = reversed(&s);
        if opening == top_opening {
            remove_unpair_inner(rev, removed, closing, opening, top_opening, 0, 0);
        } else {
            removed.append(&mut rev);
        }
    } else {
        let stop: usize = i - 1;
        let ghost before = removed@;
        let ghost all = unpair_removals(
            s@,
            opening,
            closing,
            top_opening,
            stop as int,
            last_removed as int,
        );
        let mut j: usize = last_removed;
        while j < i
            invariant
                opening != closing,
                i == stop + 1,
                stop < s.len(),
                before + all == removed@ + unpair_removals(
                    s@,
                    opening,
                    closing,
                    top_opening,
                    stop as int,
                    j as int,
                ),
            decreases i - j,
        {
            let ghost so_far = removed@;
            let ghost rest = unpair_removals(
                s@,
                opening,
                closing,
                top_opening,
                stop as int,
                j + 1,
            );
            if s[j] == closing && (j == 0 || s[j - 1] != closing) {
                let shorter = without(&s, j);
                proof {
                    s@.remove_ensures(j as int);
                }
                remove_unpair_inner(shorter, removed, opening, closing, top_opening, stop, j);
            }
            assert(removed@ + rest =~= so_far + unpair_removals(
                s@,
                opening,
                closing,
                top_opening,
                stop as int,
                j as int,
            ));
            j += 1;
        }
        assert(removed@ =~= before + all);
    }
}

/// Removes from `s` the delimiters that have no partner.
///
/// The search first drops closings that no earlier opening pairs with, then,
/// reading backwards, openings that no later closing pairs with. Where
/// several choices do, the result holds each outcome, one after the other
/// (`unpair_inner`). The result is balanced, and a balanced text comes back
/// as it is. The two delimiters must differ.
pub fn remove_unpair(s: &str, opening: char, closing: char) -> (text: String)
    requires
        opening != closing,
    ensures
        text@ == unpair_inner(s@, opening, closing, opening, 0, 0),
        balanced(text@, opening, closing),
        balanced(s@, opening, closing) ==> text@ == s@,
{
    let mut removed: Vec<char> = Vec::new();
    let chars = chars_of(s);
    remove_unpair_inner(chars, &mut removed, opening, closing, opening, 0, 0);
    assert(removed@ =~= unpair_inner(s@, opening, closing, opening, 0, 0));
    proof {
        lemma_result_balanced(s@, opening, closing);
        if balanced(s@, opening, closing) {
            lemma_balanced_unchanged(s@, opening, closing);
        }
    }
    string_of(&removed)
}

/// `text` with a backslash before each `%`, `&` and `_` that stands behind
/// a character other than a backslash, as the regex crate replaces all
/// matches of `LATEX_PATTERN`.
pub open spec fn latex_specials_escaped(text: Seq<char>) -> Seq<char> {
    match compiled(LATEX_PATTERN@) {
        Ok(regex) => replaced(regex, text, 0, LATEX_REPLACEMENT@),
        Err(_) => text,
    }
}

/// Puts a backslash before the characters `%`, `&` and `_` of `text`, as
/// far as the matches of `LATEX_PATTERN` reach them: a character at the very
/// start of the text, behind a backslash, or right behind another match is
/// left as it is. Should the pattern not compile, the text comes back
/// unchanged.
pub fn escape_latex_specials(text: &str) -> (escaped: String)
    ensures
        escaped@ == latex_specials_escaped(text@),
{
    match regex_new(LATEX_PATTERN) {
        Ok(regex) => regex_replacen_all(&regex, text, LATEX_REPLACEMENT),
        Err(_) => text.to_owned(),
    }
}

/// What `latex_escape` makes of `input`: the HTML entities are decoded,
/// the paragraph tags around the text are taken off, braces without a
/// partner are removed, and the characters that LaTeX reads as commands are
/// escaped.
pub open spec fn latex_escaped(input: Seq<char>) -> Seq<char> {
    let bare = without_trailing(without_leading(html_decoded(input), "<p>"@), "</p>"@);
    latex_specials_escaped(unpair_inner(bare, '{', '}', '{', 0, 0))
}

/// Prepares a text of a feed for LaTeX.
pub fn latex_escape(input: &str) -> (text: String)
    ensures
        text@ == latex_escaped(input@),
{
    let decoded = decode_html(input);
    let chars = chars_of(decoded.as_str());
    let bare = trim_matches(&chars, &chars_of("<p>"), &chars_of("</p>"));
    let mut removed: Vec<char> = Vec::new();
    remove_unpair_inner(bare, &mut removed, '{', '}', '{', 0, 0);
    assert(removed@ =~= unpair_inner(bare@, '{', '}', '{', 0, 0));
    let balanced = string_of(&removed);
    escape_latex_specials(balanced.as_str())
}

/// What is done with a static asset when the site is minified.
#[derive(Clone, Copy, Debug, PartialEq, Eq, Structural)]
pub enum StaticKind {
    /// A script: it is minified as JavaScript.
    Script,
    /// A style sheet: it is minified as CSS.
    Stylesheet,
    /// Any other file: it is copied as it is.
    Other,
}

/// The kind of a static asset, by the ending of its path: `.js` for a
/// script, else `.css` for a style sheet.
pub open spec fn static_kind(path: Seq<char>) -> StaticKind {
    if has_suffix(path, ".js"@) {
        StaticKind::Script
    } else if has_suffix(path, ".css"@) {
        StaticKind::Stylesheet
    } else {
        StaticKind::Other
    }
}

/// Tells by its path what is done with a static asset.
pub fn classify_static(path: &str) -> (kind: StaticKind)
    ensures
        kind == static_kind(path@),
{
    let chars = chars_of(path);
    if ends_with(&chars, &chars_of(".js")) {
        StaticKind::Script
    } else if ends_with(&chars, &chars_of(".css")) {
        StaticKind::Stylesheet
    } else {
        StaticKind::Other
    }
}

} // verus!
