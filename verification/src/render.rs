//! What the template helpers compute: how an instant is written and how a
//! text of a feed is made ready for LaTeX.

use crate::text::{chars_of, contains, contains_text, remove_all, string_of, without_all};
use crate::timestamp::Timestamp;
use crate::utils::{decode_html, html_decoded, remove_unpair_inner, unpair_inner};
use std::fmt::Write;
use vstd::prelude::*;

verus! {

/// How many digits of the second are written.
#[derive(Clone, Copy, Debug, PartialEq, Eq, Structural)]
pub enum Subseconds {
    Secs,
    Millis,
    Micros,
    Nanos,
    AutoSi,
}

/// The way to write an instant.
#[derive(Clone, Debug, PartialEq, Eq)]
pub enum TimeFormat {
    /// As chrono displays it.
    Plain,
    /// As RFC 2822 has it.
    Rfc2822,
    /// As RFC 3339 has it.
    Rfc3339,
    /// As RFC 3339 has it, with the digits of the second and the form of the
    /// offset chosen.
    Rfc3339Opts { secform: Subseconds, use_z: bool },
    /// By a pattern in the manner of `strftime`.
    Pattern(String),
}

/// A way to write an instant, as plain values.
pub enum TimeFormatView {
    Plain,
    Rfc2822,
    Rfc3339,
    Rfc3339Opts { secform: Subseconds, use_z: bool },
    Pattern(Seq<char>),
}

impl View for TimeFormat {
    type V = TimeFormatView;

    open spec fn view(&self) -> TimeFormatView {
        match self {
            TimeFormat::Plain => TimeFormatView::Plain,
            TimeFormat::Rfc2822 => TimeFormatView::Rfc2822,
            TimeFormat::Rfc3339 => TimeFormatView::Rfc3339,
            TimeFormat::Rfc3339Opts { secform, use_z } => TimeFormatView::Rfc3339Opts {
                secform: *secform,
                use_z: *use_z,
            },
            TimeFormat::Pattern(pattern) => TimeFormatView::Pattern(pattern@),
        }
    }
}

/// Why an instant could not be written.
#[derive(Clone, Copy, Debug, PartialEq, Eq, Structural)]
pub enum TimeError {
    /// The format `rfc3339_opts` was asked for without `secform`.
    MissingSecform,
    /// The format `rfc3339_opts` was asked for without `use_z`.
    MissingUseZ,
    /// The instant is outside what the format can write.
    OutOfRange,
    /// The pattern is none that chrono can follow.
    BadPattern,
}

impl TimeError {
    /// The message of the error.
    pub fn message(&self) -> (text: String)
        ensures
            text@ == match *self {
                TimeError::MissingSecform =>
                    "Param secform in [Secs,Millis,Micros,Nanos,AutoSi] required for datetime helper."@,
                TimeError::MissingUseZ => "Param use_z in required for datetime helper."@,
                TimeError::OutOfRange => "The datetime is out of range for the format."@,
                TimeError::BadPattern => "The format of the datetime helper is not valid."@,
            },
    {
        match self {
            TimeError::MissingSecform =>
                "Param secform in [Secs,Millis,Micros,Nanos,AutoSi] required for datetime helper.".to_owned(),
            TimeError::MissingUseZ => "Param use_z in required for datetime helper.".to_owned(),
            TimeError::OutOfRange => "The datetime is out of range for the format.".to_owned(),
            TimeError::BadPattern => "The format of the datetime helper is not valid.".to_owned(),
        }
    }
}

/// The digits of the second that a name stands for; a name that is none of
/// the known ones stands for whole seconds.
pub open spec fn subseconds_named(name: Seq<char>) -> Subseconds {
    if name == "Millis"@ {
        Subseconds::Millis
    } else if name == "Micros"@ {
        Subseconds::Micros
    } else if name == "Nanos"@ {
        Subseconds::Nanos
    } else if name == "AutoSi"@ {
        Subseconds::AutoSi
    } else {
        Subseconds::Secs
    }
}

/// The way to write an instant that the parameters of a helper ask for.
/// Without a format the instant is written plainly; `rfc2822` and `rfc3339`
/// name their formats; `rfc3339_opts` needs `secform` and `use_z`, in this
/// order; any other format is a pattern.
pub open spec fn selected_format(
    fmt: Option<Seq<char>>,
    secform: Option<Seq<char>>,
    use_z: Option<bool>,
) -> Result<TimeFormatView, TimeError> {
    match fmt {
        None => Ok(TimeFormatView::Plain),
        Some(name) => if name == "rfc2822"@ {
            Ok(TimeFormatView::Rfc2822)
        } else if name == "rfc3339"@ {
            Ok(TimeFormatView::Rfc3339)
        } else if name == "rfc3339_opts"@ {
            match secform {
                None => Err(TimeError::MissingSecform),
                Some(digits) => match use_z {
                    None => Err(TimeError::MissingUseZ),
                    Some(z) => Ok(
                        TimeFormatView::Rfc3339Opts { secform: subseconds_named(digits), use_z: z },
                    ),
                },
            }
        } else {
            Ok(TimeFormatView::Pattern(name))
        },
    }
}

/// Whether two texts are the same.
fn same_text(a: &str, b: &str) -> (same: bool)
    ensures
        same == (a@ == b@),
{
    a.to_owned() == b.to_owned()
}

/// Reads the digits of the second from their name.
pub fn subseconds_of(name: &str) -> (digits: Subseconds)
    ensures
        digits == subseconds_named(name@),
{
    if same_text(name, "Millis") {
        Subseconds::Millis
    } else if same_text(name, "Micros") {
        Subseconds::Micros
    } else if same_text(name, "Nanos") {
        Subseconds::Nanos
    } else if same_text(name, "AutoSi") {
        Subseconds::AutoSi
    } else {
        Subseconds::Secs
    }
}

/// Chooses the way to write an instant from the parameters of a helper.
pub fn select_time_format(fmt: Option<&str>, secform: Option<&str>, use_z: Option<bool>) -> (chosen:
    Result<TimeFormat, TimeError>)
    ensures
        match chosen {
            Ok(format) => selected_format(text_view(fmt), text_view(secform), use_z) == Ok::<
                TimeFormatView,
                TimeError,
            >(format@),
            Err(error) => selected_format(text_view(fmt), text_view(secform), use_z) == Err::<
                TimeFormatView,
                TimeError,
            >(error),
        },
{
    match fmt {
        None => Ok(TimeFormat::Plain),
        Some(name) => {
            if same_text(name, "rfc2822") {
                Ok(TimeFormat::Rfc2822)
            } else if same_text(name, "rfc3339") {
                Ok(TimeFormat::Rfc3339)
            } else if same_text(name, "rfc3339_opts") {
                match secform {
                    None => Err(TimeError::MissingSecform),
                    Some(digits) => match use_z {
                        None => Err(TimeError::MissingUseZ),
                        Some(z) => Ok(
                            TimeFormat::Rfc3339Opts { secform: subseconds_of(digits), use_z: z },
                        ),
                    },
                }
            } else {
                Ok(TimeFormat::Pattern(name.to_owned()))
            }
        },
    }
}

/// The first second of the year 0 and the last second of the year 9999:
/// RFC 2822 has no way to write an instant outside these years.
pub const RFC2822_FIRST: i64 = -62_167_219_200;

pub const RFC2822_LAST: i64 = 253_402_300_799;

/// How chrono displays the instant `(secs, nanos)` of the UTC time line, if
/// chrono can hold the instant.
pub uninterp spec fn shown_plain(secs: i64, nanos: u32) -> Option<Seq<char>>;

/// What `DateTime::to_rfc2822` returns for the instant, if chrono can hold
/// it.
pub uninterp spec fn shown_rfc2822(secs: i64, nanos: u32) -> Option<Seq<char>>;

/// What `DateTime::to_rfc3339` returns for the instant, if chrono can hold
/// it.
pub uninterp spec fn shown_rfc3339(secs: i64, nanos: u32) -> Option<Seq<char>>;

/// What `DateTime::to_rfc3339_opts` returns for the instant, if chrono can
/// hold it.
pub uninterp spec fn shown_rfc3339_opts(secs: i64, nanos: u32, secform: Subseconds, use_z: bool) -> Option<
    Seq<char>,
>;

/// What `DateTime::format` with `pattern` displays for the instant, if
/// chrono can hold the instant and follow the pattern.
pub uninterp spec fn shown_by_pattern(secs: i64, nanos: u32, pattern: Seq<char>) -> Option<
    Seq<char>,
>;

/// Makes the `DateTime<Utc>` of an instant with `DateTime::from_timestamp`
/// and displays it. `None` where chrono cannot hold the instant.
#[verifier::external_body]
fn show_plain(secs: i64, nanos: u32) -> (text: Option<String>)
    ensures
        match text {
            Some(t) => shown_plain(secs, nanos) == Some(t@),
            None => shown_plain(secs, nanos) is None,
        },
{
    match chrono::DateTime::from_timestamp(secs, nanos) {
        Some(instant) => Some(instant.to_string()),
        None => None,
    }
}

/// Makes the `DateTime<Utc>` of an instant and calls `to_rfc2822`, which
/// panics for a year that is negative or has more than four digits.
#[verifier::external_body]
fn show_rfc2822(secs: i64, nanos: u32) -> (text: Option<String>)
    requires
        RFC2822_FIRST <= secs <= RFC2822_LAST,
    ensures
        match text {
            Some(t) => shown_rfc2822(secs, nanos) == Some(t@),
            None => shown_rfc2822(secs, nanos) is None,
        },
{
    match chrono::DateTime::from_timestamp(secs, nanos) {
        Some(instant) => Some(instant.to_rfc2822()),
        None => None,
    }
}

/// Makes the `DateTime<Utc>` of an instant and calls `to_rfc3339`.
#[verifier::external_body]
fn show_rfc3339(secs: i64, nanos: u32) -> (text: Option<String>)
    ensures
        match text {
            Some(t) => shown_rfc3339(secs, nanos) == Some(t@),
            None => shown_rfc3339(secs, nanos) is None,
        },
{
    match chrono::DateTime::from_timestamp(secs, nanos) {
        Some(instant) => Some(instant.to_rfc3339()),
        None => None,
    }
}

/// Makes the `DateTime<Utc>` of an instant and calls `to_rfc3339_opts`.
#[verifier::external_body]
fn show_rfc3339_opts(secs: i64, nanos: u32, secform: Subseconds, use_z: bool) -> (text: Option<
    String,
>)
    ensures
        match text {
            Some(t) => shown_rfc3339_opts(secs, nanos, secform, use_z) == Some(t@),
            None => shown_rfc3339_opts(secs, nanos, secform, use_z) is None,
        },
{
    let digits = match secform {
        Subseconds::Secs => chrono::SecondsFormat::Secs,
        Subseconds::Millis => chrono::SecondsFormat::Millis,
        Subseconds::Micros => chrono::SecondsFormat::Micros,
        Subseconds::Nanos => chrono::SecondsFormat::Nanos,
        Subseconds::AutoSi => chrono::SecondsFormat::AutoSi,
    };
    match chrono::DateTime::from_timestamp(secs, nanos) {
        Some(instant) => Some(instant.to_rfc3339_opts(digits, use_z)),
        None => None,
    }
}

/// Makes the `DateTime<Utc>` of an instant and writes what
/// `DateTime::format` displays. `None` where chrono cannot hold the instant
/// or reports an error for the pattern.
#[verifier::external_body]
fn show_by_pattern(secs: i64, nanos: u32, pattern: &str) -> (text: Option<String>)
    ensures
        match text {
            Some(t) => shown_by_pattern(secs, nanos, pattern@) == Some(t@),
            None => shown_by_pattern(secs, nanos, pattern@) is None,
        },
{
    let mut text = String::new();
    match chrono::DateTime::from_timestamp(secs, nanos) {
        Some(instant) => match write!(text, "{}", instant.format(pattern)) {
            Ok(()) => Some(text),
            Err(_) => None,
        },
        None => None,
    }
}

/// Whether chrono can hold the instant `(secs, nanos)`: whether
/// `DateTime::from_timestamp` returns a value for it.
pub uninterp spec fn representable(secs: i64, nanos: u32) -> bool;

/// Asks `DateTime::from_timestamp` whether chrono can hold an instant.
#[verifier::external_body]
fn is_representable(secs: i64, nanos: u32) -> (held: bool)
    ensures
        held == representable(secs, nanos),
{
    chrono::DateTime::from_timestamp(secs, nanos).is_some()
}

/// The text that a formatting call gave, or the error that stands for its
/// failure.
pub open spec fn text_or(text: Option<Seq<char>>, error: TimeError) -> Result<Seq<char>, TimeError> {
    match text {
        Some(t) => Ok(t),
        None => Err(error),
    }
}

/// The instant `t` written in the way `format`. An instant that chrono
/// cannot hold, or that RFC 2822 cannot write, is out of range.
pub open spec fn time_written(t: Timestamp, format: TimeFormatView) -> Result<Seq<char>, TimeError> {
    if !representable(t.secs, t.nanos) {
        Err(TimeError::OutOfRange)
    } else {
        match format {
            TimeFormatView::Plain => text_or(shown_plain(t.secs, t.nanos), TimeError::OutOfRange),
            TimeFormatView::Rfc2822 => if RFC2822_FIRST <= t.secs <= RFC2822_LAST {
                text_or(shown_rfc2822(t.secs, t.nanos), TimeError::OutOfRange)
            } else {
                Err(TimeError::OutOfRange)
            },
            TimeFormatView::Rfc3339 => text_or(
                shown_rfc3339(t.secs, t.nanos),
                TimeError::OutOfRange,
            ),
            TimeFormatView::Rfc3339Opts { secform, use_z } => text_or(
                shown_rfc3339_opts(t.secs, t.nanos, secform, use_z),
                TimeError::OutOfRange,
            ),
            TimeFormatView::Pattern(pattern) => text_or(
                shown_by_pattern(t.secs, t.nanos, pattern),
                TimeError::BadPattern,
            ),
        }
    }
}

/// What came of writing: the text, or the error.
pub open spec fn written_as(outcome: Result<String, TimeError>, expected: Result<
    Seq<char>,
    TimeError,
>) -> bool {
    match outcome {
        Ok(text) => expected == Ok::<Seq<char>, TimeError>(text@),
        Err(error) => expected == Err::<Seq<char>, TimeError>(error),
    }
}

/// Turns the outcome of a formatting call into a result.
fn give(text: Option<String>, error: TimeError) -> (outcome: Result<String, TimeError>)
    ensures
        match outcome {
            Ok(t) => text == Some(t),
            Err(e) => text is None && e == error,
        },
{
    match text {
        Some(t) => Ok(t),
        None => Err(error),
    }
}

/// Writes the instant `t` in the way `format`.
pub fn format_time(t: Timestamp, format: &TimeFormat) -> (outcome: Result<String, TimeError>)
    ensures
        written_as(outcome, time_written(t, format@)),
{
    if !is_representable(t.secs, t.nanos) {
        return Err(TimeError::OutOfRange);
    }
    match format {
        TimeFormat::Plain => give(show_plain(t.secs, t.nanos), TimeError::OutOfRange),
        TimeFormat::Rfc2822 => {
            if RFC2822_FIRST <= t.secs && t.secs <= RFC2822_LAST {
                give(show_rfc2822(t.secs, t.nanos), TimeError::OutOfRange)
            } else {
                Err(TimeError::OutOfRange)
            }
        },
        TimeFormat::Rfc3339 => give(show_rfc3339(t.secs, t.nanos), TimeError::OutOfRange),
        TimeFormat::Rfc3339Opts { secform, use_z } => give(
            show_rfc3339_opts(t.secs, t.nanos, *secform, *use_z),
            TimeError::OutOfRange,
        ),
        TimeFormat::Pattern(pattern) => give(
            show_by_pattern(t.secs, t.nanos, pattern.as_str()),
            TimeError::BadPattern,
        ),
    }
}

/// What the time helpers write for the instant `t` and their parameters.
pub open spec fn time_rendered(
    t: Timestamp,
    fmt: Option<Seq<char>>,
    secform: Option<Seq<char>>,
    use_z: Option<bool>,
) -> Result<Seq<char>, TimeError> {
    match selected_format(fmt, secform, use_z) {
        Ok(format) => time_written(t, format),
        Err(error) => Err(error),
    }
}

/// Writes the instant `t` as the parameters of a time helper ask.
pub fn render_time(t: Timestamp, fmt: Option<&str>, secform: Option<&str>, use_z: Option<bool>) -> (outcome:
    Result<String, TimeError>)
    ensures
        written_as(outcome, time_rendered(t, text_view(fmt), text_view(secform), use_z)),
{
    match select_time_format(fmt, secform, use_z) {
        Ok(format) => format_time(t, &format),
        Err(error) => Err(error),
    }
}

/// What marks a formula that could not be converted.
pub const PARSE_ERROR_MARK: &'static str = "[PARSE ERROR:";

/// What the LaTeX rendering helper writes for `text`, given what the
/// conversion of its formulas came to, if it came to anything: the
/// converted text, unless it is marked with an error, and else the text as
/// it was.
pub open spec fn latex_rendering(text: Seq<char>, converted: Option<Seq<char>>) -> Seq<char> {
    match converted {
        Some(x) => if contains_text(x, PARSE_ERROR_MARK@) {
            text
        } else {
            x
        },
        None => text,
    }
}

/// Chooses between a text and the outcome of converting its formulas.
pub fn latex_render(text: String, converted: Option<String>) -> (out: String)
    ensures
        out@ == latex_rendering(
            text@,
            match converted {
                Some(x) => Some(x@),
                None => None,
            },
        ),
{
    match converted {
        Some(x) => {
            if contains(&chars_of(x.as_str()), &chars_of(PARSE_ERROR_MARK)) {
                text
            } else {
                x
            }
        },
        None => text,
    }
}

/// What a character is written as in LaTeX: the characters that LaTeX
/// reads as commands get a backslash or a name, all others stay.
pub open spec fn latex_quote(c: char) -> Seq<char> {
    if c == '#' {
        "\\#"@
    } else if c == '$' {
        "\\$"@
    } else if c == '%' {
        "\\%"@
    } else if c == '&' {
        "\\&"@
    } else if c == '\\' {
        "\\textbackslash{}"@
    } else if c == '^' {
        "\\textasciicircum{}"@
    } else if c == '_' {
        "\\_"@
    } else if c == '{' {
        "\\{"@
    } else if c == '}' {
        "\\}"@
    } else if c == '~' {
        "\\textasciitilde{}"@
    } else {
        seq![c]
    }
}

/// A text with each character written as LaTeX needs it.
pub open spec fn latex_quoted(text: Seq<char>) -> Seq<char>
    decreases text.len(),
{
    if text.len() == 0 {
        Seq::empty()
    } else {
        latex_quoted(text.drop_last()) + latex_quote(text.last())
    }
}

/// Calls `v_latexescape::escape_string` on an empty buffer. The crate
/// documents the table of the ten characters that it rewrites, and that it
/// passes every other character on.
#[verifier::external_body]
fn quote_for_latex(text: &str) -> (quoted: String)
    ensures
        quoted@ == latex_quoted(text@),
{
    let mut quoted = String::new();
    v_latexescape::escape_string(text, &mut quoted);
    quoted
}

/// What the LaTeX escaping helper writes for `text`: the HTML entities are
/// decoded, all paragraph tags are dropped, braces without a partner are
/// removed, and what is left is written as LaTeX needs it.
pub open spec fn latex_escaped_text(text: Seq<char>) -> Seq<char> {
    let bare = without_all(without_all(html_decoded(text), "<p>"@), "</p>"@);
    latex_quoted(unpair_inner(bare, '{', '}', '{', 0, 0))
}

/// Makes a text of a feed safe to set in LaTeX.
pub fn latex_escape_text(text: &str) -> (out: String)
    ensures
        out@ == latex_escaped_text(text@),
{
    let decoded = decode_html(text);
    let chars = chars_of(decoded.as_str());
    let opened = remove_all(&chars, &chars_of("<p>"));
    let bare = remove_all(&opened, &chars_of("</p>"));
    let mut removed: Vec<char> = Vec::new();
    remove_unpair_inner(bare, &mut removed, '{', '}', '{', 0, 0);
    assert(removed@ =~= unpair_inner(bare@, '{', '}', '{', 0, 0));
    let balanced = string_of(&removed);
    quote_for_latex(balanced.as_str())
}

/// The characters of a text that may be absent.
pub open spec fn text_view(text: Option<&str>) -> Option<Seq<char>> {
    match text {
        Some(t) => Some(t@),
        None => None,
    }
}

} // verus!
