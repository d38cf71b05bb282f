use feed::render::{
    format_time, latex_escape_text, latex_render, render_time, select_time_format, subseconds_of,
    Subseconds, TimeError, TimeFormat, RFC2822_FIRST, RFC2822_LAST,
};
use feed::timestamp::Timestamp;

// 2018-01-26T18:30:09.453829Z
fn sample() -> Timestamp {
    Timestamp { secs: 1_516_991_409, nanos: 453_829_000 }
}

#[test]
fn format_names_select_their_formats() {
    assert_eq!(select_time_format(None, None, None), Ok(TimeFormat::Plain));
    assert_eq!(select_time_format(None, Some("Millis"), Some(true)), Ok(TimeFormat::Plain));
    assert_eq!(select_time_format(Some("rfc2822"), None, None), Ok(TimeFormat::Rfc2822));
    assert_eq!(select_time_format(Some("rfc3339"), None, None), Ok(TimeFormat::Rfc3339));
    assert_eq!(
        select_time_format(Some("rfc3339_opts"), Some("Micros"), Some(false)),
        Ok(TimeFormat::Rfc3339Opts { secform: Subseconds::Micros, use_z: false })
    );
    assert_eq!(
        select_time_format(Some("%Y"), None, None),
        Ok(TimeFormat::Pattern("%Y".to_string()))
    );
    assert_eq!(
        select_time_format(Some("RFC3339"), None, None),
        Ok(TimeFormat::Pattern("RFC3339".to_string()))
    );
}

#[test]
fn options_are_asked_for_in_order() {
    assert_eq!(
        select_time_format(Some("rfc3339_opts"), None, None),
        Err(TimeError::MissingSecform)
    );
    assert_eq!(
        select_time_format(Some("rfc3339_opts"), None, Some(true)),
        Err(TimeError::MissingSecform)
    );
    assert_eq!(
        select_time_format(Some("rfc3339_opts"), Some("Secs"), None),
        Err(TimeError::MissingUseZ)
    );
}

#[test]
fn unknown_digits_mean_whole_seconds() {
    assert_eq!(subseconds_of("Secs"), Subseconds::Secs);
    assert_eq!(subseconds_of("Millis"), Subseconds::Millis);
    assert_eq!(subseconds_of("Micros"), Subseconds::Micros);
    assert_eq!(subseconds_of("Nanos"), Subseconds::Nanos);
    assert_eq!(subseconds_of("AutoSi"), Subseconds::AutoSi);
    assert_eq!(subseconds_of("millis"), Subseconds::Secs);
    assert_eq!(subseconds_of(""), Subseconds::Secs);
}

#[test]
fn error_messages() {
    assert_eq!(
        TimeError::MissingSecform.message(),
        "Param secform in [Secs,Millis,Micros,Nanos,AutoSi] required for datetime helper."
    );
    assert_eq!(TimeError::MissingUseZ.message(), "Param use_z in required for datetime helper.");
    assert!(!TimeError::OutOfRange.message().is_empty());
    assert!(!TimeError::BadPattern.message().is_empty());
}

#[test]
fn an_instant_is_written_in_each_format() {
    let t = sample();
    assert_eq!(format_time(t, &TimeFormat::Plain), Ok("2018-01-26 18:30:09.453829 UTC".to_string()));
    assert_eq!(
        format_time(t, &TimeFormat::Rfc2822),
        Ok("Fri, 26 Jan 2018 18:30:09 +0000".to_string())
    );
    assert_eq!(
        format_time(t, &TimeFormat::Rfc3339),
        Ok("2018-01-26T18:30:09.453829+00:00".to_string())
    );
    assert_eq!(
        format_time(t, &TimeFormat::Rfc3339Opts { secform: Subseconds::Millis, use_z: true }),
        Ok("2018-01-26T18:30:09.453Z".to_string())
    );
    assert_eq!(
        format_time(t, &TimeFormat::Rfc3339Opts { secform: Subseconds::Secs, use_z: false }),
        Ok("2018-01-26T18:30:09+00:00".to_string())
    );
    assert_eq!(
        format_time(t, &TimeFormat::Rfc3339Opts { secform: Subseconds::Nanos, use_z: true }),
        Ok("2018-01-26T18:30:09.453829000Z".to_string())
    );
    assert_eq!(
        format_time(t, &TimeFormat::Pattern("%d/%m/%Y %H:%M".to_string())),
        Ok("26/01/2018 18:30".to_string())
    );
}

#[test]
fn what_cannot_be_written_is_an_error() {
    let t = sample();
    assert_eq!(format_time(t, &TimeFormat::Pattern("%Q".to_string())), Err(TimeError::BadPattern));
    let far = Timestamp { secs: i64::MAX, nanos: 0 };
    assert_eq!(format_time(far, &TimeFormat::Plain), Err(TimeError::OutOfRange));
    assert_eq!(format_time(far, &TimeFormat::Rfc3339), Err(TimeError::OutOfRange));
    assert_eq!(format_time(far, &TimeFormat::Pattern("%Y".to_string())), Err(TimeError::OutOfRange));
    let no_such_nanos = Timestamp { secs: 0, nanos: 2_000_000_000 };
    assert_eq!(format_time(no_such_nanos, &TimeFormat::Plain), Err(TimeError::OutOfRange));
}

#[test]
fn rfc2822_knows_four_digit_years_only() {
    let first = Timestamp { secs: RFC2822_FIRST, nanos: 0 };
    let last = Timestamp { secs: RFC2822_LAST, nanos: 0 };
    assert_eq!(
        format_time(first, &TimeFormat::Rfc2822),
        Ok("Sat, 1 Jan 0000 00:00:00 +0000".to_string())
    );
    assert_eq!(
        format_time(last, &TimeFormat::Rfc2822),
        Ok("Fri, 31 Dec 9999 23:59:59 +0000".to_string())
    );
    let before = Timestamp { secs: RFC2822_FIRST - 1, nanos: 0 };
    let after = Timestamp { secs: RFC2822_LAST + 1, nanos: 0 };
    assert_eq!(format_time(before, &TimeFormat::Rfc2822), Err(TimeError::OutOfRange));
    assert_eq!(format_time(after, &TimeFormat::Rfc2822), Err(TimeError::OutOfRange));
    assert_eq!(format_time(after, &TimeFormat::Rfc3339), Ok("+10000-01-01T00:00:00+00:00".to_string()));
}

#[test]
fn render_time_selects_and_writes() {
    let t = sample();
    assert_eq!(
        render_time(t, Some("rfc3339_opts"), Some("Secs"), Some(true)),
        Ok("2018-01-26T18:30:09Z".to_string())
    );
    assert_eq!(
        render_time(t, Some("rfc3339_opts"), Some("whatever"), Some(true)),
        Ok("2018-01-26T18:30:09Z".to_string())
    );
    assert_eq!(render_time(t, Some("rfc3339_opts"), None, Some(true)), Err(TimeError::MissingSecform));
    assert_eq!(render_time(t, Some("%H"), None, None), Ok("18".to_string()));
    assert_eq!(render_time(t, None, None, None), Ok("2018-01-26 18:30:09.453829 UTC".to_string()));
}

#[test]
fn a_marked_conversion_gives_way_to_the_text() {
    let text = "$x^2$".to_string();
    assert_eq!(latex_render(text.clone(), Some("<math>x</math>".to_string())), "<math>x</math>");
    assert_eq!(
        latex_render(text.clone(), Some("<math>[PARSE ERROR: Undefined(\"x\")]</math>".to_string())),
        "$x^2$"
    );
    assert_eq!(latex_render(text.clone(), None), "$x^2$");
    assert_eq!(latex_render(text, Some(String::new())), "");
}

#[test]
fn latex_escape_text_quotes_what_latex_reads() {
    assert_eq!(latex_escape_text("a_b"), "a\\_b");
    assert_eq!(latex_escape_text("#$%&_"), "\\#\\$\\%\\&\\_");
    assert_eq!(
        latex_escape_text("\\ ^ ~"),
        "\\textbackslash{} \\textasciicircum{} \\textasciitilde{}"
    );
    assert_eq!(latex_escape_text("{a}"), "\\{a\\}");
    assert_eq!(latex_escape_text("plain text, no commands"), "plain text, no commands");
    assert_eq!(latex_escape_text(""), "");
}

#[test]
fn latex_escape_text_decodes_drops_tags_and_balances() {
    assert_eq!(latex_escape_text("<p>a</p><p>b</p>"), "ab");
    assert_eq!(latex_escape_text("&lt;p&gt;50&percnt;&lt;/p&gt;"), "50\\%");
    assert_eq!(latex_escape_text("{a}}"), "\\{a\\}");
    assert_eq!(latex_escape_text("{{a}"), "\\{a\\}");
    assert_eq!(latex_escape_text("caf&eacute; {ok}"), "café \\{ok\\}");
}
