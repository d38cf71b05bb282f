use feed::rhai_regex::{regex_new, regex_replacen_all};
use feed::utils::{
    classify_static, escape_latex_specials, latex_escape, remove_unpair, StaticKind,
    LATEX_PATTERN, LATEX_REPLACEMENT,
};

#[test]
fn test_regex() {
    let latex_regex = regex_new(LATEX_PATTERN).unwrap();
    assert_eq!(
        regex_replacen_all(&latex_regex, "98.12% which is 1.62%", "$pre\\$tex"),
        "98.12\\% which is 1.62\\%"
    );
    assert_eq!(
        regex_replacen_all(&latex_regex, "98.12\\% which is 1.62%", "$pre\\$tex"),
        "98.12\\% which is 1.62\\%"
    );
}

#[test]
fn test_remove() {
    assert_eq!(remove_unpair("(((()xx)", '(', ')'), "(()xx)");
    assert_eq!(remove_unpair("(((()xx))", '(', ')'), "((()xx))");
    assert_eq!(remove_unpair("(())", '(', ')'), "(())");
}

#[test]
fn latex_replacement_is_the_escaping_one() {
    assert_eq!(LATEX_REPLACEMENT, "$pre\\$tex");
    assert_eq!(escape_latex_specials("98.12% which is 1.62%"), "98.12\\% which is 1.62\\%");
    assert_eq!(escape_latex_specials("a_b & c"), "a\\_b \\& c");
    assert_eq!(escape_latex_specials("a\\_b"), "a\\_b");
    // a special character at the very start has no character before it
    assert_eq!(escape_latex_specials("%x"), "%x");
    // a match takes the character before it along, so the next one finds none
    assert_eq!(escape_latex_specials("a%%b"), "a\\%%b");
    assert_eq!(escape_latex_specials("a%b%"), "a\\%b\\%");
    assert_eq!(escape_latex_specials(""), "");
}

#[test]
fn remove_unpair_drops_unpaired_closings_and_openings() {
    assert_eq!(remove_unpair("a}b", '{', '}'), "ab");
    assert_eq!(remove_unpair("a{b", '{', '}'), "ab");
    assert_eq!(remove_unpair("}{", '{', '}'), "");
    assert_eq!(remove_unpair("", '{', '}'), "");
    assert_eq!(remove_unpair("no braces", '{', '}'), "no braces");
    assert_eq!(remove_unpair("{a{b}c}", '{', '}'), "{a{b}c}");
}

#[test]
fn remove_unpair_holds_every_outcome() {
    // either of the first two closings can go
    assert_eq!(remove_unpair("()())()", '(', ')'), "(())()()()()");
    // closings of one run count once
    assert_eq!(remove_unpair("())", '(', ')'), "()");
}

#[test]
fn latex_escape_decodes_trims_balances_and_escapes() {
    assert_eq!(latex_escape("<p>50&percnt; of {x</p>"), "50\\% of x");
    assert_eq!(latex_escape("<p><p>a &amp; b</p></p>"), "a \\& b");
    assert_eq!(latex_escape("a <p>b</p> c"), "a <p>b</p> c");
    assert_eq!(latex_escape("&lt;p&gt;x_y}"), "x\\_y");
    assert_eq!(latex_escape(""), "");
}

#[test]
fn static_assets_are_told_apart_by_their_ending() {
    assert_eq!(classify_static("statics/app.js"), StaticKind::Script);
    assert_eq!(classify_static("statics/site.css"), StaticKind::Stylesheet);
    assert_eq!(classify_static("statics/logo.png"), StaticKind::Other);
    assert_eq!(classify_static("statics/notes.js.txt"), StaticKind::Other);
    assert_eq!(classify_static(".js"), StaticKind::Script);
    assert_eq!(classify_static("js"), StaticKind::Other);
    assert_eq!(classify_static(""), StaticKind::Other);
}
