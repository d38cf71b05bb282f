use feed::rhai_regex::{
    match_get_end, match_get_start, match_get_text, regex_find, regex_find_at, regex_is_match,
    regex_is_match_at, regex_new, regex_replace, regex_replacen, regex_replacen_all, regex_split,
    regex_splitn, report, RhaiMatch,
};

#[test]
fn a_pattern_compiles_or_is_refused_with_a_message() {
    assert!(regex_new(r"\d+").is_ok());
    let refused = regex_new(r"foo(bar").unwrap_err();
    assert_eq!(refused.function, "new_regex");
    assert!(!refused.message.is_empty());
    assert_eq!(refused.message, regex::Regex::new(r"foo(bar").unwrap_err().to_string());
}

#[test]
fn find_reports_text_and_offsets() {
    let digits = regex_new(r"\d+").unwrap();
    let found = regex_find(&digits, "año 2021, día 5");
    assert_eq!(found, RhaiMatch { text: "2021".to_string(), start: 5, end: 9 });
    assert_eq!(match_get_text(&found), "2021");
    assert_eq!(match_get_start(&found), 5);
    assert_eq!(match_get_end(&found), 9);
    let none = regex_find(&digits, "no digits");
    assert_eq!(none, RhaiMatch { text: String::new(), start: 0, end: 0 });
}

#[test]
fn find_at_searches_from_an_offset() {
    let digits = regex_new(r"\d+").unwrap();
    let found = regex_find_at(&digits, "año 2021, día 5", 9);
    assert_eq!(found, RhaiMatch { text: "5".to_string(), start: 16, end: 17 });
    let at_end = regex_find_at(&digits, "a1", 2);
    assert_eq!(at_end, RhaiMatch { text: String::new(), start: 0, end: 0 });
    let word = regex_new(r"\bchew\b").unwrap();
    assert_eq!(regex_find_at(&word, "eschew", 2).text, "");
    let empty = regex_new(r"x*").unwrap();
    assert_eq!(regex_find_at(&empty, "ab", 2), RhaiMatch { text: String::new(), start: 2, end: 2 });
}

#[test]
fn report_cuts_the_span_out_of_the_text() {
    assert_eq!(
        report("añb€c", Some((1, 4))),
        RhaiMatch { text: "ñb".to_string(), start: 1, end: 4 }
    );
    assert_eq!(report("abc", Some((3, 3))), RhaiMatch { text: String::new(), start: 3, end: 3 });
    assert_eq!(report("abc", Some((0, 3))), RhaiMatch { text: "abc".to_string(), start: 0, end: 3 });
    assert_eq!(report("abc", None), RhaiMatch { text: String::new(), start: 0, end: 0 });
}

#[test]
fn is_match_with_and_without_offset() {
    let word = regex_new(r"\bchew\b").unwrap();
    assert!(regex_is_match(&word, "chew it"));
    assert!(!regex_is_match(&word, "eschew"));
    assert!(!regex_is_match_at(&word, "eschew", 2));
    assert!(regex_is_match_at(&word, "es chew", 2));
}

#[test]
fn replace_first_some_or_all() {
    let vowel = regex_new(r"[aeiou]").unwrap();
    assert_eq!(regex_replace(&vowel, "banana", "_"), "b_nana");
    assert_eq!(regex_replacen(&vowel, "banana", 2, "_"), "b_n_na");
    assert_eq!(regex_replacen(&vowel, "banana", 0, "_"), "b_n_n_");
    assert_eq!(regex_replacen_all(&vowel, "banana", "_"), "b_n_n_");
    assert_eq!(regex_replace(&vowel, "rhythm", "_"), "rhythm");
    let pair = regex_new(r"(?P<y>\d{4})-(?P<m>\d{2})").unwrap();
    assert_eq!(regex_replacen_all(&pair, "2021-03 and 2020-12", "$m/$y"), "03/2021 and 12/2020");
}

#[test]
fn split_with_and_without_limit() {
    let gap = regex_new(r"[ \t]+").unwrap();
    assert_eq!(regex_split(&gap, "a b \t  c"), vec!["a", "b", "c"]);
    assert_eq!(regex_split(&gap, " a"), vec!["", "a"]);
    assert_eq!(regex_splitn(&gap, "a b \t  c", 2), vec!["a", "b \t  c"]);
    assert_eq!(regex_splitn(&gap, "a b c", 0), Vec::<String>::new());
    assert_eq!(regex_splitn(&gap, "abc", 3), vec!["abc"]);
}
