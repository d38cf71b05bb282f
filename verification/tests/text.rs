use feed::text::{
    chars_of, contains, ends_with, is_at, remove_all, reversed, slice_of, string_of, trim_matches,
    without,
};

fn chars(text: &str) -> Vec<char> {
    text.chars().collect()
}

fn text(chars: Vec<char>) -> String {
    chars.into_iter().collect()
}

#[test]
fn is_at_compares_in_place() {
    assert!(is_at(&chars("hello"), 1, &chars("ell")));
    assert!(!is_at(&chars("hello"), 2, &chars("ell")));
    assert!(!is_at(&chars("hello"), 3, &chars("lol")));
    assert!(is_at(&chars("hello"), 5, &chars("")));
    assert!(!is_at(&chars("hello"), 6, &chars("")));
    assert!(!is_at(&chars("hi"), 0, &chars("hello")));
}

#[test]
fn contains_finds_a_part_anywhere() {
    assert!(contains(&chars("x [PARSE ERROR: y] z"), &chars("[PARSE ERROR:")));
    assert!(contains(&chars("[PARSE ERROR:"), &chars("[PARSE ERROR:")));
    assert!(!contains(&chars("[PARSE ERROR"), &chars("[PARSE ERROR:")));
    assert!(contains(&chars("abc"), &chars("")));
    assert!(contains(&chars(""), &chars("")));
    assert!(!contains(&chars(""), &chars("a")));
    assert!(contains(&chars("aab"), &chars("ab")));
}

#[test]
fn ends_with_looks_at_the_end() {
    assert!(ends_with(&chars("a.css"), &chars(".css")));
    assert!(!ends_with(&chars("a.css "), &chars(".css")));
    assert!(!ends_with(&chars("ss"), &chars(".css")));
    assert!(ends_with(&chars("x"), &chars("")));
}

#[test]
fn slice_of_copies_a_range() {
    assert_eq!(text(slice_of(&chars("hello"), 1, 4)), "ell");
    assert_eq!(text(slice_of(&chars("hello"), 2, 2)), "");
    assert_eq!(text(slice_of(&chars("hello"), 0, 5)), "hello");
}

#[test]
fn trim_matches_takes_off_repeated_ends() {
    assert_eq!(text(trim_matches(&chars("<p><p>x</p></p>"), &chars("<p>"), &chars("</p>"))), "x");
    assert_eq!(text(trim_matches(&chars("x<p>"), &chars("<p>"), &chars("</p>"))), "x<p>");
    assert_eq!(text(trim_matches(&chars("<p></p>"), &chars("<p>"), &chars("</p>"))), "");
    assert_eq!(text(trim_matches(&chars("aaa"), &chars("a"), &chars("a"))), "");
    assert_eq!(text(trim_matches(&chars("abab"), &chars("ab"), &chars("b"))), "");
    assert_eq!(text(trim_matches(&chars("abc"), &chars(""), &chars(""))), "abc");
    assert_eq!(text(trim_matches(&chars("aXa"), &chars("a"), &chars("a"))), "X");
}

#[test]
fn remove_all_drops_each_occurrence() {
    assert_eq!(text(remove_all(&chars("<p>a</p><p>b</p>"), &chars("<p>"))), "a</p>b</p>");
    assert_eq!(text(remove_all(&chars("aaa"), &chars("aa"))), "a");
    assert_eq!(text(remove_all(&chars("abc"), &chars(""))), "abc");
    assert_eq!(text(remove_all(&chars("abab"), &chars("ab"))), "");
    assert_eq!(text(remove_all(&chars(""), &chars("ab"))), "");
    assert_eq!(text(remove_all(&chars("aabb"), &chars("ab"))), "ab");
}

#[test]
fn chars_and_strings_convert_both_ways() {
    assert_eq!(chars_of("añ€"), vec!['a', 'ñ', '€']);
    assert_eq!(string_of(&vec!['a', 'ñ', '€']), "añ€");
    assert_eq!(reversed(&vec!['a', 'b', 'c']), vec!['c', 'b', 'a']);
    assert_eq!(reversed(&Vec::new()), Vec::<char>::new());
    assert_eq!(without(&vec!['a', 'b', 'c'], 0), vec!['b', 'c']);
    assert_eq!(without(&vec!['a', 'b', 'c'], 2), vec!['a', 'b']);
}
