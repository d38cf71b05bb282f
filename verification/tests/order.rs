use feed::bucket::{dedup_adjacent, sort_by_link};
use feed::channel::FeedChannel;
use feed::key_order::is_key_le;
use feed::timestamp::{is_within_window, Timestamp, SECONDS_PER_DAY};

fn channel(url: &str, title: &str) -> FeedChannel {
    let xml = format!(
        "<rss version=\"2.0\"><channel><title>{}</title><link>http://x/</link>\
         <description>d</description></channel></rss>",
        title
    );
    FeedChannel::parse(url, xml.as_bytes()).unwrap()
}

fn titles(channels: &[FeedChannel]) -> Vec<String> {
    channels.iter().map(|c| c.doc.title().to_string()).collect()
}

#[test]
fn keys_are_ordered_by_their_bytes() {
    assert!(is_key_le("", ""));
    assert!(is_key_le("", "a"));
    assert!(!is_key_le("a", ""));
    assert!(is_key_le("a", "a"));
    assert!(is_key_le("a", "ab"));
    assert!(!is_key_le("ab", "a"));
    assert!(is_key_le("ab", "b"));
    assert!(!is_key_le("b", "ab"));
    assert!(is_key_le("Z", "a"));
    assert!(is_key_le("z", "é"));
    assert!(is_key_le("é", "€"));
    assert!(!is_key_le("€", "é"));
    for (a, b) in [("http://a/", "http://b/"), ("x", "x/"), ("é", "e"), ("10", "9")] {
        assert_eq!(is_key_le(a, b), a <= b);
        assert_eq!(is_key_le(b, a), b <= a);
    }
}

#[test]
fn sorting_by_link_is_stable() {
    let sorted = sort_by_link(vec![
        channel("b", "1"),
        channel("a", "2"),
        channel("b", "3"),
        channel("a", "4"),
        channel("", "5"),
    ]);
    assert_eq!(titles(&sorted), vec!["5", "2", "4", "1", "3"]);
    assert!(sort_by_link(Vec::new()).is_empty());
}

#[test]
fn adjacent_duplicates_collapse_into_the_first() {
    let kept = dedup_adjacent(vec![
        channel("a", "1"),
        channel("a", "1"),
        channel("a", "2"),
        channel("a", "1"),
        channel("b", "1"),
        channel("b", "1"),
        channel("b", "1"),
    ]);
    let seen: Vec<(String, String)> =
        kept.iter().map(|c| (c.link.clone(), c.doc.title().to_string())).collect();
    assert_eq!(
        seen,
        vec![
            ("a".to_string(), "1".to_string()),
            ("a".to_string(), "2".to_string()),
            ("a".to_string(), "1".to_string()),
            ("b".to_string(), "1".to_string()),
        ]
    );
    assert!(dedup_adjacent(Vec::new()).is_empty());
}

#[test]
fn instants_are_ordered_by_seconds_then_nanoseconds() {
    let t = Timestamp::new(5, 7);
    assert_eq!(t, Timestamp { secs: 5, nanos: 7 });
    assert!(Timestamp::new(6, 0).is_later_than(&t));
    assert!(Timestamp::new(5, 8).is_later_than(&t));
    assert!(!t.is_later_than(&t));
    assert!(!Timestamp::new(5, 6).is_later_than(&t));
    assert!(!Timestamp::new(4, 999_999_999).is_later_than(&t));
    assert!(Timestamp::new(-1, 0).is_later_than(&Timestamp::new(-2, 5)));
}

#[test]
fn the_window_opens_behind_the_first_instant_of_a_day() {
    assert_eq!(SECONDS_PER_DAY, 86_400);
    // 2021-03-05T12:00:00Z; its day starts at 1_614_902_400
    let now = Timestamp::new(1_614_945_600, 0);
    let start = 1_614_902_400;
    assert!(is_within_window(&now, &now, 0));
    assert!(!is_within_window(&Timestamp::new(start, 0), &now, 0));
    assert!(is_within_window(&Timestamp::new(start, 1), &now, 0));
    assert!(!is_within_window(&Timestamp::new(start - 1, 999_999_999), &now, 0));
    assert!(is_within_window(&Timestamp::new(start - 7 * 86_400 + 1, 0), &now, 7));
    assert!(!is_within_window(&Timestamp::new(start - 7 * 86_400, 0), &now, 7));
    // a window that opens in the future holds nothing, one that never closes holds all
    assert!(!is_within_window(&now, &now, -1));
    assert!(is_within_window(&Timestamp::new(i64::MIN, 0), &now, i64::MAX));
    assert!(!is_within_window(&Timestamp::new(i64::MAX, 0), &now, i64::MIN));
    // before the epoch days start at multiples of a day too
    let early = Timestamp::new(-1, 0);
    assert!(is_within_window(&Timestamp::new(-86_400, 1), &early, 0));
    assert!(!is_within_window(&Timestamp::new(-86_400, 0), &early, 0));
}
