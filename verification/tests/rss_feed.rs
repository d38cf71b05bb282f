use feed::channel::FeedChannel;
use feed::config::Config;
use feed::rss_feed::{cache_or_default, DailyRss, Fetched, Rss};
use feed::timestamp::Timestamp;

const DAY: i64 = 86_400;
// 2021-03-05T12:00:00Z
const NOON: i64 = 1_614_945_600;

fn feed_xml(title: &str, items: usize, date: Option<&str>) -> Vec<u8> {
    let mut xml = String::new();
    xml.push_str("<?xml version=\"1.0\" encoding=\"UTF-8\"?>");
    xml.push_str("<rss version=\"2.0\" xmlns:dc=\"http://purl.org/dc/elements/1.1/\"><channel>");
    xml.push_str(&format!("<title>{}</title>", title));
    xml.push_str("<link>http://declared.example/</link>");
    xml.push_str("<description>a feed</description>");
    if let Some(date) = date {
        xml.push_str(&format!("<dc:date>{}</dc:date>", date));
    }
    for i in 0..items {
        xml.push_str(&format!(
            "<item><title>item {}</title><link>http://declared.example/{}</link></item>",
            i, i
        ));
    }
    xml.push_str("</channel></rss>");
    xml.into_bytes()
}

fn config(retention_days: i64) -> Config {
    let mut config = Config::default();
    config.cache_max_days = retention_days;
    config.site_title = "Daily".to_string();
    config
}

fn answered(url: &str, body: Vec<u8>) -> Fetched {
    Fetched { url: url.to_string(), body: Some(body) }
}

fn failed(url: &str) -> Fetched {
    Fetched { url: url.to_string(), body: None }
}

fn at(secs: i64) -> Timestamp {
    Timestamp { secs, nanos: 0 }
}

fn stored(url: &str, title: &str, date: Option<&str>) -> FeedChannel {
    FeedChannel::parse(url, &feed_xml(title, 2, date)).unwrap()
}

fn links(day: &DailyRss) -> Vec<String> {
    day.channels.iter().map(|c| c.link.clone()).collect()
}

#[test]
fn one_source_refused_one_valid() {
    let responses = vec![
        failed("http://one.example/rss"),
        answered("http://two.example/rss", feed_xml("two", 5, None)),
    ];
    let today = DailyRss::new(&responses, at(NOON));
    let rss = Rss::feed_rss(&config(7), None, today);
    assert_eq!(rss.site_title, "Daily");
    assert_eq!(rss.build_time, at(NOON));
    assert_eq!(rss.days.len(), 1);
    assert_eq!(rss.days[0].datetime, at(NOON));
    assert_eq!(rss.days[0].channels.len(), 1);
    assert_eq!(rss.days[0].channels[0].link, "http://two.example/rss");
    assert_eq!(rss.days[0].channels[0].doc.link(), "http://two.example/rss");
    assert_eq!(rss.days[0].channels[0].doc.title(), "two");
    assert_eq!(rss.days[0].channels[0].doc.items().len(), 5);
}

#[test]
fn old_bucket_is_evicted_and_today_comes_first() {
    let prior = Rss {
        site_title: "Earlier".to_string(),
        build_time: at(NOON - DAY),
        days: vec![
            DailyRss { datetime: at(NOON - DAY), channels: vec![stored("http://a.example/", "a", None)] },
            DailyRss {
                datetime: at(NOON - 10 * DAY),
                channels: vec![stored("http://a.example/", "old", None)],
            },
        ],
    };
    let responses = vec![answered("http://a.example/", feed_xml("fresh", 1, None))];
    let today = DailyRss::new(&responses, at(NOON));
    let rss = Rss::feed_rss(&config(7), Some(prior), today);
    assert_eq!(rss.days.len(), 2);
    assert_eq!(rss.days[0].datetime, at(NOON));
    assert_eq!(rss.days[1].datetime, at(NOON - DAY));
    assert_eq!(rss.days[0].channels[0].doc.title(), "fresh");
    assert_eq!(rss.days[1].channels[0].doc.title(), "a");
}

#[test]
fn same_source_twice_gives_one_channel() {
    let responses = vec![
        answered("http://a.example/", feed_xml("a", 3, None)),
        answered("http://a.example/", feed_xml("a", 3, None)),
    ];
    let today = DailyRss::new(&responses, at(NOON));
    assert_eq!(today.channels.len(), 2);
    let rss = Rss::feed_rss(&config(7), None, today);
    assert_eq!(rss.days.len(), 1);
    assert_eq!(rss.days[0].channels.len(), 1);
    assert_eq!(rss.days[0].channels[0].link, "http://a.example/");
}

#[test]
fn every_source_failed_leaves_history_and_an_empty_today() {
    let prior = Rss {
        site_title: "Earlier".to_string(),
        build_time: at(NOON - DAY),
        days: vec![
            DailyRss { datetime: at(NOON - DAY), channels: vec![stored("http://a.example/", "a", None)] },
            DailyRss {
                datetime: at(NOON - 10 * DAY),
                channels: vec![stored("http://a.example/", "old", None)],
            },
        ],
    };
    let responses = vec![
        failed("http://a.example/"),
        answered("http://b.example/", b"this is no feed".to_vec()),
        answered("http://c.example/", b"<html><body>not rss</body></html>".to_vec()),
    ];
    let today = DailyRss::new(&responses, at(NOON));
    assert_eq!(today.datetime, at(NOON));
    assert!(today.channels.is_empty());
    let rss = Rss::feed_rss(&config(7), Some(prior), today);
    assert_eq!(rss.days.len(), 2);
    assert_eq!(rss.days[0].datetime, at(NOON));
    assert!(rss.days[0].channels.is_empty());
    assert_eq!(rss.days[1].datetime, at(NOON - DAY));
    assert_eq!(links(&rss.days[1]), vec!["http://a.example/".to_string()]);
}

#[test]
fn no_sources_and_no_cache_gives_one_empty_bucket() {
    let today = DailyRss::new(&Vec::new(), at(NOON));
    let rss = Rss::feed_rss(&config(0), None, today);
    assert_eq!(rss.days.len(), 1);
    assert_eq!(rss.days[0].datetime, at(NOON));
    assert!(rss.days[0].channels.is_empty());
}

#[test]
fn missing_cache_is_as_an_empty_cache() {
    let responses = vec![
        answered("http://b.example/", feed_xml("b", 1, None)),
        answered("http://a.example/", feed_xml("a", 2, None)),
    ];
    let without = Rss::feed_rss(&config(3), None, DailyRss::new(&responses, at(NOON)));
    let with_default =
        Rss::feed_rss(&config(3), Some(Rss::default()), DailyRss::new(&responses, at(NOON)));
    assert_eq!(without.days.len(), with_default.days.len());
    assert_eq!(without.days.len(), 1);
    assert_eq!(without.days[0].datetime, with_default.days[0].datetime);
    assert_eq!(links(&without.days[0]), links(&with_default.days[0]));
    assert_eq!(
        links(&without.days[0]),
        vec!["http://a.example/".to_string(), "http://b.example/".to_string()]
    );
    for (x, y) in without.days[0].channels.iter().zip(with_default.days[0].channels.iter()) {
        assert!(x.same_as(y));
    }
}

#[test]
fn default_aggregate_is_empty() {
    let rss = Rss::default();
    assert_eq!(rss.site_title, "");
    assert!(rss.days.is_empty());
    assert_eq!(rss.build_time, at(0));
}

#[test]
fn channels_are_ordered_by_key_within_a_bucket() {
    let responses = vec![
        answered("http://c.example/", feed_xml("c", 1, None)),
        answered("http://a.example/", feed_xml("a", 1, None)),
        answered("http://b.example/", feed_xml("b", 1, None)),
        answered("http://a.example/x", feed_xml("ax", 1, None)),
    ];
    let rss = Rss::feed_rss(&config(1), None, DailyRss::new(&responses, at(NOON)));
    assert_eq!(
        links(&rss.days[0]),
        vec![
            "http://a.example/".to_string(),
            "http://a.example/x".to_string(),
            "http://b.example/".to_string(),
            "http://c.example/".to_string(),
        ]
    );
}

#[test]
fn different_documents_under_one_key_both_stay() {
    let responses = vec![
        answered("http://a.example/", feed_xml("first", 1, None)),
        answered("http://a.example/", feed_xml("second", 1, None)),
        answered("http://a.example/", feed_xml("first", 1, None)),
    ];
    let rss = Rss::feed_rss(&config(1), None, DailyRss::new(&responses, at(NOON)));
    let titles: Vec<&str> = rss.days[0].channels.iter().map(|c| c.doc.title()).collect();
    assert_eq!(titles, vec!["first", "second", "first"]);
}

#[test]
fn declared_date_decides_the_bucket() {
    let responses = vec![
        answered("http://dated.example/", feed_xml("dated", 1, Some("2021-03-04T08:30:00Z"))),
        answered("http://plain.example/", feed_xml("plain", 1, None)),
    ];
    let rss = Rss::feed_rss(&config(7), None, DailyRss::new(&responses, at(NOON)));
    assert_eq!(rss.days.len(), 2);
    assert_eq!(rss.days[0].datetime, at(NOON));
    assert_eq!(links(&rss.days[0]), vec!["http://plain.example/".to_string()]);
    // 2021-03-04T08:30:00Z
    assert_eq!(rss.days[1].datetime, at(1_614_846_600));
    assert_eq!(links(&rss.days[1]), vec!["http://dated.example/".to_string()]);
}

#[test]
fn dated_channel_fetched_again_collapses_with_its_stored_copy() {
    let body = feed_xml("dated", 2, Some("2021-03-04T08:30:00Z"));
    let first = Rss::feed_rss(
        &config(7),
        None,
        DailyRss::new(&vec![answered("http://dated.example/", body.clone())], at(NOON - DAY)),
    );
    let again = Rss::feed_rss(
        &config(7),
        Some(first),
        DailyRss::new(&vec![answered("http://dated.example/", body)], at(NOON)),
    );
    let dated: Vec<&DailyRss> =
        again.days.iter().filter(|d| d.datetime == at(1_614_846_600)).collect();
    assert_eq!(dated.len(), 1);
    assert_eq!(dated[0].channels.len(), 1);
}

#[test]
fn unreadable_date_falls_back_to_the_bucket() {
    let channel = stored("http://a.example/", "a", Some("last tuesday"));
    assert_eq!(channel.timestamp(at(NOON)), at(NOON));
    let plain = stored("http://a.example/", "a", None);
    assert_eq!(plain.timestamp(at(NOON - 5)), at(NOON - 5));
    let dated = stored("http://a.example/", "a", Some("2021-03-04 08:30:00.250+01:00"));
    assert_eq!(dated.timestamp(at(NOON)), Timestamp { secs: 1_614_843_000, nanos: 250_000_000 });
}

#[test]
fn window_opens_at_the_start_of_the_day() {
    let start_of_day = NOON - DAY / 2;
    let prior = Rss {
        site_title: String::new(),
        build_time: at(0),
        days: vec![
            DailyRss { datetime: at(start_of_day - 2 * DAY), channels: vec![stored("http://a/", "x", None)] },
            DailyRss {
                datetime: Timestamp { secs: start_of_day - 2 * DAY, nanos: 1 },
                channels: vec![stored("http://b/", "y", None)],
            },
            DailyRss { datetime: at(start_of_day - 2 * DAY - 1), channels: vec![stored("http://c/", "z", None)] },
        ],
    };
    let rss = Rss::feed_rss(&config(2), Some(prior), DailyRss::new(&Vec::new(), at(NOON)));
    let instants: Vec<Timestamp> = rss.days.iter().map(|d| d.datetime).collect();
    assert_eq!(instants, vec![at(NOON), Timestamp { secs: start_of_day - 2 * DAY, nanos: 1 }]);
}

#[test]
fn run_at_midnight_with_no_retention_keeps_nothing() {
    let midnight = NOON - DAY / 2;
    let rss = Rss::feed_rss(
        &config(0),
        None,
        DailyRss::new(&vec![answered("http://a.example/", feed_xml("a", 1, None))], at(midnight)),
    );
    assert!(rss.days.is_empty());
}

#[test]
fn buckets_before_the_epoch_are_ordered_too() {
    let prior = Rss {
        site_title: String::new(),
        build_time: at(0),
        days: vec![
            DailyRss { datetime: at(-3 * DAY + 5), channels: vec![stored("http://a/", "x", None)] },
            DailyRss { datetime: at(-DAY - 1), channels: vec![stored("http://b/", "y", None)] },
            DailyRss { datetime: at(-2 * DAY), channels: vec![stored("http://c/", "z", None)] },
        ],
    };
    // the run is at 1969-12-31T23:59:50Z, whose day starts at -86400
    let rss = Rss::feed_rss(&config(1), Some(prior), DailyRss::new(&Vec::new(), at(-10)));
    let instants: Vec<Timestamp> = rss.days.iter().map(|d| d.datetime).collect();
    assert_eq!(instants, vec![at(-10), at(-DAY - 1)]);
}

#[test]
fn same_instant_from_history_and_today_is_merged() {
    let prior = Rss {
        site_title: String::new(),
        build_time: at(0),
        days: vec![DailyRss { datetime: at(NOON), channels: vec![stored("http://b/", "b", None)] }],
    };
    let responses = vec![answered("http://a/", feed_xml("a", 1, None))];
    let rss = Rss::feed_rss(&config(1), Some(prior), DailyRss::new(&responses, at(NOON)));
    assert_eq!(rss.days.len(), 1);
    assert_eq!(links(&rss.days[0]), vec!["http://a/".to_string(), "http://b/".to_string()]);
}

#[test]
fn stored_document_keeps_its_link_as_key() {
    let fresh = stored("http://a.example/feed", "a", None);
    let reloaded = FeedChannel::from_document(fresh.doc.clone());
    assert_eq!(reloaded.link, "http://a.example/feed");
    assert!(reloaded.same_as(&fresh));
    let other = stored("http://b.example/feed", "a", None);
    assert!(!other.same_as(&fresh));
}

#[test]
fn a_loaded_aggregate_comes_back_as_it_is() {
    let responses = vec![
        answered("http://b.example/", feed_xml("b", 1, None)),
        answered("http://a.example/", feed_xml("a", 2, Some("2021-03-04T08:30:00Z"))),
        answered("http://c.example/", feed_xml("c", 1, None)),
    ];
    let first = Rss::feed_rss(&config(7), None, DailyRss::new(&responses, at(NOON)));
    let again = Rss::feed_rss(&config(7), Some(first.clone()), DailyRss::new(&Vec::new(), at(NOON)));
    assert_eq!(first.days.len(), 2);
    assert_eq!(again.days.len(), first.days.len());
    for (x, y) in first.days.iter().zip(again.days.iter()) {
        assert_eq!(x.datetime, y.datetime);
        assert_eq!(x.channels.len(), y.channels.len());
        for (c, d) in x.channels.iter().zip(y.channels.iter()) {
            assert!(c.same_as(d));
        }
    }
}

#[test]
fn an_empty_bucket_of_an_earlier_run_is_not_kept() {
    let earlier = Rss::feed_rss(&config(7), None, DailyRss::new(&Vec::new(), at(NOON - DAY)));
    assert_eq!(earlier.days.len(), 1);
    assert!(earlier.days[0].channels.is_empty());
    let next = Rss::feed_rss(&config(7), Some(earlier), DailyRss::new(&Vec::new(), at(NOON)));
    assert_eq!(next.days.len(), 1);
    assert_eq!(next.days[0].datetime, at(NOON));
}

#[test]
fn a_cache_that_could_not_be_loaded_is_the_empty_aggregate() {
    let empty = cache_or_default(None);
    assert_eq!(empty.site_title, "");
    assert!(empty.days.is_empty());
    let loaded = Rss {
        site_title: "Kept".to_string(),
        build_time: at(NOON),
        days: vec![DailyRss { datetime: at(NOON), channels: Vec::new() }],
    };
    let same = cache_or_default(Some(loaded));
    assert_eq!(same.site_title, "Kept");
    assert_eq!(same.build_time, at(NOON));
    assert_eq!(same.days.len(), 1);
}

#[test]
fn only_a_status_of_success_keeps_the_body() {
    for status in [200u16, 204, 299] {
        let kept = Fetched::answered("http://a/".to_string(), status, b"body".to_vec());
        assert_eq!(kept.url, "http://a/");
        assert_eq!(kept.body, Some(b"body".to_vec()));
    }
    for status in [0u16, 100, 199, 300, 304, 404, 500, u16::MAX] {
        let dropped = Fetched::answered("http://a/".to_string(), status, b"body".to_vec());
        assert_eq!(dropped.url, "http://a/");
        assert_eq!(dropped.body, None);
    }
    let failed = Fetched::failed("http://b/".to_string());
    assert_eq!(failed.url, "http://b/");
    assert_eq!(failed.body, None);
}

#[test]
fn a_source_that_answers_with_an_error_gives_no_channel() {
    let responses = vec![
        Fetched::answered("http://a/".to_string(), 404, feed_xml("a", 1, None)),
        Fetched::answered("http://b/".to_string(), 200, feed_xml("b", 1, None)),
        Fetched::failed("http://c/".to_string()),
    ];
    let today = DailyRss::new(&responses, at(NOON));
    assert_eq!(links(&today), vec!["http://b/".to_string()]);
}
