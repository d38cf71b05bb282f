//! The run: today's channels are made from what the sources sent, merged
//! with the history that was loaded, regrouped by instant, cleaned of
//! duplicates and trimmed to the retention window.
//!
//! Buckets are keyed by exact instants. A channel that declares a date goes
//! to the bucket of that date; any other channel stays at the instant of the
//! bucket it came in, which for a fresh channel is the instant of the run.
//! Channels that meet at one instant are merged into one bucket, whether
//! they come from the history or from today; none replaces another. The
//! window is counted in whole days back from the start of the day of the
//! run, so that a window of no days still holds what is dated today.

use crate::aggregate::{
    bucket_channels, channels_at, day_pairs, flat_pairs, has_bucket_at, has_pair_at,
    is_aggregate_of, is_grouping_of, lemma_aggregate_unique, lemma_buckets_after_insert,
    lemma_buckets_after_update,
    lemma_no_pair_no_channels, lemma_one_more_pair, lemma_within_window, newest_first,
    DailyRssView, Dated, DatedView,
};
use crate::bucket::{dedup_adjacent, deduped, sort_by_link, sorted_by_key};
use crate::channel::{channel_from_body, FeedChannel, FeedChannelView};
use crate::config::Config;
use crate::timestamp::{is_within_window, within_window, Timestamp};
use vstd::prelude::*;

verus! {

/// One bucket of the aggregate: an instant and the channels attributed to
/// it.
#[derive(Clone, Debug)]
pub struct DailyRss {
    pub datetime: Timestamp,
    pub channels: Vec<FeedChannel>,
}

impl DeepView for DailyRss {
    type V = DailyRssView;

    open spec fn deep_view(&self) -> DailyRssView {
        DailyRssView { datetime: self.datetime, channels: self.channels.deep_view() }
    }
}

/// What one source sent: the body of its response, or nothing where the
/// request failed or was answered with an error.
#[derive(Clone, Debug)]
pub struct Fetched {
    pub url: String,
    pub body: Option<Vec<u8>>,
}

/// What one source sent, as plain values.
pub struct FetchedView {
    pub url: Seq<char>,
    pub body: Option<Seq<u8>>,
}

impl DeepView for Fetched {
    type V = FetchedView;

    open spec fn deep_view(&self) -> FetchedView {
        FetchedView {
            url: self.url@,
            body: match self.body {
                Some(bytes) => Some(bytes@),
                None => None,
            },
        }
    }
}

impl Fetched {
    /// What a source sent that answered with the status `status`: its body
    /// where the status is one of success (200 to 299), and nothing else.
    pub fn answered(url: String, status: u16, body: Vec<u8>) -> (fetched: Fetched)
        ensures
            fetched.url == url,
            fetched.body == if 200 <= status <= 299 {
                Some(body)
            } else {
                None
            },
    {
        if 200 <= status && status <= 299 {
            Fetched { url, body: Some(body) }
        } else {
            Fetched { url, body: None }
        }
    }

    /// What is recorded for a source that could not be reached or did not
    /// answer in time: nothing.
    pub fn failed(url: String) -> (fetched: Fetched)
        ensures
            fetched.url == url,
            fetched.body is None,
    {
        Fetched { url, body: None }
    }
}

/// The channel of one response, if the source answered with a feed
/// document.
pub open spec fn channel_of_response(response: FetchedView) -> Option<FeedChannelView> {
    match response.body {
        Some(bytes) => channel_from_body(response.url, bytes),
        None => None,
    }
}

/// The channels of the sources that answered with a feed document, in the
/// order of the sources.
pub open spec fn fetched_channels(responses: Seq<FetchedView>) -> Seq<FeedChannelView>
    decreases responses.len(),
{
    if responses.len() == 0 {
        Seq::empty()
    } else {
        match channel_of_response(responses.last()) {
            Some(channel) => fetched_channels(responses.drop_last()).push(channel),
            None => fetched_channels(responses.drop_last()),
        }
    }
}

/// Where no source answered with a feed document, nothing was fetched.
pub proof fn lemma_nothing_fetched(responses: Seq<FetchedView>)
    requires
        forall|i: int|
            0 <= i < responses.len() ==> channel_of_response(#[trigger] responses[i]) is None,
    ensures
        fetched_channels(responses) == Seq::<FeedChannelView>::empty(),
    decreases responses.len(),
{
    if responses.len() > 0 {
        let front = responses.drop_last();
        assert forall|i: int| 0 <= i < front.len() implies channel_of_response(
            #[trigger] front[i],
        ) is None by {
            assert(front[i] == responses[i]);
        }
        lemma_nothing_fetched(front);
        assert(channel_of_response(responses[responses.len() - 1]) is None);
    }
}

impl DailyRss {
    /// Today's bucket, from what the sources sent. A source that did not
    /// answer, or whose answer is no feed document, is left out; the others
    /// give one channel each, keyed by the URL of the source.
    pub fn new(responses: &Vec<Fetched>, now: Timestamp) -> (day: DailyRss)
        ensures
            day.datetime == now,
            day.channels.deep_view() == fetched_channels(responses.deep_view()),
    {
        let ghost all = responses.deep_view();
        let mut channels: Vec<FeedChannel> = Vec::new();
        let mut i: usize = 0;
        assert(all.take(0) =~= Seq::empty());
        while i < responses.len()
            invariant
                i <= responses.len(),
                all == responses.deep_view(),
                channels.deep_view() == fetched_channels(all.take(i as int)),
            decreases responses.len() - i,
        {
            let ghost before = channels.deep_view();
            assert(all.take(i + 1).drop_last() =~= all.take(i as int));
            assert(all.take(i + 1).last() == responses@[i as int].deep_view());
            let response = &responses[i];
            match &response.body {
                Some(bytes) => {
                    match FeedChannel::parse(response.url.as_str(), bytes.as_slice()) {
                        Some(channel) => {
                            channels.push(channel);
                            assert(channels.deep_view() =~= before.push(channel@));
                        },
                        None => {},
                    }
                },
                None => {},
            }
            i += 1;
        }
        assert(all.take(all.len() as int) =~= all);
        DailyRss { datetime: now, channels }
    }
}

/// The aggregate: the title of the site, the instant of the run that built
/// it, and the buckets, newest first.
#[derive(Clone, Debug)]
pub struct Rss {
    pub site_title: String,
    pub build_time: Timestamp,
    pub days: Vec<DailyRss>,
}

impl Default for Rss {
    /// The aggregate that stands in where none could be loaded: no title
    /// and no buckets.
    fn default() -> (rss: Rss)
        ensures
            rss.site_title@.len() == 0,
            rss.build_time == (Timestamp { secs: 0, nanos: 0 }),
            rss.days@.len() == 0,
    {
        Rss { site_title: String::new(), build_time: Timestamp { secs: 0, nanos: 0 }, days: Vec::new() }
    }
}

/// The aggregate that a run starts from: the one that was loaded, or the
/// empty one where none could be loaded.
pub fn cache_or_default(loaded: Option<Rss>) -> (rss: Rss)
    ensures
        loaded_days(Some(rss)) == loaded_days(loaded),
        match loaded {
            Some(found) => rss == found,
            None => rss.site_title@.len() == 0 && rss.days@.len() == 0,
        },
{
    match loaded {
        Some(found) => found,
        None => {
            let empty = Rss::default();
            assert(empty.days.deep_view() =~= Seq::empty());
            empty
        },
    }
}

/// The buckets of the history that a run starts from: those of the loaded
/// aggregate, and none where no aggregate could be loaded.
pub open spec fn loaded_days(cache: Option<Rss>) -> Seq<DailyRssView> {
    match cache {
        Some(rss) => rss.days.deep_view(),
        None => Seq::empty(),
    }
}

/// A run for which no aggregate could be loaded goes on as a run that
/// loaded an aggregate without buckets: the two start from the same
/// history, and so their aggregates have the same buckets.
pub proof fn lemma_missing_cache_is_empty_cache(
    without: Seq<DailyRssView>,
    with_empty: Seq<DailyRssView>,
    empty: Rss,
    today: DailyRssView,
    retention_days: int,
)
    requires
        empty.days@.len() == 0,
        is_aggregate_of(
            without,
            flat_pairs(loaded_days(None).push(today)),
            today.datetime,
            retention_days,
        ),
        is_aggregate_of(
            with_empty,
            flat_pairs(loaded_days(Some(empty)).push(today)),
            today.datetime,
            retention_days,
        ),
    ensures
        loaded_days(Some(empty)) == loaded_days(None),
        without == with_empty,
{
    assert(empty.days.deep_view() =~= Seq::empty());
    lemma_aggregate_unique(
        without,
        with_empty,
        flat_pairs(loaded_days(None).push(today)),
        today.datetime,
        retention_days,
    );
}

/// Each channel of each bucket with the instant it is attributed to.
fn dated_channels(days: Vec<DailyRss>) -> (pairs: Vec<Dated>)
    ensures
        pairs.deep_view() == flat_pairs(days.deep_view()),
{
    let ghost all = days.deep_view();
    let mut pairs: Vec<Dated> = Vec::new();
    assert(all.take(0) =~= Seq::empty());
    for day in it: days
        invariant
            it.seq().len() == all.len(),
            forall|k: int| 0 <= k < all.len() ==> (#[trigger] it.seq()[k]).deep_view() == all[k],
            pairs.deep_view() == flat_pairs(all.take(it.index() as int)),
    {
        let ghost done = pairs.deep_view();
        let ghost this = day.deep_view();
        let datetime = day.datetime;
        let channels = day.channels;
        assert(day_pairs(this).take(0) =~= Seq::empty());
        assert(done + Seq::<DatedView>::empty() =~= done);
        for channel in at: channels
            invariant
                at.seq().len() == this.channels.len(),
                forall|k: int|
                    0 <= k < this.channels.len() ==> (#[trigger] at.seq()[k])@ == this.channels[k],
                this.datetime == datetime,
                pairs.deep_view() == done + day_pairs(this).take(at.index() as int),
        {
            let ghost so_far = pairs.deep_view();
            let instant = channel.timestamp(datetime);
            pairs.push(Dated { at: instant, channel });
            assert(pairs.deep_view() =~= so_far.push(day_pairs(this)[at.index() as int]));
            assert(done + day_pairs(this).take(at.index() + 1) =~= (done + day_pairs(this).take(
                at.index() as int,
            )).push(day_pairs(this)[at.index() as int]));
        }
        assert(day_pairs(this).take(this.channels.len() as int) =~= day_pairs(this));
        assert(all.take(it.index() + 1).drop_last() =~= all.take(it.index() as int));
        assert(all.take(it.index() + 1).last() == this);
    }
    assert(all.take(all.len() as int) =~= all);
    pairs
}

/// Puts a dated channel into the bucket of its instant, behind the
/// channels that are there, and makes that bucket where there is none.
/// Returns the index of the bucket.
fn place(groups: &mut Vec<DailyRss>, pair: Dated) -> (at: usize)
    requires
        newest_first(old(groups).deep_view()),
    ensures
        newest_first(final(groups).deep_view()),
        at < final(groups).len(),
        ({
            &&& at < old(groups).len()
            &&& old(groups)[at as int].datetime == pair.at
            &&& final(groups).deep_view() == old(groups).deep_view().update(
                at as int,
                DailyRssView {
                    datetime: pair.at,
                    channels: old(groups).deep_view()[at as int].channels.push(pair.channel@),
                },
            )
        }) || ({
            &&& !has_bucket_at(old(groups).deep_view(), pair.at)
            &&& at <= old(groups).len()
            &&& final(groups).deep_view() == old(groups).deep_view().insert(
                at as int,
                DailyRssView { datetime: pair.at, channels: seq![pair.channel@] },
            )
        }),
{
    let ghost before = groups.deep_view();
    let mut at: usize = 0;
    while at < groups.len() && groups[at].datetime.is_later_than(&pair.at)
        invariant
            at <= groups.len(),
            groups.deep_view() == before,
            forall|m: int| 0 <= m < at ==> (#[trigger] before[m]).datetime.later_than(pair.at),
        decreases groups.len() - at,
    {
        at += 1;
    }
    if at < groups.len() && groups[at].datetime == pair.at {
        let mut day = groups.remove(at);
        let ghost had = day.channels.deep_view();
        day.channels.push(pair.channel);
        assert(day.channels.deep_view() =~= had.push(pair.channel@));
        groups.insert(at, day);
        assert(groups.deep_view() =~= before.update(
            at as int,
            DailyRssView { datetime: pair.at, channels: before[at as int].channels.push(pair.channel@) },
        ));
    } else {
        let mut channels: Vec<FeedChannel> = Vec::new();
        channels.push(pair.channel);
        assert(channels.deep_view() =~= seq![pair.channel@]);
        proof {
            assert forall|k: int| 0 <= k < before.len() implies (#[trigger] before[k]).datetime
                != pair.at by {
                if k > at {
                    assert(before[at as int].datetime.later_than(before[k].datetime));
                }
            }
        }
        groups.insert(at, DailyRss { datetime: pair.at, channels });
        assert(groups.deep_view() =~= before.insert(
            at as int,
            DailyRssView { datetime: pair.at, channels: seq![pair.channel@] },
        ));
        assert(newest_first(groups.deep_view())) by {
            let after = groups.deep_view();
            assert forall|i: int, j: int| 0 <= i < j < after.len() implies (#[trigger] after[i]).datetime.later_than(
                (#[trigger] after[j]).datetime,
            ) by {
                if j < at {
                    assert(after[i] == before[i] && after[j] == before[j]);
                } else if j == at {
                    assert(after[i] == before[i]);
                } else if i == at {
                    assert(after[j] == before[j - 1]);
                    if j - 1 > at {
                        assert(before[at as int].datetime.later_than(before[j - 1].datetime));
                    }
                } else if i < at {
                    assert(after[i] == before[i] && after[j] == before[j - 1]);
                } else {
                    assert(after[i] == before[i - 1] && after[j] == before[j - 1]);
                }
            }
        }
    }
    at
}

/// Regroups dated channels by instant, within the window of a run at
/// `now`. The instant of the run has a bucket even if no channel is
/// attributed to it.
fn grouped(pairs: Vec<Dated>, now: Timestamp, retention_days: i64) -> (groups: Vec<DailyRss>)
    ensures
        is_grouping_of(groups.deep_view(), pairs.deep_view(), now, retention_days as int),
{
    let ghost all = pairs.deep_view();
    let ghost window = retention_days as int;
    let mut groups: Vec<DailyRss> = Vec::new();
    if is_within_window(&now, &now, retention_days) {
        groups.push(DailyRss { datetime: now, channels: Vec::new() });
        assert(groups.deep_view()[0].channels =~= Seq::empty());
    }
    proof {
        let first = groups.deep_view();
        let none = all.take(0);
        assert(none =~= Seq::empty());
        assert forall|t: Timestamp| #[trigger]
            has_bucket_at(first, t) <==> within_window(t, now, window) && (t == now
                || has_pair_at(none, t)) by {
            if within_window(now, now, window) {
                assert(first[0].datetime == now);
            }
        }
    }
    for pair in it: pairs
        invariant
            it.seq().len() == all.len(),
            forall|k: int| 0 <= k < all.len() ==> (#[trigger] it.seq()[k]).deep_view() == all[k],
            window == retention_days as int,
            is_grouping_of(groups.deep_view(), all.take(it.index() as int), now, window),
    {
        let ghost before = groups.deep_view();
        let ghost seen = all.take(it.index() as int);
        let ghost this = pair.deep_view();
        let ghost more = all.take(it.index() + 1);
        assert(more =~= seen.push(this));
        proof {
            assert forall|t: Timestamp|
                channels_at(more, t) == (if this.at == t {
                    channels_at(seen, t).push(this.channel)
                } else {
                    channels_at(seen, t)
                }) && (has_pair_at(more, t) <==> has_pair_at(seen, t) || this.at == t) by {
                lemma_one_more_pair(seen, this, t);
            }
        }
        if is_within_window(&pair.at, &now, retention_days) {
            let at = place(&mut groups, pair);
            proof {
                let after = groups.deep_view();
                if at < before.len() && before[at as int].datetime == this.at && after
                    == before.update(
                    at as int,
                    DailyRssView {
                        datetime: this.at,
                        channels: before[at as int].channels.push(this.channel),
                    },
                ) {
                    lemma_buckets_after_update(before, at as int, after[at as int]);
                    assert(has_bucket_at(before, this.at));
                    assert forall|k: int| 0 <= k < after.len() implies (#[trigger] after[k]).channels
                        == channels_at(more, after[k].datetime) by {
                        if k != at {
                            assert(after[k] == before[k]);
                            if k < at {
                                assert(before[k].datetime.later_than(before[at as int].datetime));
                            } else {
                                assert(before[at as int].datetime.later_than(before[k].datetime));
                            }
                        }
                    }
                } else {
                    lemma_buckets_after_insert(before, at as int, after[at as int]);
                    lemma_no_pair_no_channels(seen, this.at);
                    assert(channels_at(more, this.at) =~= seq![this.channel]);
                    assert forall|k: int| 0 <= k < after.len() implies (#[trigger] after[k]).channels
                        == channels_at(more, after[k].datetime) by {
                        if k < at {
                            assert(after[k] == before[k]);
                            assert(has_bucket_at(before, before[k].datetime));
                        } else if k > at {
                            assert(after[k] == before[k - 1]);
                            assert(has_bucket_at(before, before[k - 1].datetime));
                        }
                    }
                }
            }
        } else {
            proof {
                assert forall|k: int| 0 <= k < before.len() implies (#[trigger] before[k]).channels
                    == channels_at(more, before[k].datetime) by {
                    assert(has_bucket_at(before, before[k].datetime));
                }
            }
        }
    }
    assert(all.take(all.len() as int) =~= all);
    groups
}

/// Orders the channels of each bucket by key and collapses adjacent
/// duplicates.
fn tidied(groups: Vec<DailyRss>) -> (days: Vec<DailyRss>)
    ensures
        days.len() == groups.len(),
        forall|k: int|
            0 <= k < days.len() ==> {
                &&& (#[trigger] days.deep_view()[k]).datetime == groups.deep_view()[k].datetime
                &&& days.deep_view()[k].channels == deduped(
                    sorted_by_key(groups.deep_view()[k].channels),
                )
            },
{
    let ghost all = groups.deep_view();
    let mut days: Vec<DailyRss> = Vec::new();
    for day in it: groups
        invariant
            it.seq().len() == all.len(),
            forall|k: int| 0 <= k < all.len() ==> (#[trigger] it.seq()[k]).deep_view() == all[k],
            days.len() == it.index(),
            forall|k: int|
                0 <= k < days.len() ==> {
                    &&& (#[trigger] days.deep_view()[k]).datetime == all[k].datetime
                    &&& days.deep_view()[k].channels == deduped(
                        sorted_by_key(all[k].channels),
                    )
                },
    {
        let ghost done = days.deep_view();
        let datetime = day.datetime;
        let channels = dedup_adjacent(sort_by_link(day.channels));
        days.push(DailyRss { datetime, channels });
        assert forall|k: int| 0 <= k < days.len() implies {
            &&& (#[trigger] days.deep_view()[k]).datetime == all[k].datetime
            &&& days.deep_view()[k].channels == deduped(
                sorted_by_key(all[k].channels),
            )
        } by {
            if k < done.len() {
                assert(days.deep_view()[k] == done[k]);
            }
        }
    }
    days
}

impl Rss {
    /// One run of the engine. The history that was loaded, if any, and
    /// today's bucket are taken apart into dated channels and regrouped by
    /// instant; buckets outside the retention window of `config` are
    /// dropped; within each bucket the channels are ordered by key and
    /// adjacent duplicates collapse; the buckets come newest first. The
    /// instant of the run is that of today's bucket.
    pub fn feed_rss(config: &Config, cache: Option<Rss>, today: DailyRss) -> (rss: Rss)
        ensures
            rss.site_title@ == config.site_title@,
            rss.build_time == today.datetime,
            is_aggregate_of(
                rss.days.deep_view(),
                flat_pairs(loaded_days(cache).push(today.deep_view())),
                today.datetime,
                config.cache_max_days as int,
            ),
            newest_first(rss.days.deep_view()),
            forall|k: int|
                0 <= k < rss.days.len() ==> within_window(
                    (#[trigger] rss.days.deep_view()[k]).datetime,
                    today.datetime,
                    config.cache_max_days as int,
                ),
    {
        let now = today.datetime;
        let ghost history = loaded_days(cache);
        let mut days: Vec<DailyRss> = cache_or_default(cache).days;
        assert(days.deep_view() =~= history);
        let ghost fresh = today.deep_view();
        days.push(today);
        assert(days.deep_view() =~= history.push(fresh));
        let pairs = dated_channels(days);
        let groups = grouped(pairs, now, config.cache_max_days);
        let ghost grouping = groups.deep_view();
        let days = tidied(groups);
        proof {
            let result = days.deep_view();
            let all = pairs.deep_view();
            let window = config.cache_max_days as int;
            assert forall|t: Timestamp| #[trigger]
                has_bucket_at(result, t) <==> has_bucket_at(grouping, t) by {
                if has_bucket_at(grouping, t) {
                    let k = choose|k: int|
                        0 <= k < grouping.len() && (#[trigger] grouping[k]).datetime == t;
                    assert(result[k].datetime == t);
                }
                if has_bucket_at(result, t) {
                    let k = choose|k: int|
                        0 <= k < result.len() && (#[trigger] result[k]).datetime == t;
                    assert(grouping[k].datetime == t);
                }
            }
            assert forall|i: int, j: int| 0 <= i < j < result.len() implies (#[trigger] result[i]).datetime.later_than(
                (#[trigger] result[j]).datetime,
            ) by {
                assert(grouping[i].datetime.later_than(grouping[j].datetime));
            }
            assert forall|k: int| 0 <= k < result.len() implies (#[trigger] result[k]).channels
                == bucket_channels(all, result[k].datetime) by {
                assert(grouping[k].channels == channels_at(all, grouping[k].datetime));
            }
            lemma_within_window(result, all, now, window);
        }
        Rss { site_title: config.site_title.clone(), build_time: now, days }
    }
}

} // verus!
