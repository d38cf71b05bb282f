//! What an aggregate is in terms of the dated channels that go into it.

use crate::bucket::{
    deduped, lemma_deduped_keys_ascend, lemma_sorted_by_key, one_channel_per_key, sorted_by_key,
};
use crate::channel::{timestamp_of, FeedChannel, FeedChannelView};
use crate::timestamp::{within_window, Timestamp};
use vstd::prelude::*;

verus! {

/// A channel with the instant that it is attributed to.
pub struct DatedView {
    pub at: Timestamp,
    pub channel: FeedChannelView,
}

/// A channel with the instant that it is attributed to.
pub struct Dated {
    pub at: Timestamp,
    pub channel: FeedChannel,
}

impl DeepView for Dated {
    type V = DatedView;

    open spec fn deep_view(&self) -> DatedView {
        DatedView { at: self.at, channel: self.channel@ }
    }
}

/// One bucket: an instant and the channels attributed to it.
pub struct DailyRssView {
    pub datetime: Timestamp,
    pub channels: Seq<FeedChannelView>,
}

/// The channels of a bucket, each with the instant it is attributed to:
/// its own declared date, or else the instant of the bucket.
pub open spec fn day_pairs(day: DailyRssView) -> Seq<DatedView> {
    Seq::new(
        day.channels.len(),
        |i: int|
            DatedView {
                at: timestamp_of(day.channels[i], day.datetime),
                channel: day.channels[i],
            },
    )
}

/// The dated channels of all buckets, in the order of the buckets.
pub open spec fn flat_pairs(days: Seq<DailyRssView>) -> Seq<DatedView>
    decreases days.len(),
{
    if days.len() == 0 {
        Seq::empty()
    } else {
        flat_pairs(days.drop_last()) + day_pairs(days.last())
    }
}

/// The channels that `pairs` attributes to the instant `t`, in their order.
pub open spec fn channels_at(pairs: Seq<DatedView>, t: Timestamp) -> Seq<FeedChannelView>
    decreases pairs.len(),
{
    if pairs.len() == 0 {
        Seq::empty()
    } else if pairs.last().at == t {
        channels_at(pairs.drop_last(), t).push(pairs.last().channel)
    } else {
        channels_at(pairs.drop_last(), t)
    }
}

/// Some channel of `pairs` is attributed to the instant `t`.
pub open spec fn has_pair_at(pairs: Seq<DatedView>, t: Timestamp) -> bool {
    exists|i: int| 0 <= i < pairs.len() && (#[trigger] pairs[i]).at == t
}

/// Some bucket of `days` has the instant `t`.
pub open spec fn has_bucket_at(days: Seq<DailyRssView>, t: Timestamp) -> bool {
    exists|k: int| 0 <= k < days.len() && (#[trigger] days[k]).datetime == t
}

/// Each bucket is strictly later than all buckets behind it.
pub open spec fn newest_first(days: Seq<DailyRssView>) -> bool {
    forall|i: int, j: int|
        0 <= i < j < days.len() ==> (#[trigger] days[i]).datetime.later_than(
            (#[trigger] days[j]).datetime,
        )
}

/// The channels of the bucket at `t`: those that `pairs` attributes to
/// `t`, ordered by key, without adjacent duplicates.
pub open spec fn bucket_channels(pairs: Seq<DatedView>, t: Timestamp) -> Seq<FeedChannelView> {
    deduped(sorted_by_key(channels_at(pairs, t)))
}

/// `days` is the aggregate of a run at `now` over the dated channels
/// `pairs`, with a window of `retention_days` days: the buckets come newest
/// first; there is a bucket for the instant of the run and for each instant
/// that a channel is attributed to, as far as the instant is within the
/// window, and for no other; and each bucket holds the channels of its
/// instant, ordered and without adjacent duplicates.
pub open spec fn is_aggregate_of(
    days: Seq<DailyRssView>,
    pairs: Seq<DatedView>,
    now: Timestamp,
    retention_days: int,
) -> bool {
    &&& newest_first(days)
    &&& forall|t: Timestamp| #[trigger]
        has_bucket_at(days, t) <==> within_window(t, now, retention_days) && (t == now
            || has_pair_at(pairs, t))
    &&& forall|k: int|
        0 <= k < days.len() ==> (#[trigger] days[k]).channels == bucket_channels(
            pairs,
            days[k].datetime,
        )
}

/// `groups` holds the channels of `pairs` regrouped by instant, within the
/// window of a run at `now`: as `is_aggregate_of`, but with the channels
/// of each bucket still in the order of `pairs`.
pub open spec fn is_grouping_of(
    groups: Seq<DailyRssView>,
    pairs: Seq<DatedView>,
    now: Timestamp,
    retention_days: int,
) -> bool {
    &&& newest_first(groups)
    &&& forall|t: Timestamp| #[trigger]
        has_bucket_at(groups, t) <==> within_window(t, now, retention_days) && (t == now
            || has_pair_at(pairs, t))
    &&& forall|k: int|
        0 <= k < groups.len() ==> (#[trigger] groups[k]).channels == channels_at(
            pairs,
            groups[k].datetime,
        )
}

/// One more dated channel adds itself to the channels of its instant, and
/// to those of no other.
pub proof fn lemma_one_more_pair(pairs: Seq<DatedView>, pair: DatedView, t: Timestamp)
    ensures
        channels_at(pairs.push(pair), t) == if pair.at == t {
            channels_at(pairs, t).push(pair.channel)
        } else {
            channels_at(pairs, t)
        },
        has_pair_at(pairs.push(pair), t) <==> has_pair_at(pairs, t) || pair.at == t,
{
    let more = pairs.push(pair);
    assert(more.drop_last() =~= pairs);
    assert(more.last() == pair);
    if has_pair_at(pairs, t) {
        let i = choose|i: int| 0 <= i < pairs.len() && (#[trigger] pairs[i]).at == t;
        assert(more[i].at == t);
    }
    if pair.at == t {
        assert(more[pairs.len() as int].at == t);
    }
    if has_pair_at(more, t) {
        let i = choose|i: int| 0 <= i < more.len() && (#[trigger] more[i]).at == t;
        if i < pairs.len() {
            assert(pairs[i].at == t);
        }
    }
}

/// Where no channel is attributed to an instant, the instant has no
/// channels.
pub proof fn lemma_no_pair_no_channels(pairs: Seq<DatedView>, t: Timestamp)
    requires
        !has_pair_at(pairs, t),
    ensures
        channels_at(pairs, t) == Seq::<FeedChannelView>::empty(),
    decreases pairs.len(),
{
    if pairs.len() > 0 {
        assert(pairs[pairs.len() - 1].at != t);
        assert forall|i: int| 0 <= i < pairs.drop_last().len() implies (#[trigger] pairs.drop_last()[i]).at
            != t by {
            assert(pairs[i].at != t);
        }
        lemma_no_pair_no_channels(pairs.drop_last(), t);
    }
}

/// Replacing a bucket by one of the same instant leaves the instants that
/// have a bucket as they are.
pub proof fn lemma_buckets_after_update(days: Seq<DailyRssView>, at: int, day: DailyRssView)
    requires
        0 <= at < days.len(),
        days[at].datetime == day.datetime,
    ensures
        forall|t: Timestamp| #[trigger]
            has_bucket_at(days.update(at, day), t) <==> has_bucket_at(days, t),
{
    let after = days.update(at, day);
    assert forall|t: Timestamp| #[trigger] has_bucket_at(after, t) <==> has_bucket_at(days, t) by {
        if has_bucket_at(days, t) {
            let k = choose|k: int| 0 <= k < days.len() && (#[trigger] days[k]).datetime == t;
            assert(after[k].datetime == t);
        }
        if has_bucket_at(after, t) {
            let k = choose|k: int| 0 <= k < after.len() && (#[trigger] after[k]).datetime == t;
            assert(days[k].datetime == t);
        }
    }
}

/// A new bucket adds its instant to the instants that have a bucket.
pub proof fn lemma_buckets_after_insert(days: Seq<DailyRssView>, at: int, day: DailyRssView)
    requires
        0 <= at <= days.len(),
    ensures
        forall|t: Timestamp| #[trigger]
            has_bucket_at(days.insert(at, day), t) <==> has_bucket_at(days, t) || t
                == day.datetime,
{
    let after = days.insert(at, day);
    assert forall|t: Timestamp| #[trigger]
        has_bucket_at(after, t) <==> has_bucket_at(days, t) || t == day.datetime by {
        if has_bucket_at(days, t) {
            let k = choose|k: int| 0 <= k < days.len() && (#[trigger] days[k]).datetime == t;
            if k < at {
                assert(after[k].datetime == t);
            } else {
                assert(after[k + 1].datetime == t);
            }
        }
        if t == day.datetime {
            assert(after[at].datetime == t);
        }
        if has_bucket_at(after, t) {
            let k = choose|k: int| 0 <= k < after.len() && (#[trigger] after[k]).datetime == t;
            if k < at {
                assert(days[k].datetime == t);
            } else if k > at {
                assert(days[k - 1].datetime == t);
            }
        }
    }
}

/// `pairs` attributes the channel `c` to the instant `t`.
pub open spec fn attributes(pairs: Seq<DatedView>, t: Timestamp, c: FeedChannelView) -> bool {
    exists|i: int| 0 <= i < pairs.len() && (#[trigger] pairs[i]).at == t && pairs[i].channel == c
}

/// The channels of an instant are channels that `pairs` attributes to it.
pub proof fn lemma_channels_at_from(pairs: Seq<DatedView>, t: Timestamp)
    ensures
        forall|m: int|
            0 <= m < channels_at(pairs, t).len() ==> attributes(
                pairs,
                t,
                #[trigger] channels_at(pairs, t)[m],
            ),
    decreases pairs.len(),
{
    if pairs.len() > 0 {
        let front = pairs.drop_last();
        lemma_channels_at_from(front, t);
        let here = channels_at(pairs, t);
        assert forall|m: int| 0 <= m < here.len() implies attributes(pairs, t, #[trigger] here[m]) by {
            if m < channels_at(front, t).len() {
                assert(here[m] == channels_at(front, t)[m]);
                assert(attributes(front, t, channels_at(front, t)[m]));
                let i = choose|i: int|
                    0 <= i < front.len() && (#[trigger] front[i]).at == t && front[i].channel
                        == here[m];
                assert(pairs[i] == front[i]);
            } else {
                assert(pairs[pairs.len() - 1].at == t);
            }
        }
    }
}

/// Channels that are attributed to one instant and share a key are the
/// same channel.
pub open spec fn one_channel_per_key_and_instant(pairs: Seq<DatedView>) -> bool {
    forall|i: int, j: int|
        0 <= i < pairs.len() && 0 <= j < pairs.len() && (#[trigger] pairs[i]).at == (
        #[trigger] pairs[j]).at && pairs[i].channel.link == pairs[j].channel.link
            ==> pairs[i].channel == pairs[j].channel
}

/// No bucket of `days` holds two channels with the same key.
pub open spec fn keys_distinct(days: Seq<DailyRssView>) -> bool {
    forall|k: int, a: int, b: int|
        0 <= k < days.len() && 0 <= a < b < days[k].channels.len() ==> (
        #[trigger] days[k].channels[a]).link != (#[trigger] days[k].channels[b]).link
}

/// In an aggregate the identity keys within each bucket are pairwise
/// distinct, provided that the channels that went in were free of
/// conflicts: two channels attributed to one instant under one key were
/// the same channel. (Two different documents under one key and one instant
/// both stay: only exact duplicates collapse.)
pub proof fn lemma_keys_distinct(
    days: Seq<DailyRssView>,
    pairs: Seq<DatedView>,
    now: Timestamp,
    retention_days: int,
)
    requires
        is_aggregate_of(days, pairs, now, retention_days),
        one_channel_per_key_and_instant(pairs),
    ensures
        keys_distinct(days),
{
    assert forall|k: int, a: int, b: int|
        0 <= k < days.len() && 0 <= a < b < days[k].channels.len() implies (
    #[trigger] days[k].channels[a]).link != (#[trigger] days[k].channels[b]).link by {
        let t = days[k].datetime;
        let s = channels_at(pairs, t);
        let r = sorted_by_key(s);
        lemma_channels_at_from(pairs, t);
        assert(one_channel_per_key(s)) by {
            assert forall|x: int, y: int|
                0 <= x < s.len() && 0 <= y < s.len() && (#[trigger] s[x]).link == (
                #[trigger] s[y]).link implies s[x] == s[y] by {
                assert(attributes(pairs, t, s[x]));
                assert(attributes(pairs, t, s[y]));
                let i = choose|i: int|
                    0 <= i < pairs.len() && (#[trigger] pairs[i]).at == t && pairs[i].channel
                        == s[x];
                let j = choose|j: int|
                    0 <= j < pairs.len() && (#[trigger] pairs[j]).at == t && pairs[j].channel
                        == s[y];
                assert(pairs[i].channel == pairs[j].channel);
            }
        }
        lemma_sorted_by_key(s);
        assert(one_channel_per_key(r)) by {
            assert forall|x: int, y: int|
                0 <= x < r.len() && 0 <= y < r.len() && (#[trigger] r[x]).link == (
                #[trigger] r[y]).link implies r[x] == r[y] by {
                assert(s.contains(r[x]));
                assert(s.contains(r[y]));
                let i = choose|i: int| 0 <= i < s.len() && s[i] == r[x];
                let j = choose|j: int| 0 <= j < s.len() && s[j] == r[y];
                assert(s[i] == s[j]);
            }
        }
        lemma_deduped_keys_ascend(r);
        assert(days[k].channels == deduped(r));
    }
}

/// Every bucket of an aggregate is within the retention window of the run.
pub proof fn lemma_within_window(
    days: Seq<DailyRssView>,
    pairs: Seq<DatedView>,
    now: Timestamp,
    retention_days: int,
)
    requires
        is_aggregate_of(days, pairs, now, retention_days),
    ensures
        forall|k: int|
            0 <= k < days.len() ==> within_window(
                (#[trigger] days[k]).datetime,
                now,
                retention_days,
            ),
{
    assert forall|k: int| 0 <= k < days.len() implies within_window(
        (#[trigger] days[k]).datetime,
        now,
        retention_days,
    ) by {
        assert(has_bucket_at(days, days[k].datetime));
    }
}

/// A bucket without channels adds no dated channels.
pub proof fn lemma_empty_day_adds_nothing(history: Seq<DailyRssView>, now: Timestamp)
    ensures
        flat_pairs(history.push(DailyRssView { datetime: now, channels: Seq::empty() }))
            == flat_pairs(history),
{
    let day = DailyRssView { datetime: now, channels: Seq::empty() };
    assert(history.push(day).drop_last() =~= history);
    assert(day_pairs(day) =~= Seq::empty());
    assert(flat_pairs(history) + Seq::<DatedView>::empty() =~= flat_pairs(history));
}

/// Where every source failed, the run returns the history, regrouped and
/// trimmed to the window, and a bucket for the instant of the run, which
/// is empty unless the history attributes a channel to that very instant.
/// The instant of the run must itself be within the window: with a window
/// of no days, a run at the first instant of a day keeps nothing.
pub proof fn lemma_all_sources_failed(
    days: Seq<DailyRssView>,
    history: Seq<DailyRssView>,
    now: Timestamp,
    retention_days: int,
)
    requires
        is_aggregate_of(
            days,
            flat_pairs(history.push(DailyRssView { datetime: now, channels: Seq::empty() })),
            now,
            retention_days,
        ),
        within_window(now, now, retention_days),
    ensures
        is_aggregate_of(days, flat_pairs(history), now, retention_days),
        exists|k: int|
            0 <= k < days.len() && (#[trigger] days[k]).datetime == now && (!has_pair_at(
                flat_pairs(history),
                now,
            ) ==> days[k].channels.len() == 0),
{
    lemma_empty_day_adds_nothing(history, now);
    assert(has_bucket_at(days, now));
    let k = choose|k: int| 0 <= k < days.len() && (#[trigger] days[k]).datetime == now;
    if !has_pair_at(flat_pairs(history), now) {
        lemma_no_pair_no_channels(flat_pairs(history), now);
        assert(sorted_by_key(Seq::<FeedChannelView>::empty()) =~= Seq::empty());
        assert(deduped(Seq::<FeedChannelView>::empty()) =~= Seq::empty());
    }
}

/// The aggregate of a run is determined by what went into the run: two
/// aggregates of the same dated channels, instant and window are equal.
pub proof fn lemma_aggregate_unique(
    first: Seq<DailyRssView>,
    second: Seq<DailyRssView>,
    pairs: Seq<DatedView>,
    now: Timestamp,
    retention_days: int,
)
    requires
        is_aggregate_of(first, pairs, now, retention_days),
        is_aggregate_of(second, pairs, now, retention_days),
    ensures
        first == second,
{
    lemma_same_instants(first, second);
    assert forall|k: int| 0 <= k < first.len() implies first[k] == second[k] by {
        assert(first[k].channels == bucket_channels(pairs, first[k].datetime));
        assert(second[k].channels == bucket_channels(pairs, second[k].datetime));
    }
    assert(first =~= second);
}

/// Two sequences of buckets that come newest first and have buckets at the
/// same instants have the same instants at the same places.
proof fn lemma_same_instants(first: Seq<DailyRssView>, second: Seq<DailyRssView>)
    requires
        newest_first(first),
        newest_first(second),
        forall|t: Timestamp| #[trigger] has_bucket_at(first, t) <==> has_bucket_at(second, t),
    ensures
        first.len() == second.len(),
        forall|k: int| 0 <= k < first.len() ==> (#[trigger] first[k]).datetime == second[k].datetime,
    decreases first.len(),
{
    if first.len() == 0 {
        if second.len() > 0 {
            assert(has_bucket_at(second, second[0].datetime));
            let t = second[0].datetime;
            assert(has_bucket_at(first, t));
        }
    } else {
        let a = first.last();
        assert(has_bucket_at(first, a.datetime));
        assert(has_bucket_at(second, a.datetime));
        let at = choose|k: int| 0 <= k < second.len() && (#[trigger] second[k]).datetime == a.datetime;
        let b = second.last();
        assert(has_bucket_at(second, b.datetime));
        assert(has_bucket_at(first, b.datetime));
        let back = choose|k: int| 0 <= k < first.len() && (#[trigger] first[k]).datetime == b.datetime;
        if at < second.len() - 1 {
            assert(second[at].datetime.later_than(second[second.len() - 1].datetime));
            if back < first.len() - 1 {
                assert(first[back].datetime.later_than(first[first.len() - 1].datetime));
            }
        }
        assert(a.datetime == b.datetime);
        let f = first.drop_last();
        let g = second.drop_last();
        assert forall|t: Timestamp| #[trigger] has_bucket_at(f, t) <==> has_bucket_at(g, t) by {
            if has_bucket_at(f, t) {
                let k = choose|k: int| 0 <= k < f.len() && (#[trigger] f[k]).datetime == t;
                assert(first[k].datetime == t);
                assert(first[k].datetime.later_than(first[first.len() - 1].datetime));
                assert(has_bucket_at(first, t));
                let m = choose|m: int| 0 <= m < second.len() && (#[trigger] second[m]).datetime == t;
                assert(g[m].datetime == t);
            }
            if has_bucket_at(g, t) {
                let k = choose|k: int| 0 <= k < g.len() && (#[trigger] g[k]).datetime == t;
                assert(second[k].datetime == t);
                assert(second[k].datetime.later_than(second[second.len() - 1].datetime));
                assert(has_bucket_at(second, t));
                assert(has_bucket_at(first, t));
                let m = choose|m: int| 0 <= m < first.len() && (#[trigger] first[m]).datetime == t;
                assert(f[m].datetime == t);
            }
        }
        assert(newest_first(f)) by {
            assert forall|i: int, j: int| 0 <= i < j < f.len() implies (#[trigger] f[i]).datetime.later_than(
                (#[trigger] f[j]).datetime,
            ) by {
                assert(f[i] == first[i] && f[j] == first[j]);
            }
        }
        assert(newest_first(g)) by {
            assert forall|i: int, j: int| 0 <= i < j < g.len() implies (#[trigger] g[i]).datetime.later_than(
                (#[trigger] g[j]).datetime,
            ) by {
                assert(g[i] == second[i] && g[j] == second[j]);
            }
        }
        lemma_same_instants(f, g);
        assert forall|k: int| 0 <= k < first.len() implies (#[trigger] first[k]).datetime
            == second[k].datetime by {
            if k < f.len() {
                assert(f[k] == first[k] && g[k] == second[k]);
            }
        }
    }
}

} // verus!
