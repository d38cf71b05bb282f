//! What an aggregate is to the run that loads it: its buckets come back as
//! they are, as far as they hold channels and lie within the new window.

use crate::aggregate::{
    attributes, bucket_channels, channels_at, day_pairs, flat_pairs, has_bucket_at, has_pair_at,
    is_aggregate_of, lemma_channels_at_from, lemma_empty_day_adds_nothing,
    lemma_no_pair_no_channels, newest_first, DailyRssView, DatedView,
};
use crate::bucket::{
    deduped, lemma_deduped_from, lemma_sorted_by_key, lemma_tidy_twice, sorted_by_key,
};
use crate::channel::{timestamp_of, FeedChannelView};
use crate::timestamp::{within_window, Timestamp};
use vstd::prelude::*;

verus! {

/// Each channel of each bucket is attributed to the instant of its bucket.
pub open spec fn self_dated(days: Seq<DailyRssView>) -> bool {
    forall|k: int, m: int|
        0 <= k < days.len() && 0 <= m < days[k].channels.len() ==> timestamp_of(
            #[trigger] days[k].channels[m],
            days[k].datetime,
        ) == days[k].datetime
}

/// The channels of an instant in two sequences in a row are those of the
/// first followed by those of the second.
proof fn lemma_channels_at_concat(a: Seq<DatedView>, b: Seq<DatedView>, t: Timestamp)
    ensures
        channels_at(a + b, t) == channels_at(a, t) + channels_at(b, t),
        has_pair_at(a + b, t) <==> has_pair_at(a, t) || has_pair_at(b, t),
    decreases b.len(),
{
    let both = a + b;
    if b.len() == 0 {
        assert(both =~= a);
        assert(channels_at(a, t) + channels_at(b, t) =~= channels_at(a, t));
    } else {
        lemma_channels_at_concat(a, b.drop_last(), t);
        assert(both.drop_last() =~= a + b.drop_last());
        assert(both.last() == b.last());
        if b.last().at == t {
            assert(channels_at(a, t) + channels_at(b.drop_last(), t).push(b.last().channel)
                =~= (channels_at(a, t) + channels_at(b.drop_last(), t)).push(b.last().channel));
        }
    }
    if has_pair_at(a, t) {
        let i = choose|i: int| 0 <= i < a.len() && (#[trigger] a[i]).at == t;
        assert(both[i].at == t);
    }
    if has_pair_at(b, t) {
        let i = choose|i: int| 0 <= i < b.len() && (#[trigger] b[i]).at == t;
        assert(both[a.len() + i].at == t);
    }
    if has_pair_at(both, t) {
        let i = choose|i: int| 0 <= i < both.len() && (#[trigger] both[i]).at == t;
        if i < a.len() {
            assert(a[i].at == t);
        } else {
            assert(b[i - a.len()].at == t);
        }
    }
}

/// The dated channels of a bucket whose channels are attributed to its own
/// instant: all of them are at that instant, and none at another.
proof fn lemma_day_pairs(day: DailyRssView, t: Timestamp, n: int)
    requires
        0 <= n <= day.channels.len(),
        forall|m: int|
            0 <= m < day.channels.len() ==> timestamp_of(
                #[trigger] day.channels[m],
                day.datetime,
            ) == day.datetime,
    ensures
        channels_at(day_pairs(day).take(n), t) == if day.datetime == t {
            day.channels.take(n)
        } else {
            Seq::<FeedChannelView>::empty()
        },
    decreases n,
{
    let pairs = day_pairs(day);
    if n == 0 {
        assert(pairs.take(0) =~= Seq::<DatedView>::empty());
        assert(day.channels.take(0) =~= Seq::<FeedChannelView>::empty());
    } else {
        lemma_day_pairs(day, t, n - 1);
        assert(pairs.take(n).drop_last() =~= pairs.take(n - 1));
        assert(pairs.take(n).last() == pairs[n - 1]);
        assert(pairs[n - 1].at == day.datetime);
        if day.datetime == t {
            assert(day.channels.take(n) =~= day.channels.take(n - 1).push(day.channels[n - 1]));
        }
    }
}

/// What the buckets of a stored aggregate hand to the next run: for an
/// instant with a bucket, the channels of that bucket; for any other
/// instant, nothing.
proof fn lemma_flat_pairs_of_stored(days: Seq<DailyRssView>, t: Timestamp)
    requires
        newest_first(days),
        self_dated(days),
    ensures
        forall|k: int|
            0 <= k < days.len() && (#[trigger] days[k]).datetime == t ==> channels_at(
                flat_pairs(days),
                t,
            ) == days[k].channels,
        !has_bucket_at(days, t) ==> channels_at(flat_pairs(days), t) == Seq::<
            FeedChannelView,
        >::empty(),
    decreases days.len(),
{
    if days.len() > 0 {
        let front = days.drop_last();
        let day = days.last();
        assert(newest_first(front)) by {
            assert forall|i: int, j: int| 0 <= i < j < front.len() implies (#[trigger] front[i]).datetime.later_than(
                (#[trigger] front[j]).datetime,
            ) by {
                assert(front[i] == days[i] && front[j] == days[j]);
            }
        }
        assert(self_dated(front)) by {
            assert forall|k: int, m: int|
                0 <= k < front.len() && 0 <= m < front[k].channels.len() implies timestamp_of(
                #[trigger] front[k].channels[m],
                front[k].datetime,
            ) == front[k].datetime by {
                assert(front[k] == days[k]);
                assert(timestamp_of(days[k].channels[m], days[k].datetime) == days[k].datetime);
            }
        }
        lemma_flat_pairs_of_stored(front, t);
        lemma_channels_at_concat(flat_pairs(front), day_pairs(day), t);
        assert forall|m: int| 0 <= m < day.channels.len() implies timestamp_of(
            #[trigger] day.channels[m],
            day.datetime,
        ) == day.datetime by {
            assert(timestamp_of(days[days.len() - 1].channels[m], days[days.len() - 1].datetime)
                == days[days.len() - 1].datetime);
        }
        lemma_day_pairs(day, t, day.channels.len() as int);
        assert(day_pairs(day).take(day.channels.len() as int) =~= day_pairs(day));
        assert(day.channels.take(day.channels.len() as int) =~= day.channels);
        if day.datetime == t {
            assert forall|k: int| 0 <= k < front.len() implies (#[trigger] front[k]).datetime
                != t by {
                assert(days[k].datetime.later_than(days[days.len() - 1].datetime));
            }
            assert(!has_bucket_at(front, t));
            assert(Seq::<FeedChannelView>::empty() + day.channels =~= day.channels);
            assert forall|k: int|
                0 <= k < days.len() && (#[trigger] days[k]).datetime == t implies channels_at(
                flat_pairs(days),
                t,
            ) == days[k].channels by {
                if k < front.len() {
                    assert(front[k].datetime == t);
                }
            }
        } else {
            assert(channels_at(flat_pairs(front), t) + Seq::<FeedChannelView>::empty()
                =~= channels_at(flat_pairs(front), t));
            assert forall|k: int|
                0 <= k < days.len() && (#[trigger] days[k]).datetime == t implies channels_at(
                flat_pairs(days),
                t,
            ) == days[k].channels by {
                assert(front[k] == days[k]);
            }
            if !has_bucket_at(days, t) {
                assert forall|k: int| 0 <= k < front.len() implies (#[trigger] front[k]).datetime
                    != t by {
                    assert(front[k] == days[k]);
                }
            }
        }
    }
}

/// A channel is attributed to the instant of its own date, whatever it
/// falls back to: with that instant as the fallback it is attributed to the
/// same instant again.
proof fn lemma_dated_again(c: FeedChannelView, fallback: Timestamp)
    ensures
        timestamp_of(c, timestamp_of(c, fallback)) == timestamp_of(c, fallback),
{
}

/// Each dated channel of some buckets would be attributed to its instant
/// again, were that instant its fallback.
proof fn lemma_flat_pairs_dated(days: Seq<DailyRssView>)
    ensures
        forall|i: int|
            0 <= i < flat_pairs(days).len() ==> timestamp_of(
                (#[trigger] flat_pairs(days)[i]).channel,
                flat_pairs(days)[i].at,
            ) == flat_pairs(days)[i].at,
    decreases days.len(),
{
    if days.len() > 0 {
        let front = days.drop_last();
        let day = days.last();
        lemma_flat_pairs_dated(front);
        let all = flat_pairs(days);
        assert forall|i: int| 0 <= i < all.len() implies timestamp_of(
            (#[trigger] all[i]).channel,
            all[i].at,
        ) == all[i].at by {
            if i < flat_pairs(front).len() {
                assert(all[i] == flat_pairs(front)[i]);
            } else {
                let m = i - flat_pairs(front).len();
                assert(all[i] == day_pairs(day)[m]);
                lemma_dated_again(day.channels[m], day.datetime);
            }
        }
    }
}

/// In an aggregate every channel is attributed to the instant of the
/// bucket that holds it.
pub proof fn lemma_aggregate_self_dated(
    days: Seq<DailyRssView>,
    input: Seq<DailyRssView>,
    now: Timestamp,
    retention_days: int,
)
    requires
        is_aggregate_of(days, flat_pairs(input), now, retention_days),
    ensures
        self_dated(days),
{
    let pairs = flat_pairs(input);
    lemma_flat_pairs_dated(input);
    assert forall|k: int, m: int|
        0 <= k < days.len() && 0 <= m < days[k].channels.len() implies timestamp_of(
        #[trigger] days[k].channels[m],
        days[k].datetime,
    ) == days[k].datetime by {
        let t = days[k].datetime;
        let c = days[k].channels[m];
        let s = channels_at(pairs, t);
        assert(days[k].channels == bucket_channels(pairs, t));
        lemma_deduped_from(sorted_by_key(s));
        lemma_sorted_by_key(s);
        assert(sorted_by_key(s).contains(c));
        let a = choose|a: int| 0 <= a < sorted_by_key(s).len() && sorted_by_key(s)[a] == c;
        assert(s.contains(sorted_by_key(s)[a]));
        let b = choose|b: int| 0 <= b < s.len() && s[b] == c;
        lemma_channels_at_from(pairs, t);
        assert(attributes(pairs, t, s[b]));
        let i = choose|i: int|
            0 <= i < pairs.len() && (#[trigger] pairs[i]).at == t && pairs[i].channel == c;
        assert(timestamp_of(pairs[i].channel, pairs[i].at) == pairs[i].at);
    }
}

/// What the next run makes of an aggregate when every source fails.
///
/// Let `days` be the aggregate of an earlier run, and `next` the aggregate
/// of a run at `now` that loads `days` and fetches nothing. Then `next` has
/// a bucket at the instant of the run, if that instant is within the window,
/// and a bucket at each instant at which `days` has a bucket with channels
/// and which is within the window, and no other; and each bucket of `next`
/// holds what `days` held at its instant.
pub proof fn lemma_next_run(
    next: Seq<DailyRssView>,
    days: Seq<DailyRssView>,
    input: Seq<DailyRssView>,
    earlier: Timestamp,
    earlier_retention_days: int,
    now: Timestamp,
    retention_days: int,
)
    requires
        is_aggregate_of(days, flat_pairs(input), earlier, earlier_retention_days),
        is_aggregate_of(
            next,
            flat_pairs(days.push(DailyRssView { datetime: now, channels: Seq::empty() })),
            now,
            retention_days,
        ),
    ensures
        forall|t: Timestamp| #[trigger]
            has_bucket_at(next, t) <==> within_window(t, now, retention_days) && (t == now
                || exists|k: int|
                0 <= k < days.len() && (#[trigger] days[k]).datetime == t && days[k].channels.len()
                    > 0),
        forall|j: int, k: int|
            0 <= j < next.len() && 0 <= k < days.len() && (#[trigger] next[j]).datetime == (
            #[trigger] days[k]).datetime ==> next[j].channels == days[k].channels,
        forall|j: int|
            0 <= j < next.len() && !has_bucket_at(days, (#[trigger] next[j]).datetime)
                ==> next[j].channels.len() == 0,
{
    lemma_empty_day_adds_nothing(days, now);
    lemma_aggregate_self_dated(days, input, earlier, earlier_retention_days);
    let stored = flat_pairs(days);
    assert(deduped(sorted_by_key(Seq::<FeedChannelView>::empty())) =~= Seq::empty()) by {
        assert(sorted_by_key(Seq::<FeedChannelView>::empty()) =~= Seq::empty());
    }
    assert forall|j: int, k: int|
        0 <= j < next.len() && 0 <= k < days.len() && (#[trigger] next[j]).datetime == (
        #[trigger] days[k]).datetime implies next[j].channels == days[k].channels by {
        let t = days[k].datetime;
        lemma_flat_pairs_of_stored(days, t);
        assert(next[j].channels == bucket_channels(stored, t));
        assert(days[k].channels == bucket_channels(flat_pairs(input), t));
        lemma_tidy_twice(channels_at(flat_pairs(input), t));
    }
    assert forall|j: int|
        0 <= j < next.len() && !has_bucket_at(days, (#[trigger] next[j]).datetime) implies next[j].channels.len()
        == 0 by {
        lemma_flat_pairs_of_stored(days, next[j].datetime);
        assert(next[j].channels == bucket_channels(stored, next[j].datetime));
    }
    assert forall|t: Timestamp| #[trigger]
        has_bucket_at(next, t) <==> within_window(t, now, retention_days) && (t == now
            || exists|k: int|
            0 <= k < days.len() && (#[trigger] days[k]).datetime == t && days[k].channels.len()
                > 0) by {
        lemma_flat_pairs_of_stored(days, t);
        if has_pair_at(stored, t) {
            if has_bucket_at(days, t) {
                let k = choose|k: int| 0 <= k < days.len() && (#[trigger] days[k]).datetime == t;
                if days[k].channels.len() == 0 {
                    lemma_pair_has_channel(stored, t);
                }
            } else {
                lemma_pair_has_channel(stored, t);
            }
        }
        if exists|k: int|
            0 <= k < days.len() && (#[trigger] days[k]).datetime == t && days[k].channels.len()
                > 0 {
            let k = choose|k: int|
                0 <= k < days.len() && (#[trigger] days[k]).datetime == t && days[k].channels.len()
                    > 0;
            if !has_pair_at(stored, t) {
                lemma_no_pair_no_channels(stored, t);
            }
        }
    }
}

/// An instant to which a channel is attributed has channels.
proof fn lemma_pair_has_channel(pairs: Seq<DatedView>, t: Timestamp)
    requires
        has_pair_at(pairs, t),
    ensures
        channels_at(pairs, t).len() > 0,
    decreases pairs.len(),
{
    if pairs.len() > 0 && pairs.last().at != t {
        let i = choose|i: int| 0 <= i < pairs.len() && (#[trigger] pairs[i]).at == t;
        assert(pairs.drop_last()[i].at == t);
        lemma_pair_has_channel(pairs.drop_last(), t);
    }
}

} // verus!
