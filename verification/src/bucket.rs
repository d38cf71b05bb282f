//! The channels of one bucket: ordering by identity key and collapsing of
//! adjacent duplicates.

use crate::channel::{FeedChannel, FeedChannelView};
use crate::key_order::{
    is_key_le, key_le, lemma_key_antisymmetric, lemma_key_total, lemma_key_transitive,
};
use vstd::prelude::*;

verus! {

impl DeepView for FeedChannel {
    type V = FeedChannelView;

    open spec fn deep_view(&self) -> FeedChannelView {
        self@
    }
}

/// `sorted` with `c` put in behind the last channel whose key is not
/// greater than the key of `c`.
pub open spec fn inserted_by_key(sorted: Seq<FeedChannelView>, c: FeedChannelView) -> Seq<
    FeedChannelView,
>
    decreases sorted.len(),
{
    if sorted.len() == 0 {
        seq![c]
    } else if key_le(sorted.last().link, c.link) {
        sorted.push(c)
    } else {
        inserted_by_key(sorted.drop_last(), c).push(sorted.last())
    }
}

/// The channels of `s` ordered by key; channels with the same key keep the
/// order that they have in `s`.
pub open spec fn sorted_by_key(s: Seq<FeedChannelView>) -> Seq<FeedChannelView>
    decreases s.len(),
{
    if s.len() == 0 {
        Seq::empty()
    } else {
        inserted_by_key(sorted_by_key(s.drop_last()), s.last())
    }
}

/// `s` without each channel that equals the one before it.
pub open spec fn deduped(s: Seq<FeedChannelView>) -> Seq<FeedChannelView>
    decreases s.len(),
{
    if s.len() == 0 {
        Seq::empty()
    } else if s.len() >= 2 && s[s.len() - 2] == s.last() {
        deduped(s.drop_last())
    } else {
        deduped(s.drop_last()).push(s.last())
    }
}

/// Putting `c` in at `at` is what `inserted_by_key` does, when `at` is
/// behind the last channel whose key is not greater.
proof fn lemma_inserted_at(s: Seq<FeedChannelView>, c: FeedChannelView, at: int)
    requires
        0 <= at <= s.len(),
        at == 0 || key_le(s[at - 1].link, c.link),
        forall|m: int| at <= m < s.len() ==> !key_le(#[trigger] s[m].link, c.link),
    ensures
        inserted_by_key(s, c) == s.insert(at, c),
    decreases s.len() - at,
{
    if at == s.len() {
        assert(s.insert(at, c) =~= s.push(c));
        if s.len() == 0 {
            assert(s.push(c) =~= seq![c]);
        }
    } else {
        lemma_inserted_at(s.drop_last(), c, at);
        assert(s.insert(at, c) =~= s.drop_last().insert(at, c).push(s.last()));
    }
}

/// The keys of `s` never go down.
pub open spec fn ordered_by_key(s: Seq<FeedChannelView>) -> bool {
    forall|a: int, b: int|
        0 <= a < b < s.len() ==> key_le((#[trigger] s[a]).link, (#[trigger] s[b]).link)
}

/// The keys of `s` go up strictly: no two channels of `s` share a key.
pub open spec fn keys_ascend(s: Seq<FeedChannelView>) -> bool {
    forall|a: int, b: int|
        0 <= a < b < s.len() ==> key_le((#[trigger] s[a]).link, (#[trigger] s[b]).link)
            && s[a].link != s[b].link
}

/// Channels of `s` that share a key are the same channel.
pub open spec fn one_channel_per_key(s: Seq<FeedChannelView>) -> bool {
    forall|a: int, b: int|
        0 <= a < s.len() && 0 <= b < s.len() && (#[trigger] s[a]).link == (#[trigger] s[b]).link
            ==> s[a] == s[b]
}

/// Every channel of `r` is a channel of `s`.
pub open spec fn each_from(r: Seq<FeedChannelView>, s: Seq<FeedChannelView>) -> bool {
    forall|a: int| 0 <= a < r.len() ==> s.contains(#[trigger] r[a])
}

/// Where `inserted_by_key` puts a channel: the index behind the last
/// channel whose key is not greater.
proof fn lemma_insertion_point(s: Seq<FeedChannelView>, c: FeedChannelView) -> (at: int)
    ensures
        0 <= at <= s.len(),
        at == 0 || key_le(s[at - 1].link, c.link),
        forall|m: int| at <= m < s.len() ==> !key_le(#[trigger] s[m].link, c.link),
        inserted_by_key(s, c) == s.insert(at, c),
    decreases s.len(),
{
    let at = if s.len() == 0 {
        0
    } else if key_le(s.last().link, c.link) {
        s.len() as int
    } else {
        let front = s.drop_last();
        let inner = lemma_insertion_point(front, c);
        assert forall|m: int| inner <= m < s.len() implies !key_le(#[trigger] s[m].link, c.link) by {
            if m < front.len() {
                assert(front[m] == s[m]);
                assert(!key_le(front[m].link, c.link));
            }
        }
        if inner > 0 {
            assert(front[inner - 1] == s[inner - 1]);
        }
        inner
    };
    lemma_inserted_at(s, c, at);
    at
}

/// Ordering by key gives a sequence whose keys never go down, made of the
/// channels that went in, all of them.
pub proof fn lemma_sorted_by_key(s: Seq<FeedChannelView>)
    ensures
        ordered_by_key(sorted_by_key(s)),
        sorted_by_key(s).len() == s.len(),
        each_from(sorted_by_key(s), s),
        each_from(s, sorted_by_key(s)),
    decreases s.len(),
{
    if s.len() > 0 {
        let front = s.drop_last();
        let c = s.last();
        let r0 = sorted_by_key(front);
        lemma_sorted_by_key(front);
        let at = lemma_insertion_point(r0, c);
        let r = r0.insert(at, c);
        assert forall|a: int, b: int| 0 <= a < b < r.len() implies key_le(
            (#[trigger] r[a]).link,
            (#[trigger] r[b]).link,
        ) by {
            if b < at {
                assert(r[a] == r0[a] && r[b] == r0[b]);
            } else if b == at {
                assert(r[a] == r0[a]);
                if a < at - 1 {
                    lemma_key_transitive(r0[a].link, r0[at - 1].link, c.link);
                }
            } else if a == at {
                assert(r[b] == r0[b - 1]);
                assert(!key_le(r0[b - 1].link, c.link));
                lemma_key_total(r0[b - 1].link, c.link);
            } else if a < at {
                assert(r[a] == r0[a] && r[b] == r0[b - 1]);
            } else {
                assert(r[a] == r0[a - 1] && r[b] == r0[b - 1]);
            }
        }
        assert forall|a: int| 0 <= a < r.len() implies s.contains(#[trigger] r[a]) by {
            if a == at {
                assert(s[s.len() - 1] == c);
            } else {
                let x = if a < at {
                    r0[a]
                } else {
                    r0[a - 1]
                };
                assert(r[a] == x);
                assert(front.contains(x));
                let i = choose|i: int| 0 <= i < front.len() && front[i] == x;
                assert(s[i] == x);
            }
        }
        assert forall|a: int| 0 <= a < s.len() implies r.contains(#[trigger] s[a]) by {
            if a == s.len() - 1 {
                assert(r[at] == c);
            } else {
                assert(front[a] == s[a]);
                assert(r0.contains(front[a]));
                let i = choose|i: int| 0 <= i < r0.len() && r0[i] == front[a];
                if i < at {
                    assert(r[i] == s[a]);
                } else {
                    assert(r[i + 1] == s[a]);
                }
            }
        }
    }
}

/// The channels of `s` that have the key `key`, in their order.
pub open spec fn of_key(s: Seq<FeedChannelView>, key: Seq<char>) -> Seq<FeedChannelView>
    decreases s.len(),
{
    if s.len() == 0 {
        Seq::empty()
    } else if s.last().link == key {
        of_key(s.drop_last(), key).push(s.last())
    } else {
        of_key(s.drop_last(), key)
    }
}

/// The channels of a key in two sequences in a row are those of the first
/// followed by those of the second.
proof fn lemma_of_key_concat(a: Seq<FeedChannelView>, b: Seq<FeedChannelView>, key: Seq<char>)
    ensures
        of_key(a + b, key) == of_key(a, key) + of_key(b, key),
    decreases b.len(),
{
    if b.len() == 0 {
        assert(a + b =~= a);
        assert(of_key(a, key) + of_key(b, key) =~= of_key(a, key));
    } else {
        lemma_of_key_concat(a, b.drop_last(), key);
        assert((a + b).drop_last() =~= a + b.drop_last());
        assert((a + b).last() == b.last());
        if b.last().link == key {
            assert(of_key(a, key) + of_key(b.drop_last(), key).push(b.last()) =~= (of_key(a, key)
                + of_key(b.drop_last(), key)).push(b.last()));
        }
    }
}

/// A sequence without a channel of a key has no channels of that key.
proof fn lemma_of_key_none(s: Seq<FeedChannelView>, key: Seq<char>)
    requires
        forall|m: int| 0 <= m < s.len() ==> (#[trigger] s[m]).link != key,
    ensures
        of_key(s, key) == Seq::<FeedChannelView>::empty(),
    decreases s.len(),
{
    if s.len() > 0 {
        assert(s[s.len() - 1].link != key);
        assert forall|m: int| 0 <= m < s.drop_last().len() implies (#[trigger] s.drop_last()[m]).link
            != key by {
            assert(s.drop_last()[m] == s[m]);
        }
        lemma_of_key_none(s.drop_last(), key);
    }
}

/// Ordering by key is stable: for each key, the channels of that key come
/// out in the order in which they went in. With the keys never going down
/// (`lemma_sorted_by_key`), this says where every channel stands.
pub proof fn lemma_sorted_by_key_stable(s: Seq<FeedChannelView>, key: Seq<char>)
    ensures
        of_key(sorted_by_key(s), key) == of_key(s, key),
    decreases s.len(),
{
    if s.len() > 0 {
        let front = s.drop_last();
        let c = s.last();
        let r0 = sorted_by_key(front);
        lemma_sorted_by_key_stable(front, key);
        let at = lemma_insertion_point(r0, c);
        let head = r0.take(at);
        let tail = r0.skip(at);
        assert(r0 =~= head + tail);
        assert(r0.insert(at, c) =~= (head + seq![c]) + tail);
        lemma_of_key_concat(head, tail, key);
        lemma_of_key_concat(head + seq![c], tail, key);
        lemma_of_key_concat(head, seq![c], key);
        assert(seq![c].drop_last() =~= Seq::<FeedChannelView>::empty());
        assert(of_key(Seq::<FeedChannelView>::empty(), key) =~= Seq::empty());
        if c.link == key {
            assert forall|m: int| 0 <= m < tail.len() implies (#[trigger] tail[m]).link != key by {
                assert(tail[m] == r0[at + m]);
                assert(!key_le(r0[at + m].link, c.link));
                lemma_key_total(c.link, c.link);
            }
            lemma_of_key_none(tail, key);
            assert(of_key(seq![c], key) =~= seq![c]);
            assert(of_key(head, key) + seq![c] + Seq::<FeedChannelView>::empty() =~= (of_key(
                head,
                key,
            ) + Seq::<FeedChannelView>::empty()).push(c));
        } else {
            assert(of_key(seq![c], key) =~= Seq::<FeedChannelView>::empty());
            assert(of_key(head, key) + Seq::<FeedChannelView>::empty() + of_key(tail, key)
                =~= of_key(head, key) + of_key(tail, key));
        }
    }
}

/// What is left after collapsing duplicates: channels that were there, and
/// the last of them is still the last.
pub proof fn lemma_deduped_from(s: Seq<FeedChannelView>)
    ensures
        each_from(deduped(s), s),
        deduped(s).len() <= s.len(),
        s.len() > 0 ==> deduped(s).len() > 0 && deduped(s).last() == s.last(),
    decreases s.len(),
{
    if s.len() > 0 {
        let front = s.drop_last();
        lemma_deduped_from(front);
        let d = deduped(s);
        assert forall|a: int| 0 <= a < d.len() implies s.contains(#[trigger] d[a]) by {
            if a < deduped(front).len() {
                assert(d[a] == deduped(front)[a]);
                assert(front.contains(d[a]));
                let i = choose|i: int| 0 <= i < front.len() && front[i] == d[a];
                assert(s[i] == d[a]);
            } else {
                assert(d[a] == s[s.len() - 1]);
            }
        }
    }
}

/// In a sequence ordered by key in which channels that share a key are the
/// same channel, collapsing adjacent duplicates leaves one channel per key.
pub proof fn lemma_deduped_keys_ascend(s: Seq<FeedChannelView>)
    requires
        ordered_by_key(s),
        one_channel_per_key(s),
    ensures
        keys_ascend(deduped(s)),
    decreases s.len(),
{
    if s.len() > 0 {
        let front = s.drop_last();
        let last = s.last();
        assert(ordered_by_key(front)) by {
            assert forall|a: int, b: int| 0 <= a < b < front.len() implies key_le(
                (#[trigger] front[a]).link,
                (#[trigger] front[b]).link,
            ) by {
                assert(front[a] == s[a] && front[b] == s[b]);
            }
        }
        assert(one_channel_per_key(front)) by {
            assert forall|a: int, b: int|
                0 <= a < front.len() && 0 <= b < front.len() && (#[trigger] front[a]).link == (
                #[trigger] front[b]).link implies front[a] == front[b] by {
                assert(front[a] == s[a] && front[b] == s[b]);
            }
        }
        lemma_deduped_keys_ascend(front);
        lemma_deduped_from(front);
        let d0 = deduped(front);
        let d = deduped(s);
        if !(s.len() >= 2 && s[s.len() - 2] == last) {
            assert(d == d0.push(last));
            assert forall|a: int, b: int| 0 <= a < b < d.len() implies key_le(
                (#[trigger] d[a]).link,
                (#[trigger] d[b]).link,
            ) && d[a].link != d[b].link by {
                if b < d0.len() {
                    assert(d[a] == d0[a] && d[b] == d0[b]);
                } else {
                    assert(d[a] == d0[a]);
                    assert(front.contains(d0[a]));
                    let i = choose|i: int| 0 <= i < front.len() && front[i] == d0[a];
                    assert(s[i] == d0[a]);
                    assert(key_le(s[i].link, s[s.len() - 1].link));
                    if s[i].link == last.link {
                        let before = s.len() - 2;
                        if i < before {
                            assert(key_le(s[i].link, s[before].link));
                        }
                        assert(key_le(s[before].link, s[s.len() - 1].link));
                        lemma_key_antisymmetric(s[before].link, last.link);
                        assert(s[before] == s[s.len() - 1]);
                    }
                }
            }
        }
    }
}

/// No channel of `s` equals the one before it.
pub open spec fn no_repeats(s: Seq<FeedChannelView>) -> bool {
    forall|i: int| 0 <= i < s.len() - 1 ==> #[trigger] s[i] != s[i + 1]
}

/// A sequence whose keys never go down is ordered by key already.
pub proof fn lemma_sorted_of_ordered(s: Seq<FeedChannelView>)
    requires
        ordered_by_key(s),
    ensures
        sorted_by_key(s) == s,
    decreases s.len(),
{
    if s.len() > 0 {
        let front = s.drop_last();
        assert(ordered_by_key(front)) by {
            assert forall|a: int, b: int| 0 <= a < b < front.len() implies key_le(
                (#[trigger] front[a]).link,
                (#[trigger] front[b]).link,
            ) by {
                assert(front[a] == s[a] && front[b] == s[b]);
            }
        }
        lemma_sorted_of_ordered(front);
        if front.len() > 0 {
            assert(front.last() == s[s.len() - 2]);
            assert(key_le(s[s.len() - 2].link, s[s.len() - 1].link));
        }
        assert(front.push(s.last()) =~= s);
        if front.len() == 0 {
            assert(seq![s.last()] =~= s);
        }
    } else {
        assert(sorted_by_key(s) =~= s);
    }
}

/// Collapsing duplicates leaves the keys never going down, where they did
/// not go down before.
pub proof fn lemma_deduped_ordered(s: Seq<FeedChannelView>)
    requires
        ordered_by_key(s),
    ensures
        ordered_by_key(deduped(s)),
    decreases s.len(),
{
    if s.len() > 0 {
        let front = s.drop_last();
        assert(ordered_by_key(front)) by {
            assert forall|a: int, b: int| 0 <= a < b < front.len() implies key_le(
                (#[trigger] front[a]).link,
                (#[trigger] front[b]).link,
            ) by {
                assert(front[a] == s[a] && front[b] == s[b]);
            }
        }
        lemma_deduped_ordered(front);
        lemma_deduped_from(front);
        let d0 = deduped(front);
        let d = deduped(s);
        assert forall|a: int, b: int| 0 <= a < b < d.len() implies key_le(
            (#[trigger] d[a]).link,
            (#[trigger] d[b]).link,
        ) by {
            if b < d0.len() {
                assert(d[a] == d0[a] && d[b] == d0[b]);
            } else {
                assert(d[a] == d0[a]);
                assert(front.contains(d0[a]));
                let i = choose|i: int| 0 <= i < front.len() && front[i] == d0[a];
                assert(s[i] == d0[a]);
                assert(key_le(s[i].link, s[s.len() - 1].link));
            }
        }
    }
}

/// After collapsing duplicates no channel equals the one before it.
pub proof fn lemma_deduped_no_repeats(s: Seq<FeedChannelView>)
    ensures
        no_repeats(deduped(s)),
    decreases s.len(),
{
    if s.len() > 0 {
        let front = s.drop_last();
        lemma_deduped_no_repeats(front);
        lemma_deduped_from(front);
        let d0 = deduped(front);
        let d = deduped(s);
        assert forall|i: int| 0 <= i < d.len() - 1 implies #[trigger] d[i] != d[i + 1] by {
            if i + 1 < d0.len() {
                assert(d[i] == d0[i] && d[i + 1] == d0[i + 1]);
            } else {
                assert(d[i] == d0[d0.len() - 1]);
                assert(front.last() == s[s.len() - 2]);
            }
        }
    }
}

/// Where no channel equals the one before it, there is nothing to collapse.
pub proof fn lemma_deduped_of_no_repeats(s: Seq<FeedChannelView>)
    requires
        no_repeats(s),
    ensures
        deduped(s) == s,
    decreases s.len(),
{
    if s.len() > 0 {
        let front = s.drop_last();
        assert(no_repeats(front)) by {
            assert forall|i: int| 0 <= i < front.len() - 1 implies #[trigger] front[i] != front[i
                + 1] by {
                assert(front[i] == s[i] && front[i + 1] == s[i + 1]);
            }
        }
        lemma_deduped_of_no_repeats(front);
        if s.len() >= 2 {
            assert(s[s.len() - 2] != s[s.len() - 2 + 1]);
        }
        assert(front.push(s.last()) =~= s);
    } else {
        assert(deduped(s) =~= s);
    }
}

/// Ordering and collapsing a second time changes nothing.
pub proof fn lemma_tidy_twice(s: Seq<FeedChannelView>)
    ensures
        deduped(sorted_by_key(deduped(sorted_by_key(s)))) == deduped(sorted_by_key(s)),
{
    let once = deduped(sorted_by_key(s));
    lemma_sorted_by_key(s);
    lemma_deduped_ordered(sorted_by_key(s));
    lemma_sorted_of_ordered(once);
    lemma_deduped_no_repeats(sorted_by_key(s));
    lemma_deduped_of_no_repeats(once);
}

/// Orders channels by their identity key, keeping channels with the same
/// key in the order they came in.
pub fn sort_by_link(channels: Vec<FeedChannel>) -> (sorted: Vec<FeedChannel>)
    ensures
        sorted.deep_view() == sorted_by_key(channels.deep_view()),
{
    let ghost all = channels.deep_view();
    let mut sorted: Vec<FeedChannel> = Vec::new();
    assert(all.take(0) =~= Seq::empty());
    for c in it: channels
        invariant
            it.seq().len() == all.len(),
            forall|k: int| 0 <= k < all.len() ==> (#[trigger] it.seq()[k])@ == all[k],
            sorted.deep_view() == sorted_by_key(all.take(it.index() as int)),
    {
        let ghost before = sorted.deep_view();
        let mut at: usize = sorted.len();
        while at > 0 && !is_key_le(sorted[at - 1].link.as_str(), c.link.as_str())
            invariant
                at <= sorted.len(),
                sorted.deep_view() == before,
                forall|m: int| at <= m < before.len() ==> !key_le(#[trigger] before[m].link, c@.link),
            decreases at,
        {
            at -= 1;
        }
        proof {
            lemma_inserted_at(before, c@, at as int);
            assert(all.take(it.index() + 1).drop_last() =~= all.take(it.index() as int));
        }
        sorted.insert(at, c);
        assert(sorted.deep_view() =~= before.insert(at as int, c@));
    }
    assert(all.take(all.len() as int) =~= all);
    sorted
}

/// Collapses each run of equal adjacent channels into its first channel.
pub fn dedup_adjacent(channels: Vec<FeedChannel>) -> (kept: Vec<FeedChannel>)
    ensures
        kept.deep_view() == deduped(channels.deep_view()),
{
    let ghost all = channels.deep_view();
    let mut kept: Vec<FeedChannel> = Vec::new();
    assert(all.take(0) =~= Seq::empty());
    for c in it: channels
        invariant
            it.seq().len() == all.len(),
            forall|k: int| 0 <= k < all.len() ==> (#[trigger] it.seq()[k])@ == all[k],
            kept.deep_view() == deduped(all.take(it.index() as int)),
            it.index() > 0 ==> kept.len() > 0 && kept@.last()@ == all[it.index() - 1],
    {
        let ghost before = kept.deep_view();
        let ghost seen = all.take(it.index() + 1);
        assert(seen.drop_last() =~= all.take(it.index() as int));
        let repeated = kept.len() > 0 && kept[kept.len() - 1].same_as(&c);
        if !repeated {
            kept.push(c);
            assert(kept.deep_view() =~= before.push(c@));
        }
    }
    assert(all.take(all.len() as int) =~= all);
    kept
}

} // verus!
