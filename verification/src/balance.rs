//! What the removal of unpaired delimiters achieves: its result is
//! balanced, and a balanced text passes through unchanged.

use crate::utils::{first_unmatched, pass_of, unpair_inner, unpair_removals};
use vstd::prelude::*;

verus! {

/// What a character adds to the number of openings that wait for their
/// closing.
pub open spec fn weight(x: char, opening: char, closing: char) -> int {
    if x == opening {
        1
    } else if x == closing {
        -1
    } else {
        0
    }
}

/// The openings of `s` less its closings.
pub open spec fn depth(s: Seq<char>, opening: char, closing: char) -> int
    decreases s.len(),
{
    if s.len() == 0 {
        0
    } else {
        depth(s.drop_last(), opening, closing) + weight(s.last(), opening, closing)
    }
}

/// No beginning of `s` has more closings than openings.
pub open spec fn never_short(s: Seq<char>, opening: char, closing: char) -> bool {
    forall|k: int| 0 <= k <= s.len() ==> depth(#[trigger] s.take(k), opening, closing) >= 0
}

/// Every closing of `s` has its opening before it and every opening its
/// closing behind it.
pub open spec fn balanced(s: Seq<char>, opening: char, closing: char) -> bool {
    depth(s, opening, closing) == 0 && never_short(s, opening, closing)
}

/// The depth of two texts in a row is the sum of their depths.
pub proof fn lemma_depth_concat(a: Seq<char>, b: Seq<char>, opening: char, closing: char)
    ensures
        depth(a + b, opening, closing) == depth(a, opening, closing) + depth(b, opening, closing),
    decreases b.len(),
{
    if b.len() == 0 {
        assert(a + b =~= a);
    } else {
        lemma_depth_concat(a, b.drop_last(), opening, closing);
        assert((a + b).drop_last() =~= a + b.drop_last());
    }
}

/// The depth of one character is its weight.
pub proof fn lemma_depth_one(x: char, opening: char, closing: char)
    ensures
        depth(seq![x], opening, closing) == weight(x, opening, closing),
{
    assert(seq![x].drop_last() =~= Seq::<char>::empty());
    assert(depth(Seq::<char>::empty(), opening, closing) == 0);
    assert(seq![x].last() == x);
}

/// With the delimiters exchanged the depth changes its sign.
pub proof fn lemma_depth_exchanged(s: Seq<char>, opening: char, closing: char)
    requires
        opening != closing,
    ensures
        depth(s, closing, opening) == -depth(s, opening, closing),
    decreases s.len(),
{
    if s.len() > 0 {
        lemma_depth_exchanged(s.drop_last(), opening, closing);
    }
}

/// Reading a text backwards does not change its depth.
pub proof fn lemma_depth_reverse(s: Seq<char>, opening: char, closing: char)
    ensures
        depth(s.reverse(), opening, closing) == depth(s, opening, closing),
    decreases s.len(),
{
    if s.len() > 0 {
        let front = s.drop_last();
        lemma_depth_reverse(front, opening, closing);
        assert(s.reverse() =~= seq![s.last()] + front.reverse());
        lemma_depth_concat(seq![s.last()], front.reverse(), opening, closing);
        lemma_depth_one(s.last(), opening, closing);
    } else {
        assert(s.reverse() =~= s);
    }
}

/// A text is its beginning up to `k` followed by the rest.
pub proof fn lemma_depth_split(s: Seq<char>, k: int, opening: char, closing: char)
    requires
        0 <= k <= s.len(),
    ensures
        depth(s, opening, closing) == depth(s.take(k), opening, closing) + depth(
            s.skip(k),
            opening,
            closing,
        ),
{
    assert(s =~= s.take(k) + s.skip(k));
    lemma_depth_concat(s.take(k), s.skip(k), opening, closing);
}

/// Taking a character out takes its weight out of the depth.
pub proof fn lemma_depth_remove(s: Seq<char>, j: int, opening: char, closing: char)
    requires
        0 <= j < s.len(),
    ensures
        depth(s.remove(j), opening, closing) == depth(s, opening, closing) - weight(
            s[j],
            opening,
            closing,
        ),
{
    let head = s.take(j);
    let tail = s.skip(j + 1);
    assert(s =~= (head + seq![s[j]]) + tail);
    assert(s.remove(j) =~= head + tail);
    lemma_depth_concat(head + seq![s[j]], tail, opening, closing);
    lemma_depth_concat(head, seq![s[j]], opening, closing);
    lemma_depth_concat(head, tail, opening, closing);
    lemma_depth_one(s[j], opening, closing);
}

/// What a scan finds. Where it finds no unmatched closing, the depth never
/// falls below zero from where the scan began; where it finds one at an
/// index, the depth is zero just before that index and has not fallen below
/// zero on the way there.
pub proof fn lemma_scan(s: Seq<char>, opening: char, closing: char, from: int, waiting: nat)
    requires
        0 <= from <= s.len(),
    ensures
        match first_unmatched(s, opening, closing, from, waiting) {
            None => forall|k: int|
                from <= k <= s.len() ==> waiting + depth(
                    #[trigger] s.subrange(from, k),
                    opening,
                    closing,
                ) >= 0,
            Some(stop) => {
                &&& from <= stop < s.len()
                &&& s[stop] == closing
                &&& s[stop] != opening
                &&& waiting + depth(s.subrange(from, stop), opening, closing) == 0
                &&& forall|k: int|
                    from <= k <= stop ==> waiting + depth(
                        #[trigger] s.subrange(from, k),
                        opening,
                        closing,
                    ) >= 0
            },
        },
    decreases s.len() - from,
{
    assert(s.subrange(from, from) =~= Seq::<char>::empty());
    if from < s.len() {
        let x = s[from];
        let next: int = waiting + weight(x, opening, closing);
        assert forall|k: int| from < k <= s.len() implies depth(
            #[trigger] s.subrange(from, k),
            opening,
            closing,
        ) == weight(x, opening, closing) + depth(s.subrange(from + 1, k), opening, closing) by {
            assert(s.subrange(from, k) =~= seq![x] + s.subrange(from + 1, k));
            lemma_depth_concat(seq![x], s.subrange(from + 1, k), opening, closing);
            lemma_depth_one(x, opening, closing);
        }
        if next >= 0 {
            lemma_scan(s, opening, closing, from + 1, next as nat);
        }
    }
}

/// Two balanced texts in a row are a balanced text.
pub proof fn lemma_balanced_concat(a: Seq<char>, b: Seq<char>, opening: char, closing: char)
    requires
        balanced(a, opening, closing),
        balanced(b, opening, closing),
    ensures
        balanced(a + b, opening, closing),
{
    lemma_depth_concat(a, b, opening, closing);
    let both = a + b;
    assert forall|k: int| 0 <= k <= both.len() implies depth(
        #[trigger] both.take(k),
        opening,
        closing,
    ) >= 0 by {
        if k <= a.len() {
            assert(both.take(k) =~= a.take(k));
        } else {
            assert(both.take(k) =~= a + b.take(k - a.len()));
            lemma_depth_concat(a, b.take(k - a.len()), opening, closing);
        }
    }
}

/// The empty text is balanced.
pub proof fn lemma_balanced_empty(opening: char, closing: char)
    ensures
        balanced(Seq::<char>::empty(), opening, closing),
{
    let none = Seq::<char>::empty();
    assert forall|k: int| 0 <= k <= none.len() implies depth(
        #[trigger] none.take(k),
        opening,
        closing,
    ) >= 0 by {
        assert(none.take(k) =~= none);
    }
}

/// The beginning of `s` up to `upto` is settled: it has as many closings as
/// openings, and no beginning of it has more closings than openings.
pub open spec fn settled(s: Seq<char>, opening: char, closing: char, upto: int) -> bool {
    &&& 0 <= upto <= s.len()
    &&& depth(s.take(upto), opening, closing) == 0
    &&& forall|k: int| 0 <= k <= upto ==> depth(#[trigger] s.take(k), opening, closing) >= 0
}

/// No end of `s` that begins at `from` or behind it has more openings than
/// closings.
pub open spec fn no_excess_behind(s: Seq<char>, opening: char, closing: char, from: int) -> bool {
    forall|k: int| from <= k <= s.len() ==> depth(#[trigger] s.skip(k), opening, closing) <= 0
}

/// The delimiter that pairs with the opening of the first pass.
pub open spec fn partner(opening: char, closing: char, top_opening: char) -> char {
    if opening == top_opening {
        closing
    } else {
        opening
    }
}

/// What a search appends is balanced, when it starts behind a settled
/// beginning and, in the second pass, no end of the text has an excess.
pub proof fn lemma_inner_balanced(
    s: Seq<char>,
    opening: char,
    closing: char,
    top_opening: char,
    from: int,
    last_removed: int,
)
    requires
        opening != closing,
        opening == top_opening || closing == top_opening,
        settled(s, opening, closing, from),
        closing == top_opening ==> no_excess_behind(s, opening, closing, from),
    ensures
        balanced(
            unpair_inner(s, opening, closing, top_opening, from, last_removed),
            top_opening,
            partner(opening, closing, top_opening),
        ),
    decreases pass_of(opening, top_opening), s.len(), 1nat, 0nat,
{
    lemma_scan(s, opening, closing, from, 0);
    assert forall|k: int| from <= k <= s.len() implies depth(
        #[trigger] s.take(k),
        opening,
        closing,
    ) == depth(s.subrange(from, k), opening, closing) by {
        assert(s.take(k) =~= s.take(from) + s.subrange(from, k));
        lemma_depth_concat(s.take(from), s.subrange(from, k), opening, closing);
    }
    match first_unmatched(s, opening, closing, from, 0) {
        Some(stop) => {
            assert(depth(s.take(stop + 1), opening, closing) == -1) by {
                assert(s.take(stop + 1).drop_last() =~= s.take(stop));
                assert(depth(s.take(stop), opening, closing) == depth(
                    s.subrange(from, stop),
                    opening,
                    closing,
                ));
            }
            assert forall|k: int| 0 <= k <= stop implies depth(
                #[trigger] s.take(k),
                opening,
                closing,
            ) >= 0 by {
                if k >= from {
                    assert(depth(s.subrange(from, k), opening, closing) >= 0);
                }
            }
            lemma_removals_balanced(s, opening, closing, top_opening, stop, last_removed);
        },
        None => {
            assert(never_short(s, opening, closing)) by {
                assert forall|k: int| 0 <= k <= s.len() implies depth(
                    #[trigger] s.take(k),
                    opening,
                    closing,
                ) >= 0 by {
                    if k >= from {
                        assert(depth(s.subrange(from, k), opening, closing) >= 0);
                    }
                }
            }
            let rev = s.reverse();
            if opening == top_opening {
                assert(rev.take(0) =~= Seq::<char>::empty());
                assert forall|k: int| 0 <= k <= rev.len() implies depth(
                    #[trigger] rev.skip(k),
                    closing,
                    opening,
                ) <= 0 by {
                    let head = s.take(s.len() - k);
                    assert(rev.skip(k) =~= head.reverse());
                    lemma_depth_reverse(head, closing, opening);
                    lemma_depth_exchanged(head, opening, closing);
                }
                lemma_inner_balanced(rev, closing, opening, top_opening, 0, 0);
            } else {
                assert(s.take(s.len() as int) =~= s);
                assert(s.skip(from) =~= s.subrange(from, s.len() as int));
                assert(depth(s.subrange(from, s.len() as int), opening, closing) >= 0);
                assert(depth(s.skip(from), opening, closing) <= 0);
                assert(depth(s, opening, closing) == 0);
                lemma_depth_reverse(s, closing, opening);
                lemma_depth_exchanged(s, opening, closing);
                assert forall|m: int| 0 <= m <= rev.len() implies depth(
                    #[trigger] rev.take(m),
                    closing,
                    opening,
                ) >= 0 by {
                    let tail = s.skip(s.len() - m);
                    assert(rev.take(m) =~= tail.reverse());
                    lemma_depth_reverse(tail, closing, opening);
                    lemma_depth_exchanged(tail, opening, closing);
                    lemma_depth_split(s, s.len() - m, opening, closing);
                    assert(depth(s.take(s.len() - m), opening, closing) >= 0);
                }
            }
        },
    }
}

/// What the removals at a stop append is balanced.
pub proof fn lemma_removals_balanced(
    s: Seq<char>,
    opening: char,
    closing: char,
    top_opening: char,
    stop: int,
    j: int,
)
    requires
        opening != closing,
        opening == top_opening || closing == top_opening,
        0 <= stop < s.len(),
        depth(s.take(stop + 1), opening, closing) == -1,
        forall|k: int| 0 <= k <= stop ==> depth(#[trigger] s.take(k), opening, closing) >= 0,
        closing == top_opening ==> no_excess_behind(s, opening, closing, stop + 1),
    ensures
        balanced(
            unpair_removals(s, opening, closing, top_opening, stop, j),
            top_opening,
            partner(opening, closing, top_opening),
        ),
    decreases pass_of(opening, top_opening), s.len(), 0nat, stop + 1 - j,
{
    let other = partner(opening, closing, top_opening);
    lemma_balanced_empty(top_opening, other);
    if !(j < 0 || j > stop) {
        lemma_removals_balanced(s, opening, closing, top_opening, stop, j + 1);
        let rest = unpair_removals(s, opening, closing, top_opening, stop, j + 1);
        if s[j] == closing && (j == 0 || s[j - 1] != closing) {
            let shorter = s.remove(j);
            s.remove_ensures(j);
            assert forall|k: int| 0 <= k <= stop implies depth(
                #[trigger] shorter.take(k),
                opening,
                closing,
            ) >= 0 && (k == stop ==> depth(shorter.take(k), opening, closing) == 0) by {
                if k <= j {
                    assert(shorter.take(k) =~= s.take(k));
                    if k == stop {
                        assert(s.take(stop + 1).drop_last() =~= s.take(stop));
                    }
                } else {
                    assert(shorter.take(k) =~= s.take(k + 1).remove(j));
                    lemma_depth_remove(s.take(k + 1), j, opening, closing);
                }
            }
            assert(settled(shorter, opening, closing, stop));
            if closing == top_opening {
                assert forall|k: int| stop <= k <= shorter.len() implies depth(
                    #[trigger] shorter.skip(k),
                    opening,
                    closing,
                ) <= 0 by {
                    assert(shorter.skip(k) =~= s.skip(k + 1));
                }
            }
            lemma_inner_balanced(shorter, opening, closing, top_opening, stop, j);
            lemma_balanced_concat(
                unpair_inner(shorter, opening, closing, top_opening, stop, j),
                rest,
                top_opening,
                other,
            );
        } else {
            assert(Seq::<char>::empty() + rest =~= rest);
        }
    }
}

/// What `remove_unpair` returns is balanced: each of its closings has an
/// opening before it, and each of its openings a closing behind it.
pub proof fn lemma_result_balanced(s: Seq<char>, opening: char, closing: char)
    requires
        opening != closing,
    ensures
        balanced(unpair_inner(s, opening, closing, opening, 0, 0), opening, closing),
{
    assert(s.take(0) =~= Seq::<char>::empty());
    lemma_inner_balanced(s, opening, closing, opening, 0, 0);
}

/// `remove_unpair` returns a balanced text as it is.
pub proof fn lemma_balanced_unchanged(s: Seq<char>, opening: char, closing: char)
    requires
        opening != closing,
        balanced(s, opening, closing),
    ensures
        unpair_inner(s, opening, closing, opening, 0, 0) == s,
{
    lemma_scan(s, opening, closing, 0, 0);
    assert forall|k: int| 0 <= k <= s.len() implies s.subrange(0, k) == #[trigger] s.take(k) by {
        assert(s.subrange(0, k) =~= s.take(k));
    }
    if let Some(stop) = first_unmatched(s, opening, closing, 0, 0) {
        assert(s.take(stop + 1).drop_last() =~= s.take(stop));
        assert(s.subrange(0, stop) == s.take(stop));
        assert(depth(s.take(stop + 1), opening, closing) == -1);
    }
    assert(first_unmatched(s, opening, closing, 0, 0) is None);
    let rev = s.reverse();
    assert(unpair_inner(s, opening, closing, opening, 0, 0) == unpair_inner(
        rev,
        closing,
        opening,
        opening,
        0,
        0,
    ));
    lemma_scan(rev, closing, opening, 0, 0);
    assert forall|m: int| 0 <= m <= rev.len() implies depth(
        #[trigger] rev.take(m),
        closing,
        opening,
    ) >= 0 by {
        let tail = s.skip(s.len() - m);
        assert(rev.take(m) =~= tail.reverse());
        lemma_depth_reverse(tail, closing, opening);
        lemma_depth_exchanged(tail, opening, closing);
        lemma_depth_split(s, s.len() - m, opening, closing);
        assert(depth(s.take(s.len() - m), opening, closing) >= 0);
    }
    if let Some(stop) = first_unmatched(rev, closing, opening, 0, 0) {
        assert(rev.take(stop + 1).drop_last() =~= rev.take(stop));
        assert(rev.subrange(0, stop) =~= rev.take(stop));
        assert(depth(rev.take(stop + 1), closing, opening) == -1);
    }
    assert(first_unmatched(rev, closing, opening, 0, 0) is None);
    assert(unpair_inner(rev, closing, opening, opening, 0, 0) == rev.reverse());
    assert(rev.reverse() =~= s);
}

} // verus!
