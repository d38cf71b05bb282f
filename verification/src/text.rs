//! Strings as sequences of characters: converting, searching and cutting.

use vstd::prelude::*;

verus! {

/// Appends one character to a string, by `String::push`: the string's view
/// grows by exactly that character.
#[verifier::external_body]
fn push_char(text: &mut String, c: char)
    ensures
        final(text)@ == old(text)@.push(c),
{
    text.push(c)
}

/// The characters of `text`, in order.
pub fn chars_of(text: &str) -> (chars: Vec<char>)
    ensures
        chars@ == text@,
{
    let mut chars: Vec<char> = Vec::new();
    for c in it: text.chars()
        invariant
            it.seq() == text@,
            chars@ == text@.take(it.index() as int),
    {
        chars.push(c);
        assert(text@.take(it.index() + 1) =~= text@.take(it.index() as int).push(c));
    }
    assert(text@.take(text@.len() as int) =~= text@);
    chars
}

/// The string made of `chars`, in order.
pub fn string_of(chars: &Vec<char>) -> (text: String)
    ensures
        text@ == chars@,
{
    let mut text = String::new();
    let mut i: usize = 0;
    while i < chars.len()
        invariant
            i <= chars.len(),
            text@ == chars@.take(i as int),
        decreases chars.len() - i,
    {
        push_char(&mut text, chars[i]);
        assert(chars@.take(i + 1) =~= chars@.take(i as int).push(chars@[i as int]));
        i += 1;
    }
    assert(chars@.take(chars@.len() as int) =~= chars@);
    text
}

/// The elements of `v` in reverse order.
pub fn reversed(v: &Vec<char>) -> (r: Vec<char>)
    ensures
        r@ == v@.reverse(),
{
    let mut r: Vec<char> = Vec::new();
    let mut i: usize = v.len();
    while i > 0
        invariant
            i <= v.len(),
            r@.len() == v.len() - i,
            forall|k: int| 0 <= k < r@.len() ==> r@[k] == v@[v.len() - 1 - k],
        decreases i,
    {
        i -= 1;
        r.push(v[i]);
    }
    assert(r@ =~= v@.reverse());
    r
}

/// The elements of `v` but the one at index `j`.
pub fn without(v: &Vec<char>, j: usize) -> (r: Vec<char>)
    requires
        j < v.len(),
    ensures
        r@ == v@.remove(j as int),
{
    let mut r: Vec<char> = Vec::new();
    let mut i: usize = 0;
    while i < v.len()
        invariant
            i <= v.len(),
            j < v.len(),
            r@ == if i <= j {
                v@.subrange(0, i as int)
            } else {
                v@.subrange(0, j as int) + v@.subrange(j + 1, i as int)
            },
        decreases v.len() - i,
    {
        if i != j {
            r.push(v[i]);
        }
        i += 1;
        assert(r@ =~= if i <= j {
            v@.subrange(0, i as int)
        } else {
            v@.subrange(0, j as int) + v@.subrange(j + 1, i as int)
        });
    }
    r
}

/// `p` stands in `s` at the index `at`.
pub open spec fn occurs_at(s: Seq<char>, at: int, p: Seq<char>) -> bool {
    0 <= at && at + p.len() <= s.len() && s.subrange(at, at + p.len()) == p
}

/// `s` begins with `p`.
pub open spec fn has_prefix(s: Seq<char>, p: Seq<char>) -> bool {
    occurs_at(s, 0, p)
}

/// `s` ends with `p`.
pub open spec fn has_suffix(s: Seq<char>, p: Seq<char>) -> bool {
    occurs_at(s, s.len() - p.len(), p)
}

/// `p` stands somewhere in `s`.
pub open spec fn contains_text(s: Seq<char>, p: Seq<char>) -> bool {
    exists|at: int| occurs_at(s, at, p)
}

/// `s` without every `p` that it begins with.
pub open spec fn without_leading(s: Seq<char>, p: Seq<char>) -> Seq<char>
    decreases s.len(),
{
    if p.len() > 0 && has_prefix(s, p) {
        without_leading(s.skip(p.len() as int), p)
    } else {
        s
    }
}

/// `s` without every `p` that it ends with.
pub open spec fn without_trailing(s: Seq<char>, p: Seq<char>) -> Seq<char>
    decreases s.len(),
{
    if p.len() > 0 && has_suffix(s, p) {
        without_trailing(s.take(s.len() - p.len()), p)
    } else {
        s
    }
}

/// `s` without the occurrences of `p`, found from left to right, none of
/// them overlapping another.
pub open spec fn without_all(s: Seq<char>, p: Seq<char>) -> Seq<char>
    decreases s.len(),
{
    if s.len() == 0 {
        s
    } else if p.len() > 0 && has_prefix(s, p) {
        without_all(s.skip(p.len() as int), p)
    } else {
        seq![s[0]] + without_all(s.skip(1), p)
    }
}

/// Whether `p` stands in `s` at the index `at`.
pub fn is_at(s: &Vec<char>, at: usize, p: &Vec<char>) -> (found: bool)
    ensures
        found == occurs_at(s@, at as int, p@),
{
    if p.len() > s.len() || at > s.len() - p.len() {
        return false;
    }
    let mut k: usize = 0;
    while k < p.len()
        invariant
            k <= p.len(),
            at + p.len() <= s.len(),
            forall|m: int| 0 <= m < k ==> s@[at + m] == p@[m],
        decreases p.len() - k,
    {
        if s[at + k] != p[k] {
            assert(s@.subrange(at as int, at + p.len())[k as int] != p@[k as int]);
            return false;
        }
        k += 1;
    }
    assert(s@.subrange(at as int, at + p.len()) =~= p@);
    true
}

/// Whether `s` ends with `p`.
pub fn ends_with(s: &Vec<char>, p: &Vec<char>) -> (found: bool)
    ensures
        found == has_suffix(s@, p@),
{
    if p.len() > s.len() {
        return false;
    }
    is_at(s, s.len() - p.len(), p)
}

/// Whether `p` stands somewhere in `s`.
pub fn contains(s: &Vec<char>, p: &Vec<char>) -> (found: bool)
    ensures
        found == contains_text(s@, p@),
{
    if p.len() > s.len() {
        return false;
    }
    let last: usize = s.len() - p.len();
    let mut at: usize = 0;
    while at < last
        invariant
            at <= last,
            last == s.len() - p.len(),
            forall|m: int| 0 <= m < at ==> !occurs_at(s@, m, p@),
        decreases last - at,
    {
        if is_at(s, at, p) {
            return true;
        }
        at += 1;
    }
    is_at(s, last, p)
}

/// The elements of `s` from the index `from` up to, not including, the
/// index `to`.
pub fn slice_of(s: &Vec<char>, from: usize, to: usize) -> (part: Vec<char>)
    requires
        from <= to <= s.len(),
    ensures
        part@ == s@.subrange(from as int, to as int),
{
    let mut part: Vec<char> = Vec::new();
    let mut i: usize = from;
    while i < to
        invariant
            from <= i <= to,
            to <= s.len(),
            part@ == s@.subrange(from as int, i as int),
        decreases to - i,
    {
        part.push(s[i]);
        i += 1;
        assert(part@ =~= s@.subrange(from as int, i as int));
    }
    part
}

/// `s` without every `leading` that it begins with and, of what is left,
/// without every `trailing` that it ends with.
pub fn trim_matches(s: &Vec<char>, leading: &Vec<char>, trailing: &Vec<char>) -> (trimmed: Vec<
    char,
>)
    ensures
        trimmed@ == without_trailing(without_leading(s@, leading@), trailing@),
{
    let mut from: usize = 0;
    assert(s@.skip(0) =~= s@);
    while leading.len() > 0 && is_at(s, from, leading)
        invariant
            from <= s.len(),
            without_leading(s@, leading@) == without_leading(s@.skip(from as int), leading@),
        decreases s.len() - from,
    {
        proof {
            let rest = s@.skip(from as int);
            assert(rest.subrange(0, leading@.len() as int) =~= s@.subrange(
                from as int,
                from + leading@.len(),
            ));
            assert(rest.skip(leading@.len() as int) =~= s@.skip(from + leading@.len()));
        }
        from += leading.len();
    }
    proof {
        let rest = s@.skip(from as int);
        if leading@.len() > 0 && has_prefix(rest, leading@) {
            assert(rest.subrange(0, leading@.len() as int) =~= s@.subrange(
                from as int,
                from + leading@.len(),
            ));
        }
        assert(without_leading(rest, leading@) == rest);
    }
    let ghost kept = s@.skip(from as int);
    let mut to: usize = s.len();
    assert(s@.subrange(from as int, to as int) =~= kept);
    while trailing.len() > 0 && to - from >= trailing.len() && is_at(s, to - trailing.len(), trailing)
        invariant
            from <= to <= s.len(),
            without_trailing(kept, trailing@) == without_trailing(
                s@.subrange(from as int, to as int),
                trailing@,
            ),
        decreases to - from,
    {
        proof {
            let now = s@.subrange(from as int, to as int);
            assert(now.subrange(now.len() - trailing@.len(), now.len() as int) =~= s@.subrange(
                to - trailing@.len(),
                to as int,
            ));
            assert(now.take(now.len() - trailing@.len()) =~= s@.subrange(
                from as int,
                to - trailing@.len(),
            ));
        }
        to -= trailing.len();
    }
    proof {
        let now = s@.subrange(from as int, to as int);
        if trailing@.len() > 0 && has_suffix(now, trailing@) {
            assert(now.subrange(now.len() - trailing@.len(), now.len() as int) =~= s@.subrange(
                to - trailing@.len(),
                to as int,
            ));
        }
        assert(without_trailing(now, trailing@) == now);
    }
    slice_of(s, from, to)
}

/// `s` without the occurrences of `p`.
pub fn remove_all(s: &Vec<char>, p: &Vec<char>) -> (rest: Vec<char>)
    ensures
        rest@ == without_all(s@, p@),
{
    let mut rest: Vec<char> = Vec::new();
    let mut i: usize = 0;
    assert(s@.skip(0) =~= s@);
    while i < s.len()
        invariant
            i <= s.len(),
            without_all(s@, p@) == rest@ + without_all(s@.skip(i as int), p@),
        decreases s.len() - i,
    {
        let ghost tail = s@.skip(i as int);
        let ghost before = rest@;
        if p.len() > 0 && is_at(s, i, p) {
            proof {
                assert(tail.subrange(0, p@.len() as int) =~= s@.subrange(i as int, i + p@.len()));
                assert(tail.skip(p@.len() as int) =~= s@.skip(i + p@.len()));
            }
            i += p.len();
        } else {
            proof {
                if p@.len() > 0 && has_prefix(tail, p@) {
                    assert(tail.subrange(0, p@.len() as int) =~= s@.subrange(
                        i as int,
                        i + p@.len(),
                    ));
                }
                assert(tail.skip(1) =~= s@.skip(i + 1));
            }
            rest.push(s[i]);
            i += 1;
            assert(rest@ + without_all(s@.skip(i as int), p@) =~= before + (seq![tail[0]]
                + without_all(tail.skip(1), p@)));
        }
    }
    assert(rest@ + without_all(s@.skip(i as int), p@) =~= rest@);
    rest
}

} // verus!
