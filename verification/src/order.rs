//! Stable ordering: which index stands where once a list is put in order.

use vstd::prelude::*;

use crate::text::{chars_of, texts};

verus! {

/// The first position at or after `p` of a ranked list before which `i` must
/// stand, or its length.
pub open spec fn slot<T>(
    keys: Seq<T>,
    ahead: spec_fn(T, T) -> bool,
    r: Seq<int>,
    i: int,
    p: int,
) -> int
    decreases r.len() - p,
{
    if p >= r.len() || ahead(keys[i], keys[r[p]]) {
        p
    } else {
        slot(keys, ahead, r, i, p + 1)
    }
}

/// The indices of the keys in order, those of equal keys as they came: each
/// index goes before the first that it is ahead of.
pub open spec fn ranked<T>(keys: Seq<T>, ahead: spec_fn(T, T) -> bool) -> Seq<int>
    decreases keys.len(),
{
    if keys.len() == 0 {
        Seq::empty()
    } else {
        let r = ranked(keys.drop_last(), ahead);
        let i = keys.len() - 1;
        r.insert(slot(keys, ahead, r, i, 0), i)
    }
}

/// The items of a list in the order of the given indices.
pub open spec fn arranged<T>(s: Seq<T>, order: Seq<int>) -> Seq<T> {
    order.map_values(|i: int| s[i])
}

/// Whether `r` lists each index of the keys once, no key before one that is
/// ahead of it, and equal keys as they came.
pub open spec fn is_ranking<T>(
    keys: Seq<T>,
    ahead: spec_fn(T, T) -> bool,
    r: Seq<int>,
) -> bool {
    &&& r.len() == keys.len()
    &&& forall|a: int| 0 <= a < r.len() ==> 0 <= #[trigger] r[a] < keys.len()
    &&& forall|a: int, b: int|
        0 <= a < b < r.len() ==> (#[trigger] r[a]) != (#[trigger] r[b]) && !ahead(
            keys[r[b]],
            keys[r[a]],
        ) && (!ahead(keys[r[a]], keys[r[b]]) ==> r[a] < r[b])
}

/// Whether a relation orders the keys: nothing is ahead of itself, and being
/// ahead and not being behind both pass along.
pub open spec fn is_order<T>(ahead: spec_fn(T, T) -> bool) -> bool {
    &&& forall|a: T| !#[trigger] ahead(a, a)
    &&& forall|a: T, b: T, c: T|
        #[trigger] ahead(a, b) && #[trigger] ahead(b, c) ==> ahead(a, c)
    &&& forall|a: T, b: T, c: T|
        !#[trigger] ahead(a, b) && !#[trigger] ahead(b, c) ==> !ahead(a, c)
}

proof fn lemma_slot<T>(
    keys: Seq<T>,
    ahead: spec_fn(T, T) -> bool,
    r: Seq<int>,
    i: int,
    p: int,
)
    requires
        0 <= p <= r.len(),
    ensures
        p <= slot(keys, ahead, r, i, p) <= r.len(),
        forall|q: int|
            p <= q < slot(keys, ahead, r, i, p) ==> !ahead(keys[i], keys[#[trigger] r[q]]),
        slot(keys, ahead, r, i, p) < r.len() ==> ahead(
            keys[i],
            keys[r[slot(keys, ahead, r, i, p)]],
        ),
    decreases r.len() - p,
{
    if p < r.len() && !ahead(keys[i], keys[r[p]]) {
        lemma_slot(keys, ahead, r, i, p + 1);
    }
}

/// Ordering loses nothing, repeats nothing, and is stable.
pub proof fn ranked_is_a_ranking<T>(keys: Seq<T>, ahead: spec_fn(T, T) -> bool)
    requires
        is_order(ahead),
    ensures
        is_ranking(keys, ahead, ranked(keys, ahead)),
    decreases keys.len(),
{
    if keys.len() > 0 {
        let r = ranked(keys.drop_last(), ahead);
        let i = keys.len() - 1;
        let p = slot(keys, ahead, r, i, 0);
        ranked_is_a_ranking(keys.drop_last(), ahead);
        lemma_slot(keys, ahead, r, i, 0);
        let n = r.insert(p, i);
        assert forall|a: int, b: int| 0 <= a < b < n.len() implies (#[trigger] n[a])
            != (#[trigger] n[b]) && !ahead(keys[n[b]], keys[n[a]]) && (!ahead(
            keys[n[a]],
            keys[n[b]],
        ) ==> n[a] < n[b]) by {
            let x = if a < p {
                r[a]
            } else if a == p {
                i
            } else {
                r[a - 1]
            };
            let y = if b < p {
                r[b]
            } else if b == p {
                i
            } else {
                r[b - 1]
            };
            assert(n[a] == x && n[b] == y);
            if a == p {
                let first = r[p];
                assert(ahead(keys[i], keys[first]));
                if b - 1 > p {
                    assert(!ahead(keys[y], keys[first]));
                }
                if !ahead(keys[i], keys[y]) {
                    assert(!ahead(keys[i], keys[first]));
                }
                if ahead(keys[y], keys[i]) {
                    assert(ahead(keys[y], keys[first]));
                }
            }
        }
    }
}

/// A ranking lists every index.
pub proof fn lemma_ranking_lists<T>(
    keys: Seq<T>,
    ahead: spec_fn(T, T) -> bool,
    r: Seq<int>,
    i: int,
)
    requires
        is_ranking(keys, ahead, r),
        0 <= i < keys.len(),
    ensures
        exists|a: int| 0 <= a < r.len() && r[a] == i,
{
    if forall|a: int| 0 <= a < r.len() ==> r[a] != i {
        let all = Set::new(|x: int| 0 <= x < keys.len() && x != i);
        let some = r.to_set();
        assert(r.no_duplicates());
        r.unique_seq_to_set();
        vstd::set_lib::lemma_int_range(0, keys.len() as int);
        let range = vstd::set_lib::set_int_range(0, keys.len() as int);
        assert(range.contains(i));
        assert(range.remove(i) =~= all);
        assert(some.subset_of(all));
        vstd::set_lib::lemma_len_subset(some, all);
    }
}

// ------------------------------------------------------------ pairs, descending

/// Whether a pair stands before another where the larger come first.
pub open spec fn larger(a: (u64, u64), b: (u64, u64)) -> bool {
    a.0 > b.0 || (a.0 == b.0 && a.1 > b.1)
}

/// `larger` as a relation.
pub open spec fn by_size() -> spec_fn((u64, u64), (u64, u64)) -> bool {
    |a: (u64, u64), b: (u64, u64)| larger(a, b)
}

/// The indices of the pairs, the largest first.
pub open spec fn descending(keys: Seq<(u64, u64)>) -> Seq<int> {
    ranked(keys, by_size())
}

/// The indices that a list of machine integers holds.
pub open spec fn indices(v: Seq<usize>) -> Seq<int> {
    v.map_values(|i: usize| i as int)
}

/// Each index once, the larger keys first, equal ones as they came.
pub proof fn descending_is_a_ranking(keys: Seq<(u64, u64)>)
    ensures
        is_ranking(keys, by_size(), descending(keys)),
{
    ranked_is_a_ranking(keys, by_size());
}

pub fn rank(keys: &Vec<(u64, u64)>) -> (r: Vec<usize>)
    ensures
        indices(r@) == descending(keys@),
        is_ranking(keys@, by_size(), indices(r@)),
        r@.len() == keys@.len(),
        forall|i: int| 0 <= i < r@.len() ==> 0 <= #[trigger] r@[i] < keys@.len(),
{
    let mut out: Vec<usize> = Vec::new();
    let mut i: usize = 0;
    assert(indices(out@) =~= descending(keys@.take(0)));
    while i < keys.len()
        invariant
            i <= keys.len(),
            out@.len() == i,
            forall|j: int| 0 <= j < out@.len() ==> 0 <= #[trigger] out@[j] < i,
            indices(out@) == descending(keys@.take(i as int)),
        decreases keys.len() - i,
    {
        let ghost r = indices(out@);
        let ghost now = keys@.take(i as int + 1);
        let mut p: usize = 0;
        let (ka, kb) = keys[i];
        while p < out.len() && !(ka > keys[out[p]].0 || (ka == keys[out[p]].0 && kb
            > keys[out[p]].1))
            invariant
                p <= out.len(),
                i < keys.len(),
                keys@[i as int] == (ka, kb),
                r == indices(out@),
                now == keys@.take(i as int + 1),
                forall|j: int| 0 <= j < out@.len() ==> 0 <= #[trigger] out@[j] < i,
                slot(now, by_size(), r, i as int, 0) == slot(
                    now,
                    by_size(),
                    r,
                    i as int,
                    p as int,
                ),
            decreases out.len() - p,
        {
            assert(r[p as int] == out@[p as int]);
            p = p + 1;
        }
        assert(p < out@.len() ==> r[p as int] == out@[p as int]);
        assert(now.drop_last() =~= keys@.take(i as int));
        out.insert(p, i);
        assert(indices(out@) =~= r.insert(p as int, i as int));
        i = i + 1;
    }
    assert(keys@.take(i as int) =~= keys@);
    proof {
        descending_is_a_ranking(keys@);
    }
    out
}

// ------------------------------------------------------------ texts, ascending

/// Whether a text comes before another, character by character.
pub open spec fn text_less(a: Seq<char>, b: Seq<char>) -> bool
    decreases a.len(),
{
    if b.len() == 0 {
        false
    } else if a.len() == 0 {
        true
    } else if a[0] == b[0] {
        text_less(a.drop_first(), b.drop_first())
    } else {
        (a[0] as int) < (b[0] as int)
    }
}

/// `text_less` as a relation.
pub open spec fn by_text() -> spec_fn(Seq<char>, Seq<char>) -> bool {
    |a: Seq<char>, b: Seq<char>| text_less(a, b)
}

/// The indices of the texts in alphabetical order.
pub open spec fn alphabetical(keys: Seq<Seq<char>>) -> Seq<int> {
    ranked(keys, by_text())
}

pub proof fn lemma_text_irreflexive(a: Seq<char>)
    ensures
        !text_less(a, a),
    decreases a.len(),
{
    if a.len() > 0 {
        lemma_text_irreflexive(a.drop_first());
    }
}

pub proof fn lemma_text_order(a: Seq<char>, b: Seq<char>, c: Seq<char>)
    ensures
        text_less(a, b) && text_less(b, c) ==> text_less(a, c),
        !text_less(a, b) && !text_less(b, c) ==> !text_less(a, c),
    decreases a.len() + b.len() + c.len(),
{
    if a.len() > 0 && b.len() > 0 && c.len() > 0 {
        lemma_text_order(a.drop_first(), b.drop_first(), c.drop_first());
    }
}

/// Each index once, the texts in alphabetical order, equal ones as they came.
pub proof fn alphabetical_is_a_ranking(keys: Seq<Seq<char>>)
    ensures
        is_ranking(keys, by_text(), alphabetical(keys)),
{
    let f = by_text();
    assert forall|a: Seq<char>| !#[trigger] f(a, a) by {
        lemma_text_irreflexive(a);
    }
    assert forall|a: Seq<char>, b: Seq<char>, c: Seq<char>|
        #[trigger] f(a, b) && #[trigger] f(b, c) implies f(a, c) by {
        lemma_text_order(a, b, c);
    }
    assert forall|a: Seq<char>, b: Seq<char>, c: Seq<char>|
        !#[trigger] f(a, b) && !#[trigger] f(b, c) implies !f(a, c) by {
        lemma_text_order(a, b, c);
    }
    ranked_is_a_ranking(keys, f);
}

fn lower_code(x: char, y: char) -> (r: bool)
    ensures
        r == ((x as int) < (y as int)),
{
    (x as u32) < (y as u32)
}

pub fn comes_before(a: &str, b: &str) -> (r: bool)
    ensures
        r == text_less(a@, b@),
{
    let v: Vec<char> = chars_of(a);
    let w: Vec<char> = chars_of(b);
    let mut i: usize = 0;
    assert(v@.skip(0) =~= a@);
    assert(w@.skip(0) =~= b@);
    while i < v.len() && i < w.len() && v[i] == w[i]
        invariant
            i <= v.len(),
            i <= w.len(),
            text_less(a@, b@) == text_less(v@.skip(i as int), w@.skip(i as int)),
        decreases v.len() - i,
    {
        assert(v@.skip(i as int).drop_first() =~= v@.skip(i as int + 1));
        assert(w@.skip(i as int).drop_first() =~= w@.skip(i as int + 1));
        i = i + 1;
    }
    if i >= w.len() {
        false
    } else if i >= v.len() {
        true
    } else {
        lower_code(v[i], w[i])
    }
}

pub fn rank_texts(keys: &Vec<String>) -> (r: Vec<usize>)
    ensures
        indices(r@) == alphabetical(texts(keys@)),
        is_ranking(texts(keys@), by_text(), indices(r@)),
        r@.len() == keys@.len(),
        forall|i: int| 0 <= i < r@.len() ==> 0 <= #[trigger] r@[i] < keys@.len(),
{
    let mut out: Vec<usize> = Vec::new();
    let mut i: usize = 0;
    let ghost all = texts(keys@);
    assert(indices(out@) =~= alphabetical(all.take(0)));
    while i < keys.len()
        invariant
            i <= keys.len(),
            all == texts(keys@),
            out@.len() == i,
            forall|j: int| 0 <= j < out@.len() ==> 0 <= #[trigger] out@[j] < i,
            indices(out@) == alphabetical(all.take(i as int)),
        decreases keys.len() - i,
    {
        let ghost r = indices(out@);
        let ghost now = all.take(i as int + 1);
        let mut p: usize = 0;
        while p < out.len() && !comes_before(keys[i].as_str(), keys[out[p]].as_str())
            invariant
                p <= out.len(),
                i < keys.len(),
                all == texts(keys@),
                r == indices(out@),
                now == all.take(i as int + 1),
                forall|j: int| 0 <= j < out@.len() ==> 0 <= #[trigger] out@[j] < i,
                slot(now, by_text(), r, i as int, 0) == slot(
                    now,
                    by_text(),
                    r,
                    i as int,
                    p as int,
                ),
            decreases out.len() - p,
        {
            assert(r[p as int] == out@[p as int]);
            p = p + 1;
        }
        assert(p < out@.len() ==> r[p as int] == out@[p as int]);
        assert(now.drop_last() =~= all.take(i as int));
        out.insert(p, i);
        assert(indices(out@) =~= r.insert(p as int, i as int));
        i = i + 1;
    }
    assert(all.take(i as int) =~= all);
    proof {
        alphabetical_is_a_ranking(all);
    }
    out
}

/// Two texts compare by the first character in which they differ, and one
/// that the other goes on from comes first.
pub proof fn texts_compare_by_their_first_difference(
    common: Seq<char>,
    a: Seq<char>,
    b: Seq<char>,
)
    ensures
        a.len() == 0 && b.len() > 0 ==> text_less(common + a, common + b),
        b.len() == 0 ==> !text_less(common + a, common + b),
        a.len() > 0 && b.len() > 0 && (a[0] as int) < (b[0] as int) ==> text_less(
            common + a,
            common + b,
        ),
        a.len() > 0 && b.len() > 0 && (a[0] as int) > (b[0] as int) ==> !text_less(
            common + a,
            common + b,
        ),
    decreases common.len(),
{
    if common.len() == 0 {
        assert(common + a =~= a);
        assert(common + b =~= b);
    } else {
        assert((common + a).drop_first() =~= common.drop_first() + a);
        assert((common + b).drop_first() =~= common.drop_first() + b);
        texts_compare_by_their_first_difference(common.drop_first(), a, b);
    }
}

/// Of two pairs the one with the larger first part is listed before, then
/// that with the larger second, then that which came before.
pub proof fn larger_pairs_are_listed_first(keys: Seq<(u64, u64)>, i: int, j: int)
    requires
        0 <= i < j < keys.len(),
    ensures
        ({
            let r = descending(keys);
            let a = keys[r[i]];
            let b = keys[r[j]];
            &&& a.0 >= b.0
            &&& a.0 == b.0 ==> a.1 >= b.1
            &&& a == b ==> r[i] < r[j]
        }),
{
    descending_is_a_ranking(keys);
    let r = descending(keys);
    assert(!by_size()(keys[r[j]], keys[r[i]]));
}

} // verus!
