//! Facts on lists that the laws rest on.

use vstd::prelude::*;

use crate::order::{dedup_texts, law_sorting_keeps_items, lemma_filtered_are_members, sort_stable};

verus! {

/// What a filter makes of one item more.
pub proof fn lemma_filter_push<T>(s: Seq<T>, x: T, pred: spec_fn(T) -> bool)
    ensures
        s.push(x).filter(pred) == if pred(x) {
            s.filter(pred).push(x)
        } else {
            s.filter(pred)
        },
{
    reveal(Seq::filter);
    assert(s.push(x).drop_last() =~= s);
}

/// A filter keeps exactly what stood there and satisfies it.
pub proof fn lemma_filter_members<T>(s: Seq<T>, pred: spec_fn(T) -> bool, x: T)
    ensures
        s.filter(pred).contains(x) <==> s.contains(x) && pred(x),
{
    if s.filter(pred).contains(x) {
        lemma_filtered_are_members(s, pred);
        let k = choose|k: int| 0 <= k < s.filter(pred).len() && s.filter(pred)[k] == x;
        assert(s.contains(s.filter(pred)[k]));
    }
    if s.contains(x) && pred(x) {
        lemma_filtered_in(s, pred, x);
    }
}

proof fn lemma_filtered_in<T>(s: Seq<T>, pred: spec_fn(T) -> bool, x: T)
    requires
        s.contains(x),
        pred(x),
    ensures
        s.filter(pred).contains(x),
    decreases s.len(),
{
    let front = s.drop_last();
    assert(front.push(s.last()) =~= s);
    lemma_filter_push(front, s.last(), pred);
    let k = choose|k: int| 0 <= k < s.len() && s[k] == x;
    if k < front.len() {
        assert(front[k] == x);
        lemma_filtered_in(front, pred, x);
        let j = choose|j: int| 0 <= j < front.filter(pred).len() && front.filter(pred)[j] == x;
        assert(s.filter(pred)[j] == x);
    } else {
        let all = s.filter(pred);
        assert(all[all.len() - 1] == x);
    }
}

/// A sorted list has the items of the list.
pub proof fn lemma_sorted_members<T>(s: Seq<T>, lt: spec_fn(T, T) -> bool, x: T)
    ensures
        sort_stable(s, lt).contains(x) <==> s.contains(x),
        sort_stable(s, lt).len() == s.len(),
{
    law_sorting_keeps_items(s, lt);
    lemma_multiset_members(sort_stable(s, lt), s, x);
}

/// Lists of the same items have the same members.
pub proof fn lemma_multiset_members<T>(a: Seq<T>, b: Seq<T>, x: T)
    requires
        a.to_multiset() == b.to_multiset(),
    ensures
        a.contains(x) <==> b.contains(x),
{
    broadcast use vstd::seq_lib::group_to_multiset_ensures;

    assert(a.contains(x) <==> a.to_multiset().count(x) > 0);
    assert(b.contains(x) <==> b.to_multiset().count(x) > 0);
}

/// A mapped list has what the map makes of the items.
pub proof fn lemma_map_members<T, U>(s: Seq<T>, f: spec_fn(T) -> U, x: T)
    requires
        s.contains(x),
    ensures
        s.map_values(f).contains(f(x)),
{
    let k = choose|k: int| 0 <= k < s.len() && s[k] == x;
    assert(s.map_values(f)[k] == f(x));
}

/// Taking out what stands twice in a row loses no text.
pub proof fn lemma_dedup_members(s: Seq<Seq<char>>, x: Seq<char>)
    ensures
        dedup_texts(s).contains(x) <==> s.contains(x),
    decreases s.len(),
{
    if s.len() > 0 {
        let front = s.drop_last();
        let kept = dedup_texts(front);
        let all = dedup_texts(s);
        lemma_dedup_members(front, x);
        lemma_dedup_members(front, s.last());
        assert(s[s.len() - 1] == s.last());
        if s.len() > 1 && s[s.len() - 2] == s.last() {
            assert(front[front.len() - 1] == s.last());
        } else {
            assert(all[all.len() - 1] == s.last());
        }
        if kept.contains(x) {
            let k = choose|k: int| 0 <= k < kept.len() && kept[k] == x;
            assert(all[k] == x);
        }
        if front.contains(x) {
            let k = choose|k: int| 0 <= k < front.len() && front[k] == x;
            assert(s[k] == x);
        }
        if s.contains(x) && !front.contains(x) {
            let k = choose|k: int| 0 <= k < s.len() && s[k] == x;
            if k < front.len() {
                assert(front[k] == x);
            }
        }
        if all.contains(x) && !kept.contains(x) {
            let k = choose|k: int| 0 <= k < all.len() && all[k] == x;
            if k < kept.len() {
                assert(kept[k] == x);
            }
        }
    }
}

/// What a mapped list has was made of one of the items.
pub proof fn lemma_map_sources<T, U>(s: Seq<T>, f: spec_fn(T) -> U, y: U)
    ensures
        s.map_values(f).contains(y) <==> exists|k: int|
            0 <= k < s.len() && f(#[trigger] s[k]) == y,
{
    let m = s.map_values(f);
    if m.contains(y) {
        let k = choose|k: int| 0 <= k < m.len() && m[k] == y;
        assert(f(s[k]) == y);
    }
    if exists|k: int| 0 <= k < s.len() && f(#[trigger] s[k]) == y {
        let k = choose|k: int| 0 <= k < s.len() && f(#[trigger] s[k]) == y;
        assert(m[k] == y);
    }
}

} // verus!
