//! Text order and stable sorting.

use vstd::prelude::*;

use crate::text::{same_text, texts, to_chars};

verus! {

/// Lexicographic order of texts, the order of `str`.
pub open spec fn text_lt(a: Seq<char>, b: Seq<char>) -> bool
    decreases a.len(),
{
    if b.len() == 0 {
        false
    } else if a.len() == 0 {
        true
    } else if a[0] != b[0] {
        a[0] < b[0]
    } else {
        text_lt(a.skip(1), b.skip(1))
    }
}

/// Whether `a` comes before `b`.
pub fn text_less(a: &str, b: &str) -> (r: bool)
    ensures
        r == text_lt(a@, b@),
{
    let ac = to_chars(a);
    let bc = to_chars(b);
    let mut i: usize = 0;
    proof {
        assert(a@.skip(0) =~= a@);
        assert(b@.skip(0) =~= b@);
    }
    while i < ac.len() && i < bc.len()
        invariant
            i <= ac@.len(),
            i <= bc@.len(),
            ac@ == a@,
            bc@ == b@,
            text_lt(a@, b@) == text_lt(a@.skip(i as int), b@.skip(i as int)),
        decreases ac@.len() - i,
    {
        if ac[i] != bc[i] {
            return ac[i] < bc[i];
        }
        proof {
            assert(a@.skip(i as int).skip(1) =~= a@.skip(i + 1));
            assert(b@.skip(i as int).skip(1) =~= b@.skip(i + 1));
        }
        i = i + 1;
    }
    i < bc.len()
}

pub proof fn lemma_text_lt_irreflexive(a: Seq<char>)
    ensures
        !text_lt(a, a),
    decreases a.len(),
{
    if a.len() > 0 {
        lemma_text_lt_irreflexive(a.skip(1));
    }
}

pub proof fn lemma_text_lt_total(a: Seq<char>, b: Seq<char>)
    ensures
        text_lt(a, b) || text_lt(b, a) || a == b,
    decreases a.len(),
{
    if a.len() == 0 || b.len() == 0 {
        if a.len() == 0 && b.len() == 0 {
            assert(a =~= b);
        }
    } else if a[0] == b[0] {
        lemma_text_lt_total(a.skip(1), b.skip(1));
        if a.skip(1) == b.skip(1) {
            assert(a =~= seq![a[0]] + a.skip(1));
            assert(b =~= seq![b[0]] + b.skip(1));
        }
    }
}

pub proof fn lemma_text_lt_transitive(a: Seq<char>, b: Seq<char>, c: Seq<char>)
    requires
        text_lt(a, b),
        text_lt(b, c),
    ensures
        text_lt(a, c),
    decreases a.len(),
{
    if a.len() > 0 && a[0] == b[0] && b[0] == c[0] {
        lemma_text_lt_transitive(a.skip(1), b.skip(1), c.skip(1));
    }
}

// ---- stable sorting under an order ----

/// `x` put behind everything in `s` that it does not precede, looking from the end.
pub open spec fn insert_by<T>(s: Seq<T>, x: T, lt: spec_fn(T, T) -> bool) -> Seq<T>
    decreases s.len(),
{
    if s.len() == 0 {
        seq![x]
    } else if lt(x, s.last()) {
        insert_by(s.drop_last(), x, lt).push(s.last())
    } else {
        s.push(x)
    }
}

/// The items in stable order under `lt`.
pub open spec fn sort_stable<T>(s: Seq<T>, lt: spec_fn(T, T) -> bool) -> Seq<T>
    decreases s.len(),
{
    if s.len() == 0 {
        Seq::empty()
    } else {
        insert_by(sort_stable(s.drop_last(), lt), s.last(), lt)
    }
}

/// Where the insertion point is known, so is the result.
pub proof fn lemma_insert_at<T>(s: Seq<T>, x: T, lt: spec_fn(T, T) -> bool, p: int)
    requires
        0 <= p <= s.len(),
        forall|j: int| p <= j < s.len() ==> lt(x, s[j]),
        p > 0 ==> !lt(x, s[p - 1]),
    ensures
        insert_by(s, x, lt) == s.insert(p, x),
    decreases s.len(),
{
    if s.len() == 0 {
        assert(s.insert(p, x) =~= seq![x]);
    } else if p == s.len() {
        assert(s.insert(p, x) =~= s.push(x));
    } else {
        assert(lt(x, s[s.len() - 1]));
        assert forall|j: int| p <= j < s.drop_last().len() implies lt(x, s.drop_last()[j]) by {
            assert(s.drop_last()[j] == s[j]);
        }
        lemma_insert_at(s.drop_last(), x, lt, p);
        assert(s.drop_last().insert(p, x).push(s.last()) =~= s.insert(p, x));
    }
}

/// Under an order, later items never precede earlier ones.
pub open spec fn is_sorted_by<T>(s: Seq<T>, lt: spec_fn(T, T) -> bool) -> bool {
    forall|i: int, j: int| 0 <= i < j < s.len() ==> !lt(s[j], s[i])
}

/// `lt` is a strict order in which what is not less stays not less.
pub open spec fn is_strict_weak<T>(lt: spec_fn(T, T) -> bool) -> bool {
    &&& forall|a: T| !#[trigger] lt(a, a)
    &&& forall|a: T, b: T, c: T| #[trigger] lt(a, b) && #[trigger] lt(b, c) ==> lt(a, c)
    &&& forall|a: T, b: T, c: T| !#[trigger] lt(b, a) && !#[trigger] lt(c, b) ==> !lt(c, a)
}

pub proof fn lemma_insert_keeps_items<T>(s: Seq<T>, x: T, lt: spec_fn(T, T) -> bool)
    ensures
        insert_by(s, x, lt).to_multiset() == s.to_multiset().insert(x),
        insert_by(s, x, lt).len() == s.len() + 1,
    decreases s.len(),
{
    broadcast use vstd::seq_lib::group_to_multiset_ensures;

    if s.len() == 0 {
        assert(s.push(x) =~= seq![x]);
    } else if lt(x, s.last()) {
        lemma_insert_keeps_items(s.drop_last(), x, lt);
        assert(s.drop_last().push(s.last()) =~= s);
        assert(s.drop_last().to_multiset().insert(x).insert(s.last())
            =~= s.drop_last().to_multiset().insert(s.last()).insert(x));
    }
}

/// Sorting keeps every item, as often as it stood there.
pub proof fn law_sorting_keeps_items<T>(s: Seq<T>, lt: spec_fn(T, T) -> bool)
    ensures
        sort_stable(s, lt).to_multiset() == s.to_multiset(),
        sort_stable(s, lt).len() == s.len(),
    decreases s.len(),
{
    broadcast use vstd::seq_lib::group_to_multiset_ensures;

    if s.len() > 0 {
        law_sorting_keeps_items(s.drop_last(), lt);
        lemma_insert_keeps_items(sort_stable(s.drop_last(), lt), s.last(), lt);
        assert(s.drop_last().push(s.last()) =~= s);
    } else {
        assert(s =~= Seq::<T>::empty());
    }
}

proof fn lemma_insert_keeps_order<T>(s: Seq<T>, x: T, lt: spec_fn(T, T) -> bool)
    requires
        is_strict_weak(lt),
        is_sorted_by(s, lt),
    ensures
        is_sorted_by(insert_by(s, x, lt), lt),
        forall|i: int|
            0 <= i < insert_by(s, x, lt).len() ==> insert_by(s, x, lt)[i] == x || s.contains(
                insert_by(s, x, lt)[i],
            ),
    decreases s.len(),
{
    let r = insert_by(s, x, lt);
    if s.len() == 0 {
    } else if lt(x, s.last()) {
        let front = s.drop_last();
        assert(is_sorted_by(front, lt)) by {
            assert forall|i: int, j: int| 0 <= i < j < front.len() implies !lt(
                front[j],
                front[i],
            ) by {
                assert(front[i] == s[i] && front[j] == s[j]);
            }
        }
        lemma_insert_keeps_order(front, x, lt);
        let f = insert_by(front, x, lt);
        assert forall|i: int| 0 <= i < r.len() implies r[i] == x || s.contains(r[i]) by {
            if i < f.len() {
                assert(r[i] == f[i]);
                if f[i] != x {
                    let k = choose|k: int| 0 <= k < front.len() && front[k] == f[i];
                    assert(s[k] == f[i]);
                }
            } else {
                assert(s[s.len() - 1] == r[i]);
            }
        }
        assert forall|i: int, j: int| 0 <= i < j < r.len() implies !lt(r[j], r[i]) by {
            assert(r[i] == f[i]);
            if j < f.len() {
                assert(r[j] == f[j]);
            } else {
                assert(r[j] == s.last());
                if f[i] == x {
                    if lt(s.last(), x) {
                        assert(lt(x, s.last()) && lt(s.last(), x) ==> lt(x, x));
                    }
                } else {
                    let k = choose|k: int| 0 <= k < front.len() && front[k] == f[i];
                    assert(s[k] == f[i]);
                    assert(!lt(s[s.len() - 1], s[k]));
                }
            }
        }
    } else {
        assert forall|i: int| 0 <= i < r.len() implies r[i] == x || s.contains(r[i]) by {
            if i < s.len() {
                assert(r[i] == s[i]);
            }
        }
        assert forall|i: int, j: int| 0 <= i < j < r.len() implies !lt(r[j], r[i]) by {
            assert(r[i] == s[i]);
            if j < s.len() {
                assert(r[j] == s[j]);
            } else {
                assert(!lt(x, s[s.len() - 1]));
                if i < s.len() - 1 {
                    assert(!lt(s[s.len() - 1], s[i]));
                }
            }
        }
    }
}

/// Sorting puts the items in order.
pub proof fn law_sorting_sorts<T>(s: Seq<T>, lt: spec_fn(T, T) -> bool)
    requires
        is_strict_weak(lt),
    ensures
        is_sorted_by(sort_stable(s, lt), lt),
    decreases s.len(),
{
    if s.len() > 0 {
        law_sorting_sorts(s.drop_last(), lt);
        lemma_insert_keeps_order(sort_stable(s.drop_last(), lt), s.last(), lt);
    }
}

/// What a filter keeps stood there before and satisfies it.
pub proof fn lemma_filtered_are_members<T>(s: Seq<T>, pred: spec_fn(T) -> bool)
    ensures
        forall|i: int|
            0 <= i < s.filter(pred).len() ==> s.contains(#[trigger] s.filter(pred)[i]) && pred(
                s.filter(pred)[i],
            ),
    decreases s.len(),
{
    reveal(Seq::filter);
    if s.len() > 0 {
        lemma_filtered_are_members(s.drop_last(), pred);
        let front = s.drop_last().filter(pred);
        assert forall|i: int| 0 <= i < s.filter(pred).len() implies s.contains(
            #[trigger] s.filter(pred)[i],
        ) && pred(s.filter(pred)[i]) by {
            if i < front.len() {
                assert(s.filter(pred)[i] == front[i]);
                let k = choose|k: int| 0 <= k < s.drop_last().len() && s.drop_last()[k] == front[i];
                assert(s[k] == front[i]);
            } else {
                assert(s[s.len() - 1] == s.filter(pred)[i]);
            }
        }
    }
}

// ---- sorting items by their own order ----

/// An item that knows which items it precedes.
pub trait Ranked: Sized {
    spec fn precedes(a: Self, b: Self) -> bool;

    fn is_before(&self, other: &Self) -> (r: bool)
        ensures
            r == Self::precedes(*self, *other),
    ;
}

pub open spec fn rank_order<T: Ranked>() -> spec_fn(T, T) -> bool {
    |a: T, b: T| T::precedes(a, b)
}

/// Sorts items; those of equal rank keep their order.
pub fn sort_ranked<T: Ranked>(list: Vec<T>) -> (r: Vec<T>)
    ensures
        r@ == sort_stable(list@, rank_order::<T>()),
{
    let ghost all = list@;
    let mut rest = list;
    let mut out: Vec<T> = Vec::new();
    let mut done: Ghost<int> = Ghost(0);
    proof {
        assert(all.take(0) =~= Seq::<T>::empty());
        assert(all.skip(0) =~= all);
    }
    while rest.len() > 0
        invariant
            0 <= done@ <= all.len(),
            rest@ == all.skip(done@),
            out@ == sort_stable(all.take(done@), rank_order::<T>()),
        decreases rest@.len(),
    {
        let x = rest.remove(0);
        let mut p: usize = out.len();
        while p > 0 && x.is_before(&out[p - 1])
            invariant
                p <= out@.len(),
                forall|j: int| p <= j < out@.len() ==> T::precedes(x, #[trigger] out@[j]),
            decreases p,
        {
            p = p - 1;
        }
        proof {
            lemma_insert_at(out@, x, rank_order::<T>(), p as int);
            assert(all.take(done@ + 1).drop_last() =~= all.take(done@));
            assert(all.take(done@ + 1).last() == x);
            assert(rest@ =~= all.skip(done@ + 1));
        }
        out.insert(p, x);
        done = Ghost(done@ + 1);
    }
    proof {
        assert(all.take(all.len() as int) =~= all);
    }
    out
}

/// Sorting commutes with a view that the order respects.
pub proof fn lemma_sort_maps<T, U>(
    s: Seq<T>,
    f: spec_fn(T) -> U,
    lt: spec_fn(T, T) -> bool,
    view_lt: spec_fn(U, U) -> bool,
)
    requires
        forall|a: T, b: T| #[trigger] lt(a, b) == view_lt(f(a), f(b)),
    ensures
        sort_stable(s, lt).map_values(f) == sort_stable(s.map_values(f), view_lt),
    decreases s.len(),
{
    if s.len() == 0 {
        assert(s.map_values(f) =~= Seq::<U>::empty());
        assert(sort_stable(s, lt).map_values(f) =~= Seq::<U>::empty());
    } else {
        lemma_sort_maps(s.drop_last(), f, lt, view_lt);
        lemma_insert_maps(sort_stable(s.drop_last(), lt), s.last(), f, lt, view_lt);
        assert(s.map_values(f).drop_last() =~= s.drop_last().map_values(f));
        assert(s.map_values(f).last() == f(s.last()));
    }
}

proof fn lemma_insert_maps<T, U>(
    s: Seq<T>,
    x: T,
    f: spec_fn(T) -> U,
    lt: spec_fn(T, T) -> bool,
    view_lt: spec_fn(U, U) -> bool,
)
    requires
        forall|a: T, b: T| #[trigger] lt(a, b) == view_lt(f(a), f(b)),
    ensures
        insert_by(s, x, lt).map_values(f) == insert_by(s.map_values(f), f(x), view_lt),
    decreases s.len(),
{
    if s.len() == 0 {
        assert(seq![x].map_values(f) =~= seq![f(x)]);
        assert(s.map_values(f).len() == 0);
    } else {
        assert(s.map_values(f).last() == f(s.last()));
        assert(s.map_values(f).drop_last() =~= s.drop_last().map_values(f));
        if lt(x, s.last()) {
            lemma_insert_maps(s.drop_last(), x, f, lt, view_lt);
            assert(insert_by(s.drop_last(), x, lt).push(s.last()).map_values(f) =~= insert_by(
                s.drop_last(),
                x,
                lt,
            ).map_values(f).push(f(s.last())));
        } else {
            assert(s.push(x).map_values(f) =~= s.map_values(f).push(f(x)));
        }
    }
}

// ---- texts ----

pub open spec fn text_order() -> spec_fn(Seq<char>, Seq<char>) -> bool {
    |a: Seq<char>, b: Seq<char>| text_lt(a, b)
}

/// The texts in lexicographic order.
pub open spec fn sort_texts(s: Seq<Seq<char>>) -> Seq<Seq<char>> {
    sort_stable(s, text_order())
}

/// The texts without those that repeat their left neighbour.
pub open spec fn dedup_texts(s: Seq<Seq<char>>) -> Seq<Seq<char>>
    decreases s.len(),
{
    if s.len() == 0 {
        Seq::empty()
    } else {
        let front = dedup_texts(s.drop_last());
        if s.len() > 1 && s[s.len() - 2] == s.last() {
            front
        } else {
            front.push(s.last())
        }
    }
}

/// Sorts strings lexicographically.
pub fn sort_strings(list: &[String]) -> (r: Vec<String>)
    ensures
        texts(r@) == sort_texts(texts(list@)),
{
    let mut out: Vec<String> = Vec::new();
    let mut i: usize = 0;
    proof {
        assert(texts(list@).take(0) =~= Seq::<Seq<char>>::empty());
        assert(texts(out@) =~= Seq::<Seq<char>>::empty());
    }
    while i < list.len()
        invariant
            i <= list@.len(),
            texts(out@) == sort_texts(texts(list@).take(i as int)),
        decreases list@.len() - i,
    {
        let x = list[i].clone();
        let mut p: usize = out.len();
        while p > 0 && text_less(x.as_str(), out[p - 1].as_str())
            invariant
                p <= out@.len(),
                forall|j: int| p <= j < out@.len() ==> text_lt(x@, out@[j]@),
            decreases p,
        {
            p = p - 1;
        }
        proof {
            let before = texts(out@);
            assert forall|j: int| p <= j < before.len() implies text_order()(x@, before[j]) by {
                assert(before[j] == out@[j]@);
            }
            lemma_insert_at(before, x@, text_order(), p as int);
            assert(texts(out@.insert(p as int, x)) =~= before.insert(p as int, x@));
            assert(texts(list@).take(i + 1).drop_last() =~= texts(list@).take(i as int));
            assert(texts(list@).take(i + 1).last() == x@);
        }
        out.insert(p, x);
        i = i + 1;
    }
    proof {
        assert(texts(list@).take(list@.len() as int) =~= texts(list@));
    }
    out
}

/// Drops strings that repeat their left neighbour.
pub fn dedup_strings(list: &[String]) -> (r: Vec<String>)
    ensures
        texts(r@) == dedup_texts(texts(list@)),
{
    let mut out: Vec<String> = Vec::new();
    let mut i: usize = 0;
    proof {
        assert(texts(list@).take(0) =~= Seq::<Seq<char>>::empty());
        assert(texts(out@) =~= Seq::<Seq<char>>::empty());
    }
    while i < list.len()
        invariant
            i <= list@.len(),
            texts(out@) == dedup_texts(texts(list@).take(i as int)),
        decreases list@.len() - i,
    {
        let ghost next = texts(list@).take(i + 1);
        proof {
            assert(next.drop_last() =~= texts(list@).take(i as int));
            assert(next.last() == list@[i as int]@);
            if i > 0 {
                assert(next[next.len() - 2] == list@[i - 1]@);
            }
        }
        if !(i > 0 && same_text(list[i - 1].as_str(), list[i].as_str())) {
            let x = list[i].clone();
            proof {
                assert(texts(out@.push(x)) =~= texts(out@).push(x@));
            }
            out.push(x);
        }
        i = i + 1;
    }
    proof {
        assert(texts(list@).take(list@.len() as int) =~= texts(list@));
    }
    out
}

pub proof fn lemma_text_order_is_strict_weak()
    ensures
        is_strict_weak(text_order()),
{
    let lt = text_order();
    assert forall|a: Seq<char>| !#[trigger] lt(a, a) by {
        lemma_text_lt_irreflexive(a);
    }
    assert forall|a: Seq<char>, b: Seq<char>, c: Seq<char>| #[trigger]
        lt(a, b) && #[trigger] lt(b, c) implies lt(a, c) by {
        lemma_text_lt_transitive(a, b, c);
    }
    assert forall|a: Seq<char>, b: Seq<char>, c: Seq<char>|
        !#[trigger] lt(b, a) && !#[trigger] lt(c, b) implies !lt(c, a) by {
        if lt(c, a) {
            lemma_text_lt_total(a, b);
            lemma_text_lt_total(b, c);
            if a == b || b == c {
            } else {
                lemma_text_lt_transitive(a, b, c);
                lemma_text_lt_transitive(a, c, a);
                lemma_text_lt_irreflexive(a);
            }
        }
    }
}

/// Each text stands strictly before the next.
pub open spec fn strictly_ordered(s: Seq<Seq<char>>) -> bool {
    forall|i: int, j: int| 0 <= i < j < s.len() ==> text_lt(#[trigger] s[i], #[trigger] s[j])
}

proof fn lemma_dedup_of_sorted(s: Seq<Seq<char>>)
    requires
        is_sorted_by(s, text_order()),
    ensures
        strictly_ordered(dedup_texts(s)),
        s.len() > 0 ==> dedup_texts(s).len() > 0 && dedup_texts(s).last() == s.last(),
    decreases s.len(),
{
    if s.len() > 0 {
        let front = s.drop_last();
        let lt = text_order();
        assert(is_sorted_by(front, lt)) by {
            assert forall|i: int, j: int| 0 <= i < j < front.len() implies !lt(
                front[j],
                front[i],
            ) by {
                assert(front[i] == s[i] && front[j] == s[j]);
            }
        }
        lemma_dedup_of_sorted(front);
        let d = dedup_texts(front);
        let r = dedup_texts(s);
        if s.len() > 1 {
            assert(front.last() == s[s.len() - 2]);
            assert(!lt(s[s.len() - 1], s[s.len() - 2]));
            lemma_text_lt_total(s[s.len() - 2], s.last());
            if s[s.len() - 2] != s.last() {
                assert(text_lt(d.last(), s.last()));
                assert forall|i: int, j: int| 0 <= i < j < r.len() implies text_lt(
                    #[trigger] r[i],
                    #[trigger] r[j],
                ) by {
                    if j == d.len() {
                        assert(r[i] == d[i]);
                        if i < d.len() - 1 {
                            assert(text_lt(d[i], d[d.len() - 1]));
                            lemma_text_lt_transitive(d[i], d.last(), s.last());
                        }
                    } else {
                        assert(r[i] == d[i] && r[j] == d[j]);
                    }
                }
            }
        }
    }
}

/// Sorting and dropping neighbours that repeat leaves each text once.
pub proof fn law_sorted_and_deduplicated_is_distinct(s: Seq<Seq<char>>)
    ensures
        dedup_texts(sort_texts(s)).no_duplicates(),
        strictly_ordered(dedup_texts(sort_texts(s))),
{
    lemma_text_order_is_strict_weak();
    law_sorting_sorts(s, text_order());
    lemma_dedup_of_sorted(sort_texts(s));
    let d = dedup_texts(sort_texts(s));
    assert forall|i: int, j: int| 0 <= i < d.len() && 0 <= j < d.len() && i != j implies d[i]
        != d[j] by {
        if i < j {
            assert(text_lt(d[i], d[j]));
        } else {
            assert(text_lt(d[j], d[i]));
        }
        lemma_text_lt_irreflexive(d[i]);
    }
}

} // verus!
