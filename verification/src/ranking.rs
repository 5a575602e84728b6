//! Ranking by count: a stable sort on a descending integer key, and the top of it.
use vstd::prelude::*;

verus! {

broadcast use vstd::seq_lib::group_filter_ensures;

/// Whether the keys of `s` never rise.
pub open spec fn keys_descend<T>(s: Seq<(T, i64)>) -> bool {
    forall|i: int, j: int| 0 <= i < j < s.len() ==> s[i].1 >= s[j].1
}

/// Whether an item has key `k`.
pub open spec fn key_is<T>(k: i64) -> spec_fn((T, i64)) -> bool {
    |p: (T, i64)| p.1 == k
}

/// The items of `s` whose key is `k`, in their order in `s`.
pub open spec fn with_key<T>(s: Seq<(T, i64)>, k: i64) -> Seq<(T, i64)> {
    s.filter(key_is(k))
}

/// Whether `r` is `s` sorted by descending key, items of equal key keeping their order:
/// what a stable sort on the key, highest first, gives.
pub open spec fn stably_sorted_desc<T>(s: Seq<(T, i64)>, r: Seq<(T, i64)>) -> bool {
    &&& keys_descend(r)
    &&& forall|k: i64| #[trigger] with_key(r, k) == with_key(s, k)
}

/// The first `n` items of `s` stably sorted by descending key, or all of them if there are
/// fewer.
pub open spec fn top_by_key<T>(s: Seq<(T, i64)>, r: Seq<(T, i64)>, n: nat) -> bool {
    exists|all: Seq<(T, i64)>|
        stably_sorted_desc(s, all) && r == all.take(
            if all.len() < n {
                all.len() as int
            } else {
                n as int
            },
        )
}

proof fn lemma_no_key_filter_empty<T>(s: Seq<(T, i64)>, k: i64)
    requires
        forall|i: int| 0 <= i < s.len() ==> s[i].1 < k,
    ensures
        with_key(s, k) == Seq::<(T, i64)>::empty(),
    decreases s.len(),
{
    reveal(Seq::filter);
    if s.len() > 0 {
        lemma_no_key_filter_empty(s.drop_last(), k);
    }
}

proof fn lemma_insert_keeps_groups<T>(r: Seq<(T, i64)>, p: int, x: (T, i64), k: i64)
    requires
        0 <= p <= r.len(),
        forall|i: int| 0 <= i < p ==> r[i].1 >= x.1,
        forall|i: int| p <= i < r.len() ==> r[i].1 < x.1,
    ensures
        with_key(r.insert(p, x), k) == if x.1 == k {
            with_key(r, k).push(x)
        } else {
            with_key(r, k)
        },
{
    let pred = key_is::<T>(k);
    let a = r.take(p);
    let b = r.skip(p);
    assert(r == a + b);
    assert(r.insert(p, x) == a.push(x) + b);
    Seq::filter_distributes_over_add(a, b, pred);
    Seq::filter_distributes_over_add(a.push(x), b, pred);
    a.lemma_filter_push(x, pred);
    if x.1 == k {
        lemma_no_key_filter_empty(b, k);
        assert(with_key(b, k) == Seq::<(T, i64)>::empty());
        assert(with_key(r, k) == with_key(a, k) + with_key(b, k));
        assert(with_key(r, k) == with_key(a, k));
    }
}

/// Sorts `items` by descending key; items of equal key keep their order.
pub fn sort_by_key_desc<T>(items: Vec<(T, i64)>) -> (r: Vec<(T, i64)>)
    ensures
        stably_sorted_desc(items@, r@),
{
    let ghost all = items@;
    let mut rest = items;
    let mut r: Vec<(T, i64)> = Vec::new();
    let ghost mut done: int = 0;
    while rest.len() > 0
        invariant
            0 <= done <= all.len(),
            rest@ == all.skip(done),
            keys_descend(r@),
            forall|k: i64| #[trigger] with_key(r@, k) == with_key(all.take(done), k),
        decreases rest.len(),
    {
        let x = rest.remove(0);
        let mut p: usize = 0;
        while p < r.len() && r[p].1 >= x.1
            invariant
                p <= r@.len(),
                forall|i: int| 0 <= i < p ==> r@[i].1 >= x.1,
            decreases r.len() - p,
        {
            p += 1;
        }
        proof {
            assert forall|i: int| p <= i < r@.len() implies r@[i].1 < x.1 by {
                if p < r@.len() {
                    assert(r@[p as int].1 < x.1);
                    assert(r@[p as int].1 >= r@[i].1);
                }
            }
            assert(all.take(done + 1) == all.take(done).push(x));
            assert forall|k: i64| #[trigger]
                with_key(r@.insert(p as int, x), k) == with_key(all.take(done + 1), k) by {
                lemma_insert_keeps_groups(r@, p as int, x, k);
                all.take(done).lemma_filter_push(x, key_is::<T>(k));
            }
        }
        r.insert(p, x);
        proof {
            done = done + 1;
            assert(rest@ == all.skip(done));
        }
    }
    assert(all.take(done) == all);
    r
}

/// The `n` items of highest key, highest first; items of equal key keep their order.
pub fn top_by_key_desc<T>(items: Vec<(T, i64)>, n: usize) -> (r: Vec<(T, i64)>)
    ensures
        top_by_key(items@, r@, n as nat),
{
    let mut sorted = sort_by_key_desc(items);
    let ghost all = sorted@;
    sorted.truncate(n);
    assert(stably_sorted_desc(items@, all) && sorted@ == all.take(
        if all.len() < n {
            all.len() as int
        } else {
            n as int
        },
    ));
    sorted
}


/// `s` with `f` applied to each item, the keys kept.
pub open spec fn map_items<T, U>(s: Seq<(T, i64)>, f: spec_fn(T) -> U) -> Seq<(U, i64)> {
    s.map_values(|p: (T, i64)| (f(p.0), p.1))
}

proof fn lemma_with_key_map<T, U>(s: Seq<(T, i64)>, f: spec_fn(T) -> U, k: i64)
    ensures
        with_key(map_items(s, f), k) == map_items(with_key(s, k), f),
    decreases s.len(),
{
    reveal(Seq::filter);
    if s.len() > 0 {
        lemma_with_key_map(s.drop_last(), f, k);
        assert(map_items(s, f).drop_last() == map_items(s.drop_last(), f));
        assert(map_items(with_key(s.drop_last(), k), f).push((f(s.last().0), s.last().1))
            == map_items(with_key(s.drop_last(), k).push(s.last()), f));
    }
}

/// Applying `f` to the items before or after a stable sort by key gives the same order.
pub proof fn lemma_sorted_map<T, U>(s: Seq<(T, i64)>, r: Seq<(T, i64)>, f: spec_fn(T) -> U)
    requires
        stably_sorted_desc(s, r),
    ensures
        stably_sorted_desc(map_items(s, f), map_items(r, f)),
{
    assert forall|k: i64| #[trigger] with_key(map_items(r, f), k) == with_key(map_items(s, f), k) by {
        lemma_with_key_map(r, f, k);
        lemma_with_key_map(s, f, k);
    }
}

/// Applying `f` to the items before or after taking the top `n` by key gives the same items.
pub proof fn lemma_top_map<T, U>(s: Seq<(T, i64)>, r: Seq<(T, i64)>, n: nat, f: spec_fn(T) -> U)
    requires
        top_by_key(s, r, n),
    ensures
        top_by_key(map_items(s, f), map_items(r, f), n),
{
    let all = choose|all: Seq<(T, i64)>|
        stably_sorted_desc(s, all) && r == all.take(
            if all.len() < n {
                all.len() as int
            } else {
                n as int
            },
        );
    lemma_sorted_map(s, all, f);
    let m = if all.len() < n {
        all.len() as int
    } else {
        n as int
    };
    assert(map_items(r, f) == map_items(all, f).take(m));
}


/// Every item of a top list is an item of the list it was taken from.
pub proof fn lemma_top_members<T>(s: Seq<(T, i64)>, r: Seq<(T, i64)>, n: nat, i: int)
    requires
        top_by_key(s, r, n),
        0 <= i < r.len(),
    ensures
        s.contains(r[i]),
{
    let all = choose|all: Seq<(T, i64)>|
        stably_sorted_desc(s, all) && r == all.take(
            if all.len() < n {
                all.len() as int
            } else {
                n as int
            },
        );
    let x = r[i];
    assert(all[i] == x);
    all.lemma_filter_contains(key_is::<T>(x.1), i);
    assert(with_key(all, x.1) == with_key(s, x.1));
    s.lemma_filter_contains_rev(key_is::<T>(x.1), x);
}

} // verus!
