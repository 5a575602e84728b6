//! Removing duplicate records from the yearly snapshot files.
use vstd::prelude::*;

verus! {

/// The field that identifies records of a snapshot file: `number` when its first record
/// has a `number` and no `id` (discussions), else `id` (issues and pull requests).
pub fn dedup_key_field(first_has_number: bool, first_has_id: bool) -> (r: &'static str)
    ensures
        first_has_number && !first_has_id ==> r@ == "number"@,
        !(first_has_number && !first_has_id) ==> r@ == "id"@,
{
    if first_has_number && !first_has_id {
        "number"
    } else {
        "id"
    }
}

/// The records of `s` by key: a later record replaces an earlier one with its key.
pub open spec fn keyed_map<T>(s: Seq<(String, T)>) -> Map<Seq<char>, T>
    decreases s.len(),
{
    if s.len() == 0 {
        Map::empty()
    } else {
        keyed_map(s.drop_last()).insert(s.last().0@, s.last().1)
    }
}

/// The position of the first record of `s` with key `k`.
pub open spec fn first_position<T>(s: Seq<(String, T)>, k: Seq<char>) -> int
    decreases s.len(),
{
    if s.len() == 0 {
        0
    } else if s[0].0@ == k {
        0
    } else {
        1 + first_position(s.drop_first(), k)
    }
}

proof fn lemma_first_position_prefix<T>(s: Seq<(String, T)>, n: int, k: Seq<char>)
    requires
        0 <= n <= s.len(),
        key_seen(s, n, k),
    ensures
        first_position(s.subrange(0, n), k) == first_position(s, k),
        0 <= first_position(s, k) < n,
        s[first_position(s, k)].0@ == k,
    decreases s.len(),
{
    if s[0].0@ != k {
        let i = choose|i: int| 0 <= i < n && #[trigger] s[i].0@ == k;
        assert(s.drop_first()[i - 1].0@ == k);
        lemma_first_position_prefix(s.drop_first(), n - 1, k);
        assert(s.subrange(0, n).drop_first() == s.drop_first().subrange(0, n - 1));
        let f = first_position(s.drop_first(), k);
        assert(s[f + 1] == s.drop_first()[f]);
    }
}

proof fn lemma_first_position_new<T>(s: Seq<(String, T)>, n: int, k: Seq<char>)
    requires
        0 <= n < s.len(),
        s[n].0@ == k,
        forall|i: int| 0 <= i < n ==> s[i].0@ != k,
    ensures
        first_position(s, k) == n,
    decreases n,
{
    if n > 0 {
        assert(s[0].0@ != k);
        lemma_first_position_new(s.drop_first(), n - 1, k);
    }
}

/// The records of `items` with each key once: at the place where the key first occurs,
/// holding the last record with that key.
pub fn dedup_last_wins<T>(items: Vec<(String, T)>) -> (r: Vec<(String, T)>)
    ensures
        forall|i: int, j: int| 0 <= i < j < r@.len() ==> r@[i].0@ != r@[j].0@,
        forall|i: int| 0 <= i < r@.len() ==> keyed_map(items@).contains_key(#[trigger] r@[i].0@)
            && keyed_map(items@)[r@[i].0@] == r@[i].1,
        forall|k: Seq<char>| #[trigger] keyed_map(items@).contains_key(k) ==> exists|i: int|
            0 <= i < r@.len() && #[trigger] r@[i].0@ == k,
        forall|i: int, j: int|
            0 <= i < j < r@.len() ==> first_position(items@, r@[i].0@) < first_position(
                items@,
                r@[j].0@,
            ),
{
    let ghost all = items@;
    let mut queue: Vec<(String, T)> = Vec::new();
    let mut src = items;
    while src.len() > 0
        invariant
            queue@ + src@.reverse() == all.reverse(),
        decreases src@.len(),
    {
        let ghost before = src@;
        let x = src.pop().unwrap();
        queue.push(x);
        proof {
            assert(before == src@.push(x));
            assert(before.reverse() == seq![x] + src@.reverse());
        }
    }
    proof {
        assert(src@.reverse() =~= Seq::<(String, T)>::empty());
        assert(queue@ =~= all.reverse());
    }
    let ghost q = queue@;
    let mut r: Vec<(String, T)> = Vec::new();
    while queue.len() > 0
        invariant
            q == all.reverse(),
            queue@.len() <= q.len(),
            queue@ == q.subrange(0, queue@.len() as int),
            forall|i: int, j: int| 0 <= i < j < r@.len() ==> r@[i].0@ != r@[j].0@,
            forall|i: int|
                0 <= i < r@.len() ==> keyed_map(all.subrange(0, q.len() - queue@.len()))
                    .contains_key(#[trigger] r@[i].0@) && keyed_map(
                    all.subrange(0, q.len() - queue@.len()),
                )[r@[i].0@] == r@[i].1,
            forall|k: Seq<char>|
                #[trigger] keyed_map(all.subrange(0, q.len() - queue@.len())).contains_key(k)
                    ==> exists|i: int| 0 <= i < r@.len() && #[trigger] r@[i].0@ == k,
            forall|i: int| 0 <= i < r@.len() ==> key_seen(all, q.len() - queue@.len(), #[trigger] r@[i].0@),
            forall|i: int, j: int|
                0 <= i < j < r@.len() ==> first_position(all, r@[i].0@) < first_position(
                    all,
                    r@[j].0@,
                ),
        decreases queue@.len(),
    {
        let ghost done = (q.len() - queue@.len()) as int;
        let x = queue.pop().unwrap();
        proof {
            assert(x == q[queue@.len() as int]);
            assert(x == all[done]);
            assert(all.subrange(0, done + 1).drop_last() == all.subrange(0, done));
        }
        let ghost m = keyed_map(all.subrange(0, done));
        let ghost m2 = keyed_map(all.subrange(0, done + 1));
        assert(m2 == m.insert(x.0@, x.1));
        let mut p: usize = 0;
        while p < r.len() && r[p].0 != x.0
            invariant
                p <= r@.len(),
                forall|k: int| 0 <= k < p ==> #[trigger] r@[k].0@ != x.0@,
            decreases r.len() - p,
        {
            p += 1;
        }
        let ghost old_r = r@;
        if p < r.len() {
            r.set(p, x);
            proof {
                assert forall|i: int| 0 <= i < r@.len() implies m2.contains_key(
                    #[trigger] r@[i].0@,
                ) && m2[r@[i].0@] == r@[i].1 by {
                    if i != p {
                        assert(old_r[i].0@ != old_r[p as int].0@);
                    }
                }
                assert forall|k: Seq<char>| #[trigger] m2.contains_key(k) implies exists|i: int|
                    0 <= i < r@.len() && #[trigger] r@[i].0@ == k by {
                    if k != x.0@ {
                        let i = choose|i: int| 0 <= i < old_r.len() && #[trigger] old_r[i].0@ == k;
                        assert(r@[i].0@ == k);
                    } else {
                        assert(r@[p as int].0@ == k);
                    }
                }
                assert forall|i: int| 0 <= i < r@.len() implies key_seen(all, done + 1, #[trigger] r@[i].0@) by {
                    assert(key_seen(all, done, old_r[i].0@));
                    let pp = choose|pp: int| 0 <= pp < done && #[trigger] all[pp].0@ == old_r[i].0@;
                    assert(r@[i].0@ == old_r[i].0@);
                }
            }
        } else {
            r.push(x);
            proof {
                assert forall|i: int| 0 <= i < done implies all[i].0@ != x.0@ by {
                    if all[i].0@ == x.0@ {
                        assert(m.contains_key(x.0@)) by {
                            lemma_keyed_map_has(all.subrange(0, done), i);
                        }
                        let j = choose|j: int| 0 <= j < old_r.len() && #[trigger] old_r[j].0@ == x.0@;
                    }
                }
                lemma_first_position_new(all, done, x.0@);
                assert forall|i: int, j: int|
                    0 <= i < j < r@.len() implies first_position(all, r@[i].0@) < first_position(
                    all,
                    r@[j].0@,
                ) by {
                    if j == old_r.len() {
                        assert(key_seen(all, done, old_r[i].0@));
                        lemma_first_position_prefix(all, done, old_r[i].0@);
                    }
                }
                assert forall|i: int| 0 <= i < r@.len() implies m2.contains_key(
                    #[trigger] r@[i].0@,
                ) && m2[r@[i].0@] == r@[i].1 by {
                    if i < old_r.len() {
                        assert(r@[i] == old_r[i]);
                    }
                }
                assert forall|k: Seq<char>| #[trigger] m2.contains_key(k) implies exists|i: int|
                    0 <= i < r@.len() && #[trigger] r@[i].0@ == k by {
                    if k != x.0@ {
                        let i = choose|i: int| 0 <= i < old_r.len() && #[trigger] old_r[i].0@ == k;
                        assert(r@[i].0@ == k);
                    } else {
                        assert(r@[old_r.len() as int].0@ == k);
                    }
                }
                assert forall|i: int| 0 <= i < r@.len() implies key_seen(all, done + 1, #[trigger] r@[i].0@) by {
                    if i < old_r.len() {
                        assert(key_seen(all, done, old_r[i].0@));
                        let pp = choose|pp: int| 0 <= pp < done && #[trigger] all[pp].0@ == old_r[i].0@;
                        assert(r@[i].0@ == old_r[i].0@);
                    } else {
                        assert(all[done].0@ == r@[i].0@);
                    }
                }
            }
        }
        proof {
            assert(queue@ =~= q.subrange(0, queue@.len() as int));
        }
    }
    proof {
        assert(all.subrange(0, all.len() as int) == all);
    }
    r
}

/// By key, the records keep the last record with that key: a key has a record exactly
/// when some record has it, and then its record is the last one with it.
pub proof fn lemma_keyed_map_last_wins<T>(s: Seq<(String, T)>, k: Seq<char>)
    ensures
        keyed_map(s).contains_key(k) <==> exists|i: int| 0 <= i < s.len() && #[trigger] s[i].0@ == k,
        keyed_map(s).contains_key(k) ==> exists|i: int|
            0 <= i < s.len() && #[trigger] s[i].0@ == k && keyed_map(s)[k] == s[i].1 && forall|j: int|
                i < j < s.len() ==> #[trigger] s[j].0@ != k,
    decreases s.len(),
{
    if s.len() > 0 {
        let init = s.drop_last();
        lemma_keyed_map_last_wins(init, k);
        let n = s.len() - 1;
        assert forall|i: int| 0 <= i < init.len() implies #[trigger] s[i] == init[i] by {}
        if s[n].0@ == k {
            assert(keyed_map(s)[k] == s[n].1);
        } else {
            if keyed_map(init).contains_key(k) {
                let i = choose|i: int|
                    0 <= i < init.len() && #[trigger] init[i].0@ == k && keyed_map(init)[k] == init[i].1
                        && forall|j: int| i < j < init.len() ==> #[trigger] init[j].0@ != k;
                assert(s[i] == init[i]);
                assert forall|j: int| i < j < s.len() implies #[trigger] s[j].0@ != k by {
                    if j < init.len() {
                        assert(s[j] == init[j]);
                    }
                }
            }
            if exists|i: int| 0 <= i < s.len() && #[trigger] s[i].0@ == k {
                let i = choose|i: int| 0 <= i < s.len() && #[trigger] s[i].0@ == k;
                assert(init[i] == s[i]);
            }
        }
    }
}

/// Whether one of the first `n` records of `s` has key `k`.
pub open spec fn key_seen<T>(s: Seq<(String, T)>, n: int, k: Seq<char>) -> bool {
    exists|p: int| 0 <= p < n && #[trigger] s[p].0@ == k
}

proof fn lemma_keyed_map_has<T>(s: Seq<(String, T)>, i: int)
    requires
        0 <= i < s.len(),
    ensures
        keyed_map(s).contains_key(s[i].0@),
    decreases s.len(),
{
    if i < s.len() - 1 {
        lemma_keyed_map_has(s.drop_last(), i);
    }
}

} // verus!
