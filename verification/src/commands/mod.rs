//! The logic of the command-line commands, one module per command, and the merging of
//! fetched records into the stored snapshot.
pub mod build_db;
pub mod close_old_prs;
pub mod compact;
pub mod delete_stale_branches;
pub mod fetch_automated_review_stats;
pub mod fetch_discussions;
pub mod fetch_issues;
pub mod fetch_labels;
pub mod generate_charts;
pub mod generate_summaries;
pub mod metric_history;
pub mod purge;
pub mod push_metrics;

use crate::json::{json_eq, json_equal, Json};
use std::collections::HashMap;
use vstd::prelude::*;

verus! {

broadcast use vstd::std_specs::hash::group_hash_axioms;

/// Stores `fresh` as the record `number`, unless a record equal to it (as JSON) is stored
/// there already, which is then kept as it is (with its member order, so that a rewrite
/// of the file shows no change). No other record is touched.
pub fn upsert_json_record(records: &mut HashMap<u64, Json>, number: u64, fresh: Json)
    ensures
        old(records)@.contains_key(number) && json_eq(old(records)@[number], fresh)
            ==> final(records)@ == old(records)@,
        !(old(records)@.contains_key(number) && json_eq(old(records)@[number], fresh))
            ==> final(records)@ == old(records)@.insert(number, fresh),
{
    let same = match records.get(&number) {
        Some(existing) => json_equal(existing, &fresh),
        None => false,
    };
    if !same {
        records.insert(number, fresh);
    }
}

/// The records of `s` by number: a later record replaces an earlier one with its number.
pub open spec fn record_map<T>(s: Seq<(u64, T)>) -> Map<u64, T>
    decreases s.len(),
{
    if s.len() == 0 {
        Map::empty()
    } else {
        record_map(s.drop_last()).insert(s.last().0, s.last().1)
    }
}

/// Whether the numbers of `s` strictly increase.
pub open spec fn numbers_increase<T>(s: Seq<(u64, T)>) -> bool {
    forall|i: int, j: int| 0 <= i < j < s.len() ==> s[i].0 < s[j].0
}

/// Whether `s`, in ascending order of number, holds exactly the records of `m`.
pub open spec fn lists_map<T>(s: Seq<(u64, T)>, m: Map<u64, T>) -> bool {
    &&& numbers_increase(s)
    &&& forall|i: int| 0 <= i < s.len() ==> m.contains_key(#[trigger] s[i].0) && m[s[i].0] == s[i].1
    &&& forall|n: u64| m.contains_key(n) ==> exists|i: int| 0 <= i < s.len() && #[trigger] s[i].0 == n
}

/// Stored and fresh records merged: each number once, the fresh record where there is one,
/// else the last stored one, in ascending order of number.
pub fn merge_records<T>(existing: Vec<(u64, T)>, fresh: Vec<(u64, T)>) -> (r: Vec<(u64, T)>)
    ensures
        lists_map(r@, record_map(existing@ + fresh@)),
{
    let ghost all = existing@ + fresh@;
    let mut r: Vec<(u64, T)> = Vec::new();
    let mut src = existing;
    let mut more = fresh;
    // Take the records in order: first the stored ones, then the fresh ones.
    let mut queue: Vec<(u64, T)> = Vec::new();
    while more.len() > 0
        invariant
            queue@ + more@.reverse() == fresh@.reverse(),
        decreases more@.len(),
    {
        let ghost before = more@;
        let x = more.pop().unwrap();
        queue.push(x);
        proof {
            assert(before == more@.push(x));
            assert(before.reverse() == seq![x] + more@.reverse());
        }
    }
    while src.len() > 0
        invariant
            queue@ + src@.reverse() == (existing@ + fresh@).reverse(),
        decreases src@.len(),
    {
        let ghost before = src@;
        let x = src.pop().unwrap();
        queue.push(x);
        proof {
            assert(before == src@.push(x));
            assert(before.reverse() == seq![x] + src@.reverse());
        }
    }
    proof {
        assert(more@.reverse() =~= Seq::<(u64, T)>::empty());
        assert(src@.reverse() =~= Seq::<(u64, T)>::empty());
        assert(queue@ =~= all.reverse());
    }
    let ghost q = queue@;
    while queue.len() > 0
        invariant
            q == all.reverse(),
            queue@.len() <= q.len(),
            queue@ == q.subrange(0, queue@.len() as int),
            lists_map(r@, record_map(all.subrange(0, q.len() - queue@.len()))),
        decreases queue@.len(),
    {
        let ghost done = (q.len() - queue@.len()) as int;
        let x = queue.pop().unwrap();
        proof {
            assert(x == q[queue@.len() as int]);
            assert(x == all[done]);
            assert(all.subrange(0, done + 1).drop_last() == all.subrange(0, done));
        }
        let ghost m = record_map(all.subrange(0, done));
        let ghost m2 = record_map(all.subrange(0, done + 1));
        assert(m2 == m.insert(x.0, x.1));
        let mut p: usize = 0;
        while p < r.len() && r[p].0 < x.0
            invariant
                p <= r@.len(),
                forall|k: int| 0 <= k < p ==> #[trigger] r@[k].0 < x.0,
            decreases r.len() - p,
        {
            p += 1;
        }
        let ghost old_r = r@;
        if p < r.len() && r[p].0 == x.0 {
            r.set(p, x);
            proof {
                assert forall|n: u64| m2.contains_key(n) implies exists|i: int|
                    0 <= i < r@.len() && #[trigger] r@[i].0 == n by {
                    if n != x.0 {
                        let i = choose|i: int| 0 <= i < old_r.len() && #[trigger] old_r[i].0 == n;
                        assert(r@[i].0 == n);
                    } else {
                        assert(r@[p as int].0 == n);
                    }
                }
                assert forall|i: int| 0 <= i < r@.len() implies m2.contains_key(
                    #[trigger] r@[i].0,
                ) && m2[r@[i].0] == r@[i].1 by {
                    if i != p {
                        assert(old_r[i].0 != x.0);
                    }
                }
            }
        } else {
            r.insert(p, x);
            proof {
                assert forall|k: int| p < k < old_r.len() implies old_r[k].0 > x.0 by {
                    assert(old_r[p as int].0 < old_r[k].0);
                }
                assert forall|n: u64| m2.contains_key(n) implies exists|i: int|
                    0 <= i < r@.len() && #[trigger] r@[i].0 == n by {
                    if n != x.0 {
                        let i = choose|i: int| 0 <= i < old_r.len() && #[trigger] old_r[i].0 == n;
                        if i < p {
                            assert(r@[i].0 == n);
                        } else {
                            assert(r@[i + 1].0 == n);
                        }
                    } else {
                        assert(r@[p as int].0 == n);
                    }
                }
                assert forall|i: int| 0 <= i < r@.len() implies m2.contains_key(
                    #[trigger] r@[i].0,
                ) && m2[r@[i].0] == r@[i].1 by {
                    if i < p {
                        assert(r@[i] == old_r[i]);
                    } else if i > p {
                        assert(r@[i] == old_r[i - 1]);
                    }
                }
                assert forall|a: int, b: int| 0 <= a < b < r@.len() implies r@[a].0 < r@[b].0 by {
                    if b < p {
                        assert(r@[a] == old_r[a] && r@[b] == old_r[b]);
                    } else if a < p && b == p {
                    } else if a < p {
                        assert(r@[a] == old_r[a] && r@[b] == old_r[b - 1]);
                    } else if a == p {
                        assert(r@[b] == old_r[b - 1]);
                    } else {
                        assert(r@[a] == old_r[a - 1] && r@[b] == old_r[b - 1]);
                    }
                }
            }
        }
        proof {
            assert(queue@ =~= q.subrange(0, queue@.len() as int));
        }
    }
    proof {
        assert(all.subrange(0, all.len() as int) == all);
    }
    r
}

/// A fresh record replaces the stored record with its number, and every other stored
/// record is kept: merging is the stored records overridden by the fresh ones.
pub proof fn lemma_merge_keeps_stored_and_prefers_fresh<T>(existing: Seq<(u64, T)>, fresh: Seq<(u64, T)>)
    ensures
        record_map(existing + fresh) == record_map(existing).union_prefer_right(record_map(fresh)),
    decreases fresh.len(),
{
    if fresh.len() == 0 {
        assert(existing + fresh == existing);
        assert(record_map(existing).union_prefer_right(record_map(fresh)) =~= record_map(existing));
    } else {
        lemma_merge_keeps_stored_and_prefers_fresh(existing, fresh.drop_last());
        assert((existing + fresh).drop_last() == existing + fresh.drop_last());
        assert((existing + fresh).last() == fresh.last());
        assert(record_map(existing + fresh) =~= record_map(existing).union_prefer_right(
            record_map(fresh),
        ));
    }
}

} // verus!
