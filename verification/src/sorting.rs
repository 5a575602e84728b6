//! Sorting and grouping lists of strings, with what they compute stated over their texts.
use crate::text::{
    chars_of, less_chars, lemma_seq_leq_total_ordering, lemma_seq_less_irreflexive,
    lemma_seq_less_total, lemma_seq_less_transitive, seq_leq, seq_less,
};
use vstd::prelude::*;
use vstd::relations::sorted_by;

verus! {

broadcast use vstd::seq_lib::group_to_multiset_ensures;

/// The text of a string, as a function.
pub open spec fn text_of() -> spec_fn(String) -> Seq<char> {
    |s: String| s@
}

/// The texts of a list of strings.
pub open spec fn texts(v: Seq<String>) -> Seq<Seq<char>> {
    v.map_values(|s: String| s@)
}

/// Whether a list of texts is in ascending order.
pub open spec fn texts_sorted(s: Seq<Seq<char>>) -> bool {
    sorted_by(s, |a: Seq<char>, b: Seq<char>| seq_leq(a, b))
}

proof fn lemma_sorted_at(s: Seq<Seq<char>>, a: int, b: int)
    requires
        texts_sorted(s),
        0 <= a < b < s.len(),
    ensures
        seq_leq(s[a], s[b]),
{
    let leq = |x: Seq<char>, y: Seq<char>| seq_leq(x, y);
    assert(leq(s[a], s[b]));
}

proof fn lemma_sorted_from(s: Seq<Seq<char>>)
    requires
        forall|a: int, b: int| 0 <= a < b < s.len() ==> #[trigger] seq_leq(s[a], s[b]),
    ensures
        texts_sorted(s),
{
    let leq = |x: Seq<char>, y: Seq<char>| seq_leq(x, y);
    assert forall|a: int, b: int| 0 <= a < b < s.len() implies #[trigger] leq(s[a], s[b]) by {
        assert(seq_leq(s[a], s[b]));
    }
}

/// `a < b` for strings, as `String`'s `Ord` decides it.
pub fn string_less(a: &String, b: &String) -> (r: bool)
    ensures
        r == seq_less(a@, b@),
{
    let x = chars_of(a.as_str());
    let y = chars_of(b.as_str());
    less_chars(&x, &y)
}

/// The strings of `v` in ascending order: what `Vec::sort` leaves.
pub fn sort_strings(v: Vec<String>) -> (r: Vec<String>)
    ensures
        texts_sorted(texts(r@)),
        texts(r@).to_multiset() == texts(v@).to_multiset(),
        r@.len() == v@.len(),
{
    let mut r: Vec<String> = Vec::new();
    let mut i: usize = 0;
    let n = v.len();
    while i < n
        invariant
            n == v@.len(),
            i <= n,
            r@.len() == i,
            texts_sorted(texts(r@)),
            texts(r@).to_multiset() == texts(v@.subrange(0, i as int)).to_multiset(),
        decreases n - i,
    {
        let x = v[i].clone();
        let mut p: usize = 0;
        while p < r.len() && !string_less(&x, &r[p])
            invariant
                p <= r@.len(),
                forall|k: int| 0 <= k < p ==> !seq_less(x@, #[trigger] r@[k]@),
            decreases r.len() - p,
        {
            p += 1;
        }
        let ghost old_r = r@;
        r.insert(p, x);
        proof {
            let t = texts(r@);
            let ot = texts(old_r);
            assert(t == ot.insert(p as int, x@));
            assert forall|a: int, b: int| 0 <= a < b < t.len() implies #[trigger] seq_leq(
                t[a],
                t[b],
            ) by {
                if a < p && b < p {
                    lemma_sorted_at(ot, a, b);
                } else if a < p && b == p {
                    assert(!seq_less(x@, old_r[a]@));
                } else if a < p && b > p {
                    lemma_sorted_at(ot, a, b - 1);
                } else if a == p {
                    // x comes before old_r[p] and old_r[p] before the rest
                    assert(seq_less(x@, old_r[p as int]@));
                    if b - 1 > p {
                        lemma_sorted_at(ot, p as int, b - 1);
                    }
                    if seq_less(t[b], x@) {
                        if b - 1 == p {
                            lemma_seq_less_transitive(t[b], x@, t[b]);
                            lemma_seq_less_irreflexive(t[b]);
                        } else {
                            lemma_seq_less_total(ot[p as int], ot[b - 1]);
                            if seq_less(ot[p as int], ot[b - 1]) {
                                lemma_seq_less_transitive(x@, ot[p as int], ot[b - 1]);
                                lemma_seq_less_transitive(x@, t[b], x@);
                            } else {
                                lemma_seq_less_transitive(t[b], x@, ot[p as int]);
                            }
                            lemma_seq_less_irreflexive(x@);
                        }
                    }
                } else {
                    lemma_sorted_at(ot, a - 1, b - 1);
                }
            }
            lemma_sorted_from(t);
            assert(v@.subrange(0, i + 1) == v@.subrange(0, i as int).push(v@[i as int]));
            assert(texts(v@.subrange(0, i + 1)) == texts(v@.subrange(0, i as int)).push(x@));
        }
        i += 1;
    }
    assert(v@.subrange(0, n as int) == v@);
    r
}

/// Whether two lists of strings hold the same texts in the same order.
pub fn strings_equal(a: &Vec<String>, b: &Vec<String>) -> (r: bool)
    ensures
        r == (texts(a@) == texts(b@)),
{
    if a.len() != b.len() {
        assert(texts(a@).len() != texts(b@).len());
        return false;
    }
    let mut i: usize = 0;
    while i < a.len()
        invariant
            a@.len() == b@.len(),
            i <= a@.len(),
            forall|k: int| 0 <= k < i ==> a@[k]@ == b@[k]@,
        decreases a.len() - i,
    {
        if a[i] != b[i] {
            assert(texts(a@)[i as int] != texts(b@)[i as int]);
            return false;
        }
        i += 1;
    }
    assert(texts(a@) == texts(b@));
    true
}

/// Lexicographic order on lists of texts, each compared by `seq_less`: the order of `<` on
/// `Vec<String>`.
pub open spec fn texts_less(a: Seq<Seq<char>>, b: Seq<Seq<char>>) -> bool
    decreases a.len(),
{
    if a.len() == 0 {
        b.len() > 0
    } else if b.len() == 0 {
        false
    } else if a[0] != b[0] {
        seq_less(a[0], b[0])
    } else {
        texts_less(a.drop_first(), b.drop_first())
    }
}

pub proof fn lemma_texts_less_irreflexive(a: Seq<Seq<char>>)
    ensures
        !texts_less(a, a),
    decreases a.len(),
{
    if a.len() > 0 {
        lemma_texts_less_irreflexive(a.drop_first());
    }
}

pub proof fn lemma_texts_less_transitive(a: Seq<Seq<char>>, b: Seq<Seq<char>>, c: Seq<Seq<char>>)
    requires
        texts_less(a, b),
        texts_less(b, c),
    ensures
        texts_less(a, c),
    decreases a.len(),
{
    if a.len() > 0 && b.len() > 0 && c.len() > 0 {
        if a[0] == b[0] && b[0] == c[0] {
            lemma_texts_less_transitive(a.drop_first(), b.drop_first(), c.drop_first());
        } else if a[0] != b[0] && b[0] != c[0] {
            lemma_seq_less_transitive(a[0], b[0], c[0]);
            if a[0] == c[0] {
                lemma_seq_less_transitive(a[0], b[0], a[0]);
                lemma_seq_less_irreflexive(a[0]);
            }
        }
    }
}

/// How many of `rows` equal `t`.
pub open spec fn count_in(rows: Seq<Seq<Seq<char>>>, t: Seq<Seq<char>>) -> nat
    decreases rows.len(),
{
    if rows.len() == 0 {
        0
    } else {
        count_in(rows.drop_last(), t) + if rows.last() == t {
            1nat
        } else {
            0nat
        }
    }
}

/// The texts of each of a list of string lists.
pub open spec fn rows_texts(rows: Seq<Vec<String>>) -> Seq<Seq<Seq<char>>> {
    rows.map_values(|v: Vec<String>| texts(v@))
}

/// A list of strings and how many times it occurred.
pub struct TagCount {
    pub tags: Vec<String>,
    pub count: i64,
}

proof fn lemma_count_in_zero(rows: Seq<Seq<Seq<char>>>, t: Seq<Seq<char>>)
    requires
        forall|k: int| 0 <= k < rows.len() ==> rows[k] != t,
    ensures
        count_in(rows, t) == 0,
    decreases rows.len(),
{
    if rows.len() > 0 {
        lemma_count_in_zero(rows.drop_last(), t);
    }
}

proof fn lemma_count_in_bound(rows: Seq<Seq<Seq<char>>>, t: Seq<Seq<char>>)
    ensures
        count_in(rows, t) <= rows.len(),
    decreases rows.len(),
{
    if rows.len() > 0 {
        lemma_count_in_bound(rows.drop_last(), t);
    }
}

/// Whether some entry of `out` holds the texts `t`.
pub open spec fn covers(out: Seq<TagCount>, t: Seq<Seq<char>>) -> bool {
    exists|i: int| 0 <= i < out.len() && #[trigger] texts(out[i].tags@) == t
}

/// The distinct lists among `rows`, each with the number of rows that equal it, in the
/// order of their first occurrence.
pub fn group_counts(rows: &Vec<Vec<String>>) -> (out: Vec<TagCount>)
    requires
        rows@.len() <= i64::MAX,
    ensures
        forall|i: int|
            0 <= i < out@.len() ==> #[trigger] out@[i].count == count_in(
                rows_texts(rows@),
                texts(out@[i].tags@),
            ) && out@[i].count > 0,
        forall|i: int, j: int|
            0 <= i < j < out@.len() ==> texts(out@[i].tags@) != texts(out@[j].tags@),
        forall|k: int| 0 <= k < rows@.len() ==> covers(out@, #[trigger] texts(rows@[k]@)),
{
    let mut out: Vec<TagCount> = Vec::new();
    let mut k: usize = 0;
    while k < rows.len()
        invariant
            k <= rows@.len() <= i64::MAX,
            forall|i: int|
                0 <= i < out@.len() ==> #[trigger] out@[i].count == count_in(
                    rows_texts(rows@.subrange(0, k as int)),
                    texts(out@[i].tags@),
                ) && out@[i].count > 0,
            forall|i: int, j: int|
                0 <= i < j < out@.len() ==> texts(out@[i].tags@) != texts(out@[j].tags@),
            forall|m: int| 0 <= m < k ==> covers(out@, #[trigger] texts(rows@[m]@)),
        decreases rows.len() - k,
    {
        let row = &rows[k];
        let ghost before = rows_texts(rows@.subrange(0, k as int));
        let ghost after = rows_texts(rows@.subrange(0, k + 1));
        proof {
            assert(rows@.subrange(0, k + 1).drop_last() == rows@.subrange(0, k as int));
            assert(after.drop_last() == before);
            assert(after.last() == texts(row@));
        }
        let mut p: usize = 0;
        while p < out.len() && !strings_equal(&out[p].tags, row)
            invariant
                p <= out@.len(),
                forall|i: int| 0 <= i < p ==> texts(#[trigger] out@[i].tags@) != texts(row@),
            decreases out.len() - p,
        {
            p += 1;
        }
        let ghost old_out = out@;
        if p < out.len() {
            proof {
                lemma_count_in_bound(before, texts(row@));
                assert(before.len() == k);
            }
            let c = out[p].count + 1;
            let tags = out[p].tags.clone();
            proof {
                assert(texts(tags@) == texts(old_out[p as int].tags@));
            }
            out.set(p, TagCount { tags, count: c });
            proof {
                assert forall|i: int| 0 <= i < out@.len() implies #[trigger] out@[i].count
                    == count_in(after, texts(out@[i].tags@)) && out@[i].count > 0 by {
                    if i != p {
                        assert(texts(old_out[i].tags@) != texts(old_out[p as int].tags@));
                    }
                }
                assert forall|m: int| 0 <= m < k + 1 implies covers(
                    out@,
                    #[trigger] texts(rows@[m]@),
                ) by {
                    if m == k {
                        assert(texts(out@[p as int].tags@) == texts(rows@[m]@));
                    } else {
                        assert(covers(old_out, texts(rows@[m]@)));
                        let i = choose|i: int|
                            0 <= i < old_out.len() && #[trigger] texts(old_out[i].tags@)
                                == texts(rows@[m]@);
                        assert(texts(out@[i].tags@) == texts(rows@[m]@));
                    }
                }
            }
        } else {
            proof {
                assert forall|j: int| 0 <= j < before.len() implies before[j] != texts(row@) by {
                    assert(covers(old_out, texts(rows@[j]@)));
                    let i = choose|i: int|
                        0 <= i < old_out.len() && #[trigger] texts(old_out[i].tags@) == texts(
                            rows@[j]@,
                        );
                    assert(before[j] == texts(rows@[j]@));
                }
                lemma_count_in_zero(before, texts(row@));
            }
            let tags = row.clone();
            proof {
                assert(texts(tags@) == texts(row@)) by {
                    assert(tags@ =~= row@);
                }
            }
            out.push(TagCount { tags, count: 1 });
            proof {
                assert forall|i: int| 0 <= i < out@.len() implies #[trigger] out@[i].count
                    == count_in(after, texts(out@[i].tags@)) && out@[i].count > 0 by {
                    if i < old_out.len() {
                        assert(texts(old_out[i].tags@) != texts(row@));
                    }
                }
                assert forall|m: int| 0 <= m < k + 1 implies covers(
                    out@,
                    #[trigger] texts(rows@[m]@),
                ) by {
                    if m == k {
                        assert(texts(out@[old_out.len() as int].tags@) == texts(rows@[m]@));
                    } else {
                        assert(covers(old_out, texts(rows@[m]@)));
                        let i = choose|i: int|
                            0 <= i < old_out.len() && #[trigger] texts(old_out[i].tags@)
                                == texts(rows@[m]@);
                        assert(texts(out@[i].tags@) == texts(rows@[m]@));
                    }
                }
            }
        }
        k += 1;
    }
    assert(rows@.subrange(0, k as int) == rows@);
    out
}

/// How many of `rows` hold the same texts as `t`, each as often, in any order.
pub open spec fn count_same_texts(rows: Seq<Seq<Seq<char>>>, t: Seq<Seq<char>>) -> nat
    decreases rows.len(),
{
    if rows.len() == 0 {
        0
    } else {
        count_same_texts(rows.drop_last(), t) + if rows.last().to_multiset() == t.to_multiset() {
            1nat
        } else {
            0nat
        }
    }
}

/// Two lists in ascending order with the same texts are equal.
pub proof fn lemma_sorted_texts_unique(a: Seq<Seq<char>>, b: Seq<Seq<char>>)
    requires
        texts_sorted(a),
        texts_sorted(b),
        a.to_multiset() == b.to_multiset(),
    ensures
        a == b,
{
    lemma_seq_leq_total_ordering();
    vstd::seq_lib::lemma_sorted_unique(a, b, |x: Seq<char>, y: Seq<char>| seq_leq(x, y));
}

/// Counting sorted copies equal to a sorted `t` counts the rows with the texts of `t`.
pub proof fn lemma_count_sorted_rows(
    rows: Seq<Seq<Seq<char>>>,
    sorted: Seq<Seq<Seq<char>>>,
    t: Seq<Seq<char>>,
)
    requires
        rows.len() == sorted.len(),
        forall|k: int|
            0 <= k < rows.len() ==> texts_sorted(#[trigger] sorted[k]) && sorted[k].to_multiset()
                == rows[k].to_multiset(),
        texts_sorted(t),
    ensures
        count_in(sorted, t) == count_same_texts(rows, t),
    decreases rows.len(),
{
    if rows.len() > 0 {
        let n = rows.len() - 1;
        assert(texts_sorted(sorted[n]));
        lemma_count_sorted_rows(rows.drop_last(), sorted.drop_last(), t);
        if rows.last().to_multiset() == t.to_multiset() {
            lemma_sorted_texts_unique(sorted.last(), t);
        }
    }
}


/// Whether the texts strictly increase: sorted, each once.
pub open spec fn strictly_increasing(s: Seq<Seq<char>>) -> bool {
    forall|i: int, j: int| 0 <= i < j < s.len() ==> seq_less(s[i], s[j])
}

/// Adds `t` at its place to the strictly increasing list `v`, unless `v` holds it already.
pub fn insert_sorted_unique(v: &mut Vec<String>, t: String)
    requires
        strictly_increasing(texts(old(v)@)),
    ensures
        strictly_increasing(texts(final(v)@)),
        texts(final(v)@).to_set() == texts(old(v)@).to_set().insert(t@),
{
    let mut p: usize = 0;
    while p < v.len() && string_less(&v[p], &t)
        invariant
            p <= v@.len(),
            v@ == old(v)@,
            forall|j: int| 0 <= j < p ==> seq_less(v@[j]@, t@),
        decreases v.len() - p,
    {
        p += 1;
    }
    let ghost before = texts(v@);
    if p < v.len() && crate::text::text_equal(v[p].as_str(), t.as_str()) {
        assert(before[p as int] == t@);
        assert(before.to_set().insert(t@) =~= before.to_set());
        return;
    }
    proof {
        if p < v@.len() {
            lemma_seq_less_total(v@[p as int]@, t@);
            assert(seq_less(t@, v@[p as int]@));
            assert forall|j: int| p <= j < v@.len() implies seq_less(t@, #[trigger] v@[j]@) by {
                if j > p {
                    assert(seq_less(before[p as int], before[j]));
                    lemma_seq_less_transitive(t@, v@[p as int]@, v@[j]@);
                }
            }
        }
    }
    let ghost tt = t@;
    v.insert(p, t);
    proof {
        assert(texts(v@) =~= before.insert(p as int, tt));
        assert forall|i: int, j: int| 0 <= i < j < texts(v@).len() implies seq_less(
            texts(v@)[i],
            texts(v@)[j],
        ) by {
            if i < p && j > p {
                lemma_seq_less_transitive(before[i], tt, before[j - 1]);
            }
        }
        assert forall|x: Seq<char>| #[trigger] texts(v@).contains(x) implies before.contains(x)
            || x == tt by {
            let i = choose|i: int| 0 <= i < texts(v@).len() && texts(v@)[i] == x;
            if i < p {
                assert(before[i] == x);
            } else if i > p {
                assert(before[i - 1] == x);
            }
        }
        assert forall|x: Seq<char>| before.contains(x) || x == tt implies #[trigger] texts(
            v@,
        ).contains(x) by {
            if x == tt {
                assert(texts(v@)[p as int] == x);
            } else {
                let i = choose|i: int| 0 <= i < before.len() && before[i] == x;
                if i < p {
                    assert(texts(v@)[i] == x);
                } else {
                    assert(texts(v@)[i + 1] == x);
                }
            }
        }
        assert(texts(v@).to_set() =~= before.to_set().insert(tt));
    }
}

/// `s` without repeats, each item where it first occurs.
pub open spec fn first_occurrences(s: Seq<Seq<char>>) -> Seq<Seq<char>>
    decreases s.len(),
{
    if s.len() == 0 {
        Seq::empty()
    } else {
        let before = first_occurrences(s.drop_last());
        if before.contains(s.last()) {
            before
        } else {
            before.push(s.last())
        }
    }
}

/// Pushing `x` adds it to the set of items.
pub proof fn lemma_push_to_set(s: Seq<Seq<char>>, x: Seq<char>)
    ensures
        s.push(x).to_set() == s.to_set().insert(x),
{
    assert forall|y: Seq<char>| #[trigger] s.push(x).contains(y) implies s.contains(y) || y == x by {
        let j = choose|j: int| 0 <= j < s.push(x).len() && s.push(x)[j] == y;
        if j < s.len() {
            assert(s[j] == y);
        }
    }
    assert forall|y: Seq<char>| s.contains(y) || y == x implies #[trigger] s.push(x).contains(y) by {
        if y == x {
            assert(s.push(x)[s.len() as int] == y);
        } else {
            let j = choose|j: int| 0 <= j < s.len() && s[j] == y;
            assert(s.push(x)[j] == y);
        }
    }
    assert(s.push(x).to_set() =~= s.to_set().insert(x));
}

/// Dropping repeats keeps every item.
pub proof fn lemma_first_occurrences_items(s: Seq<Seq<char>>, l: Seq<char>)
    ensures
        first_occurrences(s).contains(l) == s.contains(l),
    decreases s.len(),
{
    if s.len() > 0 {
        let p = s.drop_last();
        let before = first_occurrences(p);
        lemma_first_occurrences_items(p, l);
        lemma_first_occurrences_items(p, s.last());
        assert(s == p.push(s.last()));
        if s.contains(l) {
            let j = choose|j: int| 0 <= j < s.len() && s[j] == l;
            if j < p.len() {
                assert(p[j] == l);
            }
        }
        if first_occurrences(s).contains(l) && !before.contains(s.last()) {
            let j = choose|j: int| 0 <= j < first_occurrences(s).len() && first_occurrences(s)[j] == l;
            if j < before.len() {
                assert(before[j] == l);
            }
        }
        if before.contains(l) && !before.contains(s.last()) {
            let j = choose|j: int| 0 <= j < before.len() && before[j] == l;
            assert(first_occurrences(s)[j] == l);
        }
        if !before.contains(s.last()) && l == s.last() {
            assert(first_occurrences(s)[before.len() as int] == l);
        }
        if p.contains(l) {
            let j = choose|j: int| 0 <= j < p.len() && p[j] == l;
            assert(s[j] == l);
        }
    }
}

/// The texts of `s` sorted, each once.
pub open spec fn sorted_distinct(s: Seq<Seq<char>>) -> Seq<Seq<char>> {
    choose|r: Seq<Seq<char>>| strictly_increasing(r) && r.to_set() == s.to_set()
}

proof fn lemma_increasing_unique(a: Seq<Seq<char>>, b: Seq<Seq<char>>)
    requires
        strictly_increasing(a),
        strictly_increasing(b),
        a.to_set() == b.to_set(),
    ensures
        a == b,
    decreases a.len(),
{
    if a.len() == 0 {
        if b.len() > 0 {
            assert(b.to_set().contains(b[0]));
        }
    } else if b.len() == 0 {
        assert(a.to_set().contains(a[0]));
    } else {
        assert(b.to_set().contains(a[0]));
        assert(a.to_set().contains(b[0]));
        let i = choose|i: int| 0 <= i < a.len() && a[i] == b[0];
        let j = choose|j: int| 0 <= j < b.len() && b[j] == a[0];
        if i > 0 && j > 0 {
            lemma_seq_less_transitive(a[0], a[i], a[0]);
            lemma_seq_less_irreflexive(a[0]);
        } else if i > 0 {
            assert(a[0] == b[0]);
        }
        assert(a[0] == b[0]);
        let a1 = a.drop_first();
        let b1 = b.drop_first();
        assert forall|x: Seq<char>| a1.to_set().contains(x) <==> b1.to_set().contains(x) by {
            if a1.to_set().contains(x) {
                let k = choose|k: int| 0 <= k < a1.len() && a1[k] == x;
                assert(a[k + 1] == x);
                assert(b.to_set().contains(x));
                let m = choose|m: int| 0 <= m < b.len() && b[m] == x;
                if m == 0 {
                    lemma_seq_less_irreflexive(a[0]);
                }
                assert(b1[m - 1] == x);
            }
            if b1.to_set().contains(x) {
                let k = choose|k: int| 0 <= k < b1.len() && b1[k] == x;
                assert(b[k + 1] == x);
                assert(a.to_set().contains(x));
                let m = choose|m: int| 0 <= m < a.len() && a[m] == x;
                if m == 0 {
                    lemma_seq_less_irreflexive(b[0]);
                }
                assert(a1[m - 1] == x);
            }
        }
        assert(a1.to_set() =~= b1.to_set());
        lemma_increasing_unique(a1, b1);
        assert(a == seq![a[0]] + a1);
        assert(b == seq![b[0]] + b1);
    }
}

proof fn lemma_insert_increasing(r: Seq<Seq<char>>, x: Seq<char>) -> (q: Seq<Seq<char>>)
    requires
        strictly_increasing(r),
    ensures
        strictly_increasing(q),
        q.to_set() == r.to_set().insert(x),
    decreases r.len(),
{
    if r.len() == 0 {
        let q = seq![x];
        assert(q.to_set() =~= r.to_set().insert(x)) by {
            assert(q[0] == x);
        }
        q
    } else if r[0] == x {
        assert(r.to_set() =~= r.to_set().insert(x)) by {
            assert(r.to_set().contains(r[0]));
        }
        r
    } else {
        lemma_seq_less_total(x, r[0]);
        if seq_less(x, r[0]) {
            let q = seq![x] + r;
            assert forall|i: int, j: int| 0 <= i < j < q.len() implies seq_less(q[i], q[j]) by {
                if i == 0 && j > 1 {
                    lemma_seq_less_transitive(x, r[0], r[j - 1]);
                }
            }
            assert(q.to_set() =~= r.to_set().insert(x)) by {
                assert forall|y: Seq<char>| q.contains(y) implies r.contains(y) || y == x by {
                    let k = choose|k: int| 0 <= k < q.len() && q[k] == y;
                    if k > 0 {
                        assert(r[k - 1] == y);
                    }
                }
                assert forall|y: Seq<char>| r.contains(y) || y == x implies q.contains(y) by {
                    if y == x {
                        assert(q[0] == y);
                    } else {
                        let k = choose|k: int| 0 <= k < r.len() && r[k] == y;
                        assert(q[k + 1] == y);
                    }
                }
            }
            q
        } else {
            let rest = r.drop_first();
            let t = lemma_insert_increasing(rest, x);
            let q = seq![r[0]] + t;
            assert forall|i: int, j: int| 0 <= i < j < q.len() implies seq_less(q[i], q[j]) by {
                if i == 0 {
                    assert(t.to_set().contains(t[j - 1]));
                    if t[j - 1] != x {
                        let k = choose|k: int| 0 <= k < rest.len() && rest[k] == t[j - 1];
                        assert(r[k + 1] == t[j - 1]);
                    }
                }
            }
            assert(q.to_set() =~= r.to_set().insert(x)) by {
                assert forall|y: Seq<char>| q.contains(y) implies r.contains(y) || y == x by {
                    let k = choose|k: int| 0 <= k < q.len() && q[k] == y;
                    if k > 0 {
                        assert(t.to_set().contains(t[k - 1]));
                        if y != x {
                            let m = choose|m: int| 0 <= m < rest.len() && rest[m] == y;
                            assert(r[m + 1] == y);
                        }
                    }
                }
                assert forall|y: Seq<char>| r.contains(y) || y == x implies q.contains(y) by {
                    if y == r[0] {
                        assert(q[0] == y);
                    } else {
                        if y != x {
                            let k = choose|k: int| 0 <= k < r.len() && r[k] == y;
                            assert(rest[k - 1] == y);
                            assert(rest.to_set().contains(y));
                        }
                        assert(t.to_set().contains(y));
                        let m = choose|m: int| 0 <= m < t.len() && t[m] == y;
                        assert(q[m + 1] == y);
                    }
                }
            }
            q
        }
    }
}

/// Every list of texts has a sorted version without repeats: `sorted_distinct(s)` is
/// strictly increasing and holds the texts of `s`.
pub proof fn lemma_sorted_distinct_exists(s: Seq<Seq<char>>)
    ensures
        strictly_increasing(sorted_distinct(s)),
        sorted_distinct(s).to_set() == s.to_set(),
    decreases s.len(),
{
    if s.len() == 0 {
        let r = Seq::<Seq<char>>::empty();
        assert(r.to_set() =~= s.to_set());
        assert(strictly_increasing(r) && r.to_set() == s.to_set());
    } else {
        let init = s.drop_last();
        lemma_sorted_distinct_exists(init);
        let r = lemma_insert_increasing(sorted_distinct(init), s.last());
        lemma_push_to_set(init, s.last());
        assert(init.push(s.last()) == s);
        assert(strictly_increasing(r) && r.to_set() == s.to_set());
    }
}

/// A strictly increasing list with the items of `s` is `sorted_distinct(s)`.
pub proof fn lemma_sorted_distinct(r: Seq<Seq<char>>, s: Seq<Seq<char>>)
    requires
        strictly_increasing(r),
        r.to_set() == s.to_set(),
    ensures
        r == sorted_distinct(s),
{
    let c = sorted_distinct(s);
    assert(strictly_increasing(c) && c.to_set() == s.to_set());
    lemma_increasing_unique(r, c);
}

/// The first place of `x` in `s`, -1 if it does not occur.
pub open spec fn first_index(s: Seq<Seq<char>>, x: Seq<char>) -> int {
    if s.contains(x) {
        choose|k: int| 0 <= k < s.len() && s[k] == x && forall|j: int| 0 <= j < k ==> s[j] != x
    } else {
        -1
    }
}

/// The first place of `t` among the texts of `v`.
pub fn position_of(v: &Vec<String>, t: &str) -> (r: Option<usize>)
    ensures
        match r {
            Some(k) => k as int == first_index(texts(v@), t@) && k < v@.len(),
            None => first_index(texts(v@), t@) == -1 && !texts(v@).contains(t@),
        },
{
    let ghost s = texts(v@);
    let mut k: usize = 0;
    while k < v.len()
        invariant
            k <= v@.len(),
            s == texts(v@),
            forall|j: int| 0 <= j < k ==> s[j] != t@,
        decreases v.len() - k,
    {
        if crate::text::text_equal(v[k].as_str(), t) {
            proof {
                assert(s[k as int] == t@);
                assert(s.contains(t@));
                let c = choose|c: int|
                    0 <= c < s.len() && s[c] == t@ && forall|j: int| 0 <= j < c ==> s[j] != t@;
                assert(c == k);
            }
            return Some(k);
        }
        k += 1;
    }
    proof {
        if s.contains(t@) {
            let j = choose|j: int| 0 <= j < s.len() && s[j] == t@;
            assert(s[j] != t@);
        }
    }
    None
}

} // verus!
