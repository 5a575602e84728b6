//! Contributors: new and returning per month and per year, and the heatmap of the most
//! active ones.
use super::series::fits_i64;
use crate::ranking::{lemma_top_map, lemma_top_members, map_items, top_by_key, top_by_key_desc};
use crate::sorting::{
    first_index, first_occurrences, insert_sorted_unique, lemma_first_occurrences_items,
    lemma_push_to_set, lemma_sorted_distinct, position_of, sorted_distinct, strictly_increasing,
    text_of, texts,
};
use crate::table::{cell_int, column_values, lookup, rows_text, CellText, Row};
use crate::text::text_equal;
use vstd::prelude::*;
use vstd::string::StringSliceAdditionalSpecFns;
use vstd::utf8::{decode_utf8, encode_utf8, is_char_boundary};

verus! {

broadcast use vstd::set_lib::group_set_lib_default;

/// An entry to classify: a period and, if the row names one, a contributor.
pub type EntryText = (Seq<char>, Option<Seq<char>>);

/// The periods of the entries, in order.
pub open spec fn entry_periods(e: Seq<EntryText>) -> Seq<Seq<char>> {
    e.map_values(|x: EntryText| x.0)
}

/// The contributors of the entries of period `p`, in order, repeats kept.
pub open spec fn period_users(e: Seq<EntryText>, p: Seq<char>) -> Seq<Seq<char>>
    decreases e.len(),
{
    if e.len() == 0 {
        Seq::empty()
    } else {
        let before = period_users(e.drop_last(), p);
        match e.last().1 {
            Some(u) => if e.last().0 == p {
                before.push(u)
            } else {
                before
            },
            None => before,
        }
    }
}

/// Period by period from `ps`, with `seen` the contributors of the periods before: the
/// period, its contributors not seen before, and its returning ones, either each entry
/// of a contributor seen before (a contributor's second entry in the period included)
/// or, with `distinct`, each such contributor once.
pub open spec fn classify_from(
    e: Seq<EntryText>,
    ps: Seq<Seq<char>>,
    seen: Set<Seq<char>>,
    distinct: bool,
) -> Seq<(Seq<char>, int, int)>
    decreases ps.len(),
{
    if ps.len() == 0 {
        Seq::empty()
    } else {
        let us = period_users(e, ps[0]);
        let fresh = us.to_set().difference(seen).len() as int;
        let back = if distinct {
            us.to_set().len() - fresh
        } else {
            us.len() - fresh
        };
        seq![(ps[0], fresh, back)] + classify_from(e, ps.drop_first(), seen.union(us.to_set()), distinct)
    }
}

/// New and returning contributors of each period, the periods in ascending order.
pub open spec fn classify_spec(e: Seq<EntryText>, distinct: bool) -> Seq<(Seq<char>, int, int)> {
    classify_from(e, sorted_distinct(entry_periods(e)), Set::empty(), distinct)
}

/// The contributors of the periods `ps`.
pub open spec fn users_in(e: Seq<EntryText>, ps: Seq<Seq<char>>) -> Set<Seq<char>>
    decreases ps.len(),
{
    if ps.len() == 0 {
        Set::empty()
    } else {
        period_users(e, ps[0]).to_set().union(users_in(e, ps.drop_first()))
    }
}

/// The new contributors of all the periods, added up.
pub open spec fn total_new(c: Seq<(Seq<char>, int, int)>) -> int
    decreases c.len(),
{
    if c.len() == 0 {
        0
    } else {
        c[0].1 + total_new(c.drop_first())
    }
}

/// The contributors named by the entries.
pub open spec fn all_users(e: Seq<EntryText>) -> Set<Seq<char>> {
    Set::new(|u: Seq<char>| exists|i: int| 0 <= i < e.len() && (#[trigger] e[i]).1 == Some(u))
}

proof fn lemma_users_in_finite(e: Seq<EntryText>, ps: Seq<Seq<char>>)
    ensures
        users_in(e, ps).finite(),
    decreases ps.len(),
{
    broadcast use vstd::seq_lib::seq_to_set_is_finite;
    if ps.len() > 0 {
        lemma_users_in_finite(e, ps.drop_first());
    }
}

proof fn lemma_new_total(e: Seq<EntryText>, ps: Seq<Seq<char>>, seen: Set<Seq<char>>, distinct: bool)
    requires
        seen.finite(),
    ensures
        total_new(classify_from(e, ps, seen, distinct)) == seen.union(users_in(e, ps)).len() - seen.len(),
    decreases ps.len(),
{
    broadcast use vstd::seq_lib::seq_to_set_is_finite;
    if ps.len() == 0 {
        assert(seen.union(users_in(e, ps)) =~= seen);
    } else {
        let us = period_users(e, ps[0]).to_set();
        let seen2 = seen.union(us);
        let diff = us.difference(seen);
        lemma_new_total(e, ps.drop_first(), seen2, distinct);
        let c = classify_from(e, ps, seen, distinct);
        assert(c.drop_first() == classify_from(e, ps.drop_first(), seen2, distinct));
        assert(seen2 =~= seen + diff);
        assert(seen.disjoint(diff));
        vstd::set_lib::lemma_set_disjoint_lens(seen, diff);
        assert(seen2.union(users_in(e, ps.drop_first())) =~= seen.union(users_in(e, ps)));
    }
}

proof fn lemma_period_users_member(e: Seq<EntryText>, p: Seq<char>, u: Seq<char>)
    ensures
        period_users(e, p).contains(u) <==> exists|i: int|
            0 <= i < e.len() && (#[trigger] e[i]).0 == p && e[i].1 == Some(u),
    decreases e.len(),
{
    if e.len() > 0 {
        let init = e.drop_last();
        lemma_period_users_member(init, p, u);
        let before = period_users(init, p);
        if period_users(e, p).contains(u) {
            let k = choose|k: int| 0 <= k < period_users(e, p).len() && period_users(e, p)[k] == u;
            if k < before.len() {
                assert(before.contains(u));
                let i = choose|i: int| 0 <= i < init.len() && (#[trigger] init[i]).0 == p && init[i].1 == Some(u);
                assert(e[i] == init[i]);
            } else {
                assert(e[e.len() - 1] == e.last());
            }
        }
        if exists|i: int| 0 <= i < e.len() && (#[trigger] e[i]).0 == p && e[i].1 == Some(u) {
            let i = choose|i: int| 0 <= i < e.len() && (#[trigger] e[i]).0 == p && e[i].1 == Some(u);
            if i < init.len() {
                assert(init[i] == e[i]);
                let k = choose|k: int| 0 <= k < before.len() && before[k] == u;
                assert(period_users(e, p)[k] == u);
            } else {
                assert(e.last() == e[i]);
                assert(period_users(e, p)[before.len() as int] == u);
            }
        }
    }
}

proof fn lemma_users_in_member(e: Seq<EntryText>, ps: Seq<Seq<char>>, u: Seq<char>)
    ensures
        users_in(e, ps).contains(u) <==> exists|k: int|
            0 <= k < ps.len() && period_users(e, #[trigger] ps[k]).contains(u),
    decreases ps.len(),
{
    if ps.len() > 0 {
        let rest = ps.drop_first();
        lemma_users_in_member(e, rest, u);
        if users_in(e, rest).contains(u) {
            let k = choose|k: int| 0 <= k < rest.len() && period_users(e, #[trigger] rest[k]).contains(u);
            assert(ps[k + 1] == rest[k]);
        }
        if exists|k: int| 0 <= k < ps.len() && period_users(e, #[trigger] ps[k]).contains(u) {
            let k = choose|k: int| 0 <= k < ps.len() && period_users(e, #[trigger] ps[k]).contains(u);
            if k > 0 {
                assert(rest[k - 1] == ps[k]);
            }
        }
    }
}

proof fn lemma_classify_from_distinct(e: Seq<EntryText>, ps: Seq<Seq<char>>, seen: Set<Seq<char>>)
    requires
        seen.finite(),
    ensures
        classify_from(e, ps, seen, true).len() == ps.len(),
        forall|k: int|
            0 <= k < ps.len() ==> {
                let c = #[trigger] classify_from(e, ps, seen, true)[k];
                &&& c.0 == ps[k]
                &&& c.1 + c.2 == period_users(e, ps[k]).to_set().len()
            },
    decreases ps.len(),
{
    broadcast use vstd::seq_lib::seq_to_set_is_finite;
    if ps.len() > 0 {
        let us = period_users(e, ps[0]).to_set();
        lemma_classify_from_distinct(e, ps.drop_first(), seen.union(us));
        let c = classify_from(e, ps, seen, true);
        let rest = classify_from(e, ps.drop_first(), seen.union(us), true);
        assert(c == seq![(ps[0], us.difference(seen).len() as int, us.len() - us.difference(seen).len())] + rest);
        assert forall|k: int| 0 <= k < ps.len() implies {
            let x = #[trigger] classify_from(e, ps, seen, true)[k];
            &&& x.0 == ps[k]
            &&& x.1 + x.2 == period_users(e, ps[k]).to_set().len()
        } by {
            if k > 0 {
                assert(c[k] == rest[k - 1]);
                assert(ps.drop_first()[k - 1] == ps[k]);
            }
        }
    }
}

/// Counted once a period: in each period, the new and the returning contributors add up
/// to the number of distinct contributors of that period.
pub proof fn lemma_unique_counts_per_period(e: Seq<EntryText>, k: int)
    requires
        0 <= k < classify_spec(e, true).len(),
    ensures
        classify_spec(e, true)[k].1 + classify_spec(e, true)[k].2 == period_users(
            e,
            classify_spec(e, true)[k].0,
        ).to_set().len(),
{
    let ps = sorted_distinct(entry_periods(e));
    lemma_classify_from_distinct(e, ps, Set::empty());
    assert(classify_spec(e, true)[k] == classify_from(e, ps, Set::empty(), true)[k]);
}

/// Each contributor is new in exactly one period: over all the periods, the new
/// contributors add up to the number of distinct contributors of the entries.
pub proof fn lemma_each_contributor_new_once(e: Seq<EntryText>, distinct: bool)
    ensures
        total_new(classify_spec(e, distinct)) == all_users(e).len(),
{
    let ps = sorted_distinct(entry_periods(e));
    crate::sorting::lemma_sorted_distinct_exists(entry_periods(e));
    lemma_new_total(e, ps, Set::empty(), distinct);
    assert forall|u: Seq<char>| users_in(e, ps).contains(u) <==> all_users(e).contains(u) by {
        lemma_users_in_member(e, ps, u);
        if users_in(e, ps).contains(u) {
            let k = choose|k: int| 0 <= k < ps.len() && period_users(e, #[trigger] ps[k]).contains(u);
            lemma_period_users_member(e, ps[k], u);
            let i = choose|i: int| 0 <= i < e.len() && (#[trigger] e[i]).0 == ps[k] && e[i].1 == Some(u);
            assert(all_users(e).contains(u));
        }
        if all_users(e).contains(u) {
            let i = choose|i: int| 0 <= i < e.len() && (#[trigger] e[i]).1 == Some(u);
            let p = e[i].0;
            assert(entry_periods(e)[i] == p);
            assert(entry_periods(e).to_set().contains(p));
            assert(ps.to_set().contains(p));
            let k = choose|k: int| 0 <= k < ps.len() && ps[k] == p;
            lemma_period_users_member(e, p, u);
            assert(period_users(e, ps[k]).contains(u));
        }
    }
    assert(Set::<Seq<char>>::empty().union(users_in(e, ps)) =~= all_users(e));
}

/// A period with its new and returning contributors.
pub struct PeriodCount {
    pub period: String,
    pub new: i64,
    pub returning: i64,
}

/// The counts as text and numbers.
pub open spec fn period_counts(v: Seq<PeriodCount>) -> Seq<(Seq<char>, int, int)> {
    v.map_values(|c: PeriodCount| (c.period@, c.new as int, c.returning as int))
}

/// The entries as text.
pub open spec fn entries_text(e: Seq<(String, Option<String>)>) -> Seq<EntryText> {
    e.map_values(
        |x: (String, Option<String>)|
            (
                x.0@,
                match x.1 {
                    Some(u) => Some(u@),
                    None => None,
                },
            ),
    )
}

fn holds(v: &Vec<String>, t: &str) -> (r: bool)
    ensures
        r == texts(v@).to_set().contains(t@),
{
    let mut k: usize = 0;
    while k < v.len()
        invariant
            k <= v@.len(),
            forall|j: int| 0 <= j < k ==> v@[j]@ != t@,
        decreases v.len() - k,
    {
        if text_equal(v[k].as_str(), t) {
            assert(texts(v@)[k as int] == t@);
            return true;
        }
        k += 1;
    }
    proof {
        if texts(v@).contains(t@) {
            let j = choose|j: int| 0 <= j < texts(v@).len() && texts(v@)[j] == t@;
            assert(v@[j]@ == t@);
        }
    }
    false
}

proof fn lemma_insert_card(s: Set<Seq<char>>, x: Seq<char>)
    requires
        s.finite(),
        !s.contains(x),
    ensures
        s.insert(x).len() == s.len() + 1,
{
}

/// The counts of one period: its contributors not in `seen`, and the returning ones.
fn count_period(
    entries: &Vec<(String, Option<String>)>,
    p: &String,
    seen: &Vec<String>,
    distinct: bool,
) -> (r: (i64, i64, Vec<String>))
    requires
        entries@.len() <= i64::MAX,
    ensures
        ({
            let us = period_users(entries_text(entries@), p@);
            let fresh = us.to_set().difference(texts(seen@).to_set()).len() as int;
            &&& r.0 == fresh
            &&& r.1 == if distinct {
                us.to_set().len() - fresh
            } else {
                us.len() - fresh
            }
            &&& texts(r.2@).to_set() == us.to_set()
        }),
{
    let ghost e = entries_text(entries@);
    let ghost sn = texts(seen@).to_set();
    let mut cur: Vec<String> = Vec::new();
    let mut fresh: i64 = 0;
    let mut back: i64 = 0;
    let mut j: usize = 0;
    proof {
        assert(e.take(0) == Seq::<EntryText>::empty());
        assert(Seq::<Seq<char>>::empty().to_set() =~= Set::<Seq<char>>::empty());
        assert(Set::<Seq<char>>::empty().difference(sn) =~= Set::<Seq<char>>::empty());
        assert(texts(cur@) =~= Seq::<Seq<char>>::empty());
    }
    while j < entries.len()
        invariant
            j <= entries@.len() <= i64::MAX,
            e == entries_text(entries@),
            sn == texts(seen@).to_set(),
            texts(cur@).to_set() == period_users(e.take(j as int), p@).to_set(),
            fresh == period_users(e.take(j as int), p@).to_set().difference(sn).len(),
            back == if distinct {
                period_users(e.take(j as int), p@).to_set().len() - fresh
            } else {
                period_users(e.take(j as int), p@).len() - fresh
            },
            period_users(e.take(j as int), p@).len() <= j,
            0 <= fresh,
            0 <= back,
            fresh + back <= j,
        decreases entries.len() - j,
    {
        let ghost us = period_users(e.take(j as int), p@);
        proof {
            assert(e.take(j + 1).drop_last() == e.take(j as int));
            assert(e.take(j + 1).last() == e[j as int]);
            lemma_period_users_len(e.take(j as int), p@);
        }
        let (ep, eu) = &entries[j];
        if text_equal(ep.as_str(), p.as_str()) {
            match eu {
                Some(u) => {
                    proof {
                        assert(period_users(e.take(j + 1), p@) == us.push(u@));
                        vstd::seq_lib::seq_to_set_is_finite(us);
                    }
                    let ghost cs = us.to_set();
                    proof {
                        crate::sorting::lemma_push_to_set(us, u@);
                    }
                    if holds(&cur, u.as_str()) {
                        proof {
                            assert(us.push(u@).to_set() =~= cs);
                        }
                        if !distinct {
                            back = back + 1;
                        }
                    } else {
                        proof {
                            assert(us.push(u@).to_set() =~= cs.insert(u@));
                            lemma_insert_card(cs, u@);
                            if sn.contains(u@) {
                                assert(cs.insert(u@).difference(sn) =~= cs.difference(sn));
                            } else {
                                assert(cs.insert(u@).difference(sn) =~= cs.difference(sn).insert(
                                    u@,
                                ));
                                lemma_insert_card(cs.difference(sn), u@);
                            }
                        }
                        let ghost before_cur = cur@;
                        cur.push(u.clone());
                        proof {
                            assert(texts(cur@) =~= texts(before_cur).push(u@));
                            crate::sorting::lemma_push_to_set(texts(before_cur), u@);
                            assert(texts(cur@).to_set() =~= texts(before_cur).to_set().insert(u@));
                        }
                        if holds(seen, u.as_str()) {
                            back = back + 1;
                        } else {
                            fresh = fresh + 1;
                        }
                    }
                },
                None => {
                    assert(period_users(e.take(j + 1), p@) == us);
                },
            }
        } else {
            assert(period_users(e.take(j + 1), p@) == us);
        }
        j += 1;
    }
    assert(e.take(entries@.len() as int) == e);
    (fresh, back, cur)
}

proof fn lemma_period_users_len(e: Seq<EntryText>, p: Seq<char>)
    ensures
        period_users(e, p).len() <= e.len(),
    decreases e.len(),
{
    if e.len() > 0 {
        lemma_period_users_len(e.drop_last(), p);
    }
}

/// New and returning contributors of each period of `entries`, periods ascending; with
/// `distinct`, a returning contributor counts once per period, else once per entry.
pub fn classify_entries(entries: &Vec<(String, Option<String>)>, distinct: bool) -> (r: Vec<PeriodCount>)
    requires
        entries@.len() <= i64::MAX,
    ensures
        period_counts(r@) == classify_spec(entries_text(entries@), distinct),
{
    let ghost e = entries_text(entries@);
    let mut periods: Vec<String> = Vec::new();
    let mut i: usize = 0;
    while i < entries.len()
        invariant
            i <= entries@.len(),
            e == entries_text(entries@),
            strictly_increasing(texts(periods@)),
            texts(periods@).to_set() == entry_periods(e.take(i as int)).to_set(),
        decreases entries.len() - i,
    {
        proof {
            assert(entry_periods(e.take(i + 1)) == entry_periods(e.take(i as int)).push(
                entries@[i as int].0@,
            ));
            crate::sorting::lemma_push_to_set(entry_periods(e.take(i as int)), entries@[i as int].0@);
        }
        insert_sorted_unique(&mut periods, entries[i].0.clone());
        i += 1;
    }
    proof {
        assert(e.take(entries@.len() as int) == e);
        lemma_sorted_distinct(texts(periods@), entry_periods(e));
    }
    let ghost ps = texts(periods@);
    let mut seen: Vec<String> = Vec::new();
    let mut r: Vec<PeriodCount> = Vec::new();
    let mut k: usize = 0;
    proof {
        assert(texts(seen@) =~= Seq::<Seq<char>>::empty());
        assert(Seq::<Seq<char>>::empty().to_set() =~= Set::<Seq<char>>::empty());
        assert(ps.skip(0) == ps);
        assert(period_counts(r@) =~= Seq::empty());
        assert(period_counts(r@) + classify_from(e, ps.skip(0), texts(seen@).to_set(), distinct)
            =~= classify_spec(e, distinct));
    }
    while k < periods.len()
        invariant
            k <= periods@.len(),
            entries@.len() <= i64::MAX,
            e == entries_text(entries@),
            ps == texts(periods@),
            ps == sorted_distinct(entry_periods(e)),
            period_counts(r@) + classify_from(e, ps.skip(k as int), texts(seen@).to_set(), distinct)
                == classify_spec(e, distinct),
        decreases periods.len() - k,
    {
        let (fresh, back, cur) = count_period(entries, &periods[k], &seen, distinct);
        let ghost before_r = r@;
        let ghost sn = texts(seen@).to_set();
        let ghost us = period_users(e, ps[k as int]);
        proof {
            assert(ps.skip(k as int)[0] == ps[k as int]);
            assert(ps.skip(k as int).drop_first() == ps.skip(k + 1));
        }
        r.push(PeriodCount { period: periods[k].clone(), new: fresh, returning: back });
        let mut c: usize = 0;
        let ghost start_seen = seen@;
        while c < cur.len()
            invariant
                c <= cur@.len(),
                texts(seen@).to_set() == texts(start_seen).to_set().union(
                    texts(cur@).take(c as int).to_set(),
                ),
            decreases cur.len() - c,
        {
            let ghost prev = seen@;
            seen.push(cur[c].clone());
            proof {
                assert(texts(seen@) =~= texts(prev).push(cur@[c as int]@));
                crate::sorting::lemma_push_to_set(texts(prev), cur@[c as int]@);
                assert(texts(cur@).take(c + 1) =~= texts(cur@).take(c as int).push(cur@[c as int]@));
                crate::sorting::lemma_push_to_set(texts(cur@).take(c as int), cur@[c as int]@);
                assert(texts(seen@).to_set() =~= texts(start_seen).to_set().union(
                    texts(cur@).take(c + 1).to_set(),
                ));
            }
            c += 1;
        }
        proof {
            assert(texts(cur@).take(cur@.len() as int) == texts(cur@));
            assert(texts(seen@).to_set() =~= sn.union(us.to_set()));
            assert(period_counts(r@) =~= period_counts(before_r).push(
                (ps[k as int], fresh as int, back as int),
            ));
            assert(classify_from(e, ps.skip(k as int), sn, distinct) == seq![
                (ps[k as int], fresh as int, back as int),
            ] + classify_from(e, ps.skip(k + 1), sn.union(us.to_set()), distinct));
        }
        k += 1;
    }
    proof {
        assert(classify_from(e, ps.skip(k as int), texts(seen@).to_set(), distinct) =~= Seq::empty());
        assert(period_counts(r@) =~= classify_spec(e, distinct));
    }
    r
}


/// The entries of the rows that have a month: the month and the author, if any.
pub open spec fn month_entries(rows: Seq<Seq<CellText>>) -> Seq<EntryText>
    decreases rows.len(),
{
    if rows.len() == 0 {
        Seq::empty()
    } else {
        let before = month_entries(rows.drop_last());
        match lookup(rows.last(), "month"@) {
            Some(m) => before.push((m, lookup(rows.last(), "user_login"@))),
            None => before,
        }
    }
}

/// The year of a month: its first four bytes, or all of it if it is shorter.
pub open spec fn year_of(m: Seq<char>) -> Seq<char> {
    if encode_utf8(m).len() >= 4 {
        decode_utf8(encode_utf8(m).subrange(0, 4))
    } else {
        m
    }
}

/// Whether the first four bytes of every month end on a character boundary, so that the
/// year can be cut from it.
pub open spec fn years_cut_cleanly(rows: Seq<Seq<CellText>>) -> bool {
    forall|i: int|
        0 <= i < rows.len() ==> match lookup(#[trigger] rows[i], "month"@) {
            Some(m) => encode_utf8(m).len() >= 4 ==> is_char_boundary(encode_utf8(m), 4),
            None => true,
        }
}

/// The entries of the rows that have a month, by year: the year and the author, if any.
pub open spec fn year_entries(rows: Seq<Seq<CellText>>) -> Seq<EntryText>
    decreases rows.len(),
{
    if rows.len() == 0 {
        Seq::empty()
    } else {
        let before = year_entries(rows.drop_last());
        match lookup(rows.last(), "month"@) {
            Some(m) => before.push((year_of(m), lookup(rows.last(), "user_login"@))),
            None => before,
        }
    }
}

/// The entries of the rows that have a month and an author, by year.
pub open spec fn author_year_entries(rows: Seq<Seq<CellText>>) -> Seq<EntryText>
    decreases rows.len(),
{
    if rows.len() == 0 {
        Seq::empty()
    } else {
        let before = author_year_entries(rows.drop_last());
        match (lookup(rows.last(), "month"@), lookup(rows.last(), "user_login"@)) {
            (Some(m), Some(u)) => before.push((year_of(m), Some(u))),
            _ => before,
        }
    }
}

fn year_text(m: &str) -> (r: String)
    requires
        encode_utf8(m@).len() >= 4 ==> is_char_boundary(encode_utf8(m@), 4),
    ensures
        r@ == year_of(m@),
{
    let bytes = m.as_bytes();
    if bytes.len() >= 4 {
        let (head, _) = m.split_at(4);
        proof {
            vstd::utf8::encode_utf8_decode_utf8(head@);
            assert(decode_utf8(head.spec_bytes()) == head@);
        }
        String::from_str(head)
    } else {
        String::from_str(m)
    }
}

/// How the rows become entries.
enum EntryKind {
    Month,
    Year,
    AuthorYear,
}

fn entries_of(rows: &[&Row], kind: EntryKind) -> (r: Vec<(String, Option<String>)>)
    requires
        !(kind is Month) ==> years_cut_cleanly(rows_text(rows@)),
    ensures
        r@.len() <= rows@.len(),
        entries_text(r@) == match kind {
            EntryKind::Month => month_entries(rows_text(rows@)),
            EntryKind::Year => year_entries(rows_text(rows@)),
            EntryKind::AuthorYear => author_year_entries(rows_text(rows@)),
        },
{
    let ghost rt = rows_text(rows@);
    let mut r: Vec<(String, Option<String>)> = Vec::new();
    let mut i: usize = 0;
    while i < rows.len()
        invariant
            i <= rows@.len(),
            r@.len() <= i,
            rt == rows_text(rows@),
            !(kind is Month) ==> years_cut_cleanly(rt),
            entries_text(r@) == match kind {
                EntryKind::Month => month_entries(rt.take(i as int)),
                EntryKind::Year => year_entries(rt.take(i as int)),
                EntryKind::AuthorYear => author_year_entries(rt.take(i as int)),
            },
        decreases rows.len() - i,
    {
        proof {
            assert(rt.take(i + 1).drop_last() == rt.take(i as int));
            assert(rt.take(i + 1).last() == rows@[i as int].text());
            assert(rt[i as int] == rows@[i as int].text());
        }
        let row = rows[i];
        let ghost before = r@;
        match row.get("month") {
            Some(m) => {
                let user = match row.get("user_login") {
                    Some(u) => Some(u.clone()),
                    None => None,
                };
                match kind {
                    EntryKind::Month => {
                        let item = (m.clone(), user);
                        let ghost gi = item;
                        r.push(item);
                        assert(entries_text(r@) =~= entries_text(before).push(
                            entries_text(seq![gi])[0],
                        ));
                    },
                    EntryKind::Year => {
                        let item = (year_text(m.as_str()), user);
                        let ghost gi = item;
                        r.push(item);
                        assert(entries_text(r@) =~= entries_text(before).push(
                            entries_text(seq![gi])[0],
                        ));
                    },
                    EntryKind::AuthorYear => {
                        if user.is_some() {
                            let item = (year_text(m.as_str()), user);
                            let ghost gi = item;
                            r.push(item);
                            assert(entries_text(r@) =~= entries_text(before).push(
                                entries_text(seq![gi])[0],
                            ));
                        }
                    },
                }
            },
            None => {},
        }
        i += 1;
    }
    assert(rt.take(rows@.len() as int) == rt);
    r
}

/// New and returning contributors of each month, months ascending; a contributor's second
/// row in a month counts as returning.
pub fn classify_contributors(rows: &[&Row]) -> (r: Vec<PeriodCount>)
    requires
        rows@.len() <= i64::MAX,
    ensures
        period_counts(r@) == classify_spec(month_entries(rows_text(rows@)), false),
{
    let entries = entries_of(rows, EntryKind::Month);
    classify_entries(&entries, false)
}

/// New and returning contributors per month; none if there are no rows or none has a
/// month.
pub fn unique_contributors_monthly(rows: &[&Row]) -> (r: Option<Vec<PeriodCount>>)
    requires
        rows@.len() <= i64::MAX,
    ensures
        r is None <==> rows@.len() == 0 || classify_spec(month_entries(rows_text(rows@)), false).len() == 0,
        r matches Some(v) ==> period_counts(v@) == classify_spec(month_entries(rows_text(rows@)), false),
{
    if rows.len() == 0 {
        return None;
    }
    let c = classify_contributors(rows);
    if c.len() == 0 {
        return None;
    }
    Some(c)
}

/// Unique contributors per year: each contributor of a year counted once, as new in the
/// first year they appear and as returning after; none if there are no rows or none has
/// a month.
pub fn unique_contributors_yearly(rows: &[&Row]) -> (r: Option<Vec<PeriodCount>>)
    requires
        rows@.len() <= i64::MAX,
        years_cut_cleanly(rows_text(rows@)),
    ensures
        r is None <==> rows@.len() == 0 || classify_spec(year_entries(rows_text(rows@)), true).len() == 0,
        r matches Some(v) ==> period_counts(v@) == classify_spec(year_entries(rows_text(rows@)), true),
{
    if rows.len() == 0 {
        return None;
    }
    let entries = entries_of(rows, EntryKind::Year);
    let c = classify_entries(&entries, true);
    if c.len() == 0 {
        return None;
    }
    Some(c)
}

/// New and returning contributors per year of the rows with an author, each contributor
/// counted once a year.
pub fn yearly_stats(rows: &[&Row]) -> (r: Vec<PeriodCount>)
    requires
        rows@.len() <= i64::MAX,
        years_cut_cleanly(rows_text(rows@)),
    ensures
        period_counts(r@) == classify_spec(author_year_entries(rows_text(rows@)), true),
{
    let entries = entries_of(rows, EntryKind::AuthorYear);
    classify_entries(&entries, true)
}


/// The months of the heatmap: the last twelve of the rows' months, sorted, each once.
pub open spec fn heat_window(rows: Seq<Seq<CellText>>) -> Seq<Seq<char>> {
    let all = sorted_distinct(column_values(rows, "month"@));
    if all.len() > 12 {
        all.skip(all.len() - 12)
    } else {
        all
    }
}

/// Whether a row's month is one of `window`.
pub open spec fn in_window(row: Seq<CellText>, window: Seq<Seq<char>>) -> bool {
    match lookup(row, "month"@) {
        Some(m) => window.contains(m),
        None => false,
    }
}

/// The authors of the rows in `window` that name one, in row order.
pub open spec fn window_users(rows: Seq<Seq<CellText>>, window: Seq<Seq<char>>) -> Seq<Seq<char>>
    decreases rows.len(),
{
    if rows.len() == 0 {
        Seq::empty()
    } else {
        let before = window_users(rows.drop_last(), window);
        match lookup(rows.last(), "user_login"@) {
            Some(u) => if in_window(rows.last(), window) {
                before.push(u)
            } else {
                before
            },
            None => before,
        }
    }
}

/// The pull requests of author `u` in the months of `window`.
pub open spec fn user_total(rows: Seq<Seq<CellText>>, window: Seq<Seq<char>>, u: Seq<char>) -> int
    decreases rows.len(),
{
    if rows.len() == 0 {
        0
    } else {
        user_total(rows.drop_last(), window, u) + if in_window(rows.last(), window) && lookup(
            rows.last(),
            "user_login"@,
        ) == Some(u) {
            cell_int(rows.last(), "count"@) as int
        } else {
            0
        }
    }
}

/// Each author of the window, in order of first appearance, with their total.
pub open spec fn user_totals(rows: Seq<Seq<CellText>>, window: Seq<Seq<char>>) -> Seq<(Seq<char>, i64)> {
    first_occurrences(window_users(rows, window)).map_values(
        |u: Seq<char>| (u, user_total(rows, window, u) as i64),
    )
}

/// The cells of the heatmap: for each row with a month of `window` and an author among
/// `users`, the month's place, the author's place and the count.
pub open spec fn heat_cells(rows: Seq<Seq<CellText>>, window: Seq<Seq<char>>, users: Seq<Seq<char>>) -> Seq<(usize, usize, i64)>
    decreases rows.len(),
{
    if rows.len() == 0 {
        Seq::empty()
    } else {
        let before = heat_cells(rows.drop_last(), window, users);
        let row = rows.last();
        match (lookup(row, "month"@), lookup(row, "user_login"@)) {
            (Some(m), Some(u)) => if window.contains(m) && users.contains(u) {
                before.push(
                    (
                        first_index(window, m) as usize,
                        first_index(users, u) as usize,
                        cell_int(row, "count"@),
                    ),
                )
            } else {
                before
            },
            _ => before,
        }
    }
}

/// The highest count of a row in `window`, and at least 1.
pub open spec fn max_count(rows: Seq<Seq<CellText>>, window: Seq<Seq<char>>) -> i64
    decreases rows.len(),
{
    if rows.len() == 0 {
        1
    } else {
        let before = max_count(rows.drop_last(), window);
        if in_window(rows.last(), window) && cell_int(rows.last(), "count"@) > before {
            cell_int(rows.last(), "count"@)
        } else {
            before
        }
    }
}

/// The heatmap of pull requests by month and author.
pub struct Heatmap {
    pub months: Vec<String>,
    pub users: Vec<String>,
    /// Month index, author index, count.
    pub cells: Vec<(usize, usize, i64)>,
    pub max: i64,
}

/// Whether adding up each author's counts row by row never leaves the range of `i64`.
pub open spec fn heat_fits(rows: Seq<Seq<CellText>>) -> bool {
    forall|i: int, u: Seq<char>|
        0 <= i <= rows.len() ==> fits_i64(#[trigger] user_total(rows.take(i), heat_window(rows), u))
}

fn month_window(rows: &[&Row]) -> (r: Vec<String>)
    ensures
        texts(r@) == heat_window(rows_text(rows@)),
{
    let ghost rt = rows_text(rows@);
    let mut all: Vec<String> = Vec::new();
    let mut i: usize = 0;
    while i < rows.len()
        invariant
            i <= rows@.len(),
            rt == rows_text(rows@),
            strictly_increasing(texts(all@)),
            texts(all@).to_set() == column_values(rt.take(i as int), "month"@).to_set(),
        decreases rows.len() - i,
    {
        proof {
            assert(rt.take(i + 1).drop_last() == rt.take(i as int));
            assert(rt.take(i + 1).last() == rows@[i as int].text());
        }
        match rows[i].get("month") {
            Some(m) => {
                proof {
                    lemma_push_to_set(column_values(rt.take(i as int), "month"@), m@);
                }
                insert_sorted_unique(&mut all, m.clone());
            },
            None => {},
        }
        i += 1;
    }
    proof {
        assert(rt.take(rows@.len() as int) == rt);
        lemma_sorted_distinct(texts(all@), column_values(rt, "month"@));
    }
    if all.len() <= 12 {
        return all;
    }
    let ghost sd = texts(all@);
    let mut r: Vec<String> = Vec::new();
    let mut k: usize = all.len() - 12;
    while k < all.len()
        invariant
            all@.len() > 12,
            sd == texts(all@),
            all.len() - 12 <= k <= all@.len(),
            texts(r@) == sd.subrange(all@.len() - 12, k as int),
        decreases all.len() - k,
    {
        let ghost prev = r@;
        r.push(all[k].clone());
        assert(texts(r@) =~= texts(prev).push(sd[k as int]));
        k += 1;
        assert(texts(r@) =~= sd.subrange(all@.len() - 12, k as int));
    }
    assert(sd.subrange(all@.len() - 12, all@.len() as int) == sd.skip(sd.len() - 12));
    r
}

fn window_user_sum(rows: &[&Row], window: &Vec<String>, u: &str) -> (r: i64)
    requires
        texts(window@) == heat_window(rows_text(rows@)),
        heat_fits(rows_text(rows@)),
    ensures
        r == user_total(rows_text(rows@), texts(window@), u@),
{
    let ghost rt = rows_text(rows@);
    let ghost w = texts(window@);
    let mut total: i64 = 0;
    let mut i: usize = 0;
    assert(rt.take(0) == Seq::<Seq<CellText>>::empty());
    while i < rows.len()
        invariant
            i <= rows@.len(),
            rt == rows_text(rows@),
            w == texts(window@),
            w == heat_window(rt),
            heat_fits(rt),
            total == user_total(rt.take(i as int), w, u@),
        decreases rows.len() - i,
    {
        assert(rt.take(i + 1).drop_last() == rt.take(i as int));
        assert(rt.take(i + 1).last() == rows@[i as int].text());
        assert(fits_i64(user_total(rt.take(i + 1), w, u@)));
        let row = rows[i];
        let add = match (row.get("month"), row.get("user_login")) {
            (Some(m), Some(ru)) => text_equal(ru.as_str(), u) && position_of(window, m.as_str()).is_some(),
            _ => false,
        };
        if add {
            total = total + row.number("count");
        }
        i += 1;
    }
    assert(rt.take(rows@.len() as int) == rt);
    total
}

/// The contributor heatmap: the last twelve months, the ten authors with the most pull
/// requests in them (ties in order of first appearance), a cell per row of theirs, and
/// the highest count; none if there are no rows or no author in those months.
pub fn contributor_heatmap(rows: &[&Row]) -> (r: Option<Heatmap>)
    requires
        heat_fits(rows_text(rows@)),
    ensures
        r is None <==> rows@.len() == 0 || user_totals(
            rows_text(rows@),
            heat_window(rows_text(rows@)),
        ).len() == 0,
        r matches Some(h) ==> {
            let rt = rows_text(rows@);
            let w = heat_window(rt);
            &&& texts(h.months@) == w
            &&& top_by_key(
                user_totals(rt, w),
                texts(h.users@).map_values(|u: Seq<char>| (u, user_total(rt, w, u) as i64)),
                10,
            )
            &&& h.cells@ == heat_cells(rt, w, texts(h.users@))
            &&& h.max == max_count(rt, w)
        },
{
    if rows.len() == 0 {
        return None;
    }
    let ghost rt = rows_text(rows@);
    let ghost view = text_of();
    let window = month_window(rows);
    let ghost w = texts(window@);
    let mut names: Vec<String> = Vec::new();
    let mut i: usize = 0;
    while i < rows.len()
        invariant
            i <= rows@.len(),
            rt == rows_text(rows@),
            w == texts(window@),
            texts(names@) == first_occurrences(window_users(rt.take(i as int), w)),
        decreases rows.len() - i,
    {
        proof {
            assert(rt.take(i + 1).drop_last() == rt.take(i as int));
            assert(rt.take(i + 1).last() == rows@[i as int].text());
        }
        let row = rows[i];
        match (row.get("month"), row.get("user_login")) {
            (Some(m), Some(u)) => {
                if position_of(&window, m.as_str()).is_some() {
                    proof {
                        assert(window_users(rt.take(i + 1), w) == window_users(rt.take(i as int), w).push(u@));
                        assert(window_users(rt.take(i + 1), w).drop_last() == window_users(rt.take(i as int), w));
                    }
                    if position_of(&names, u.as_str()).is_none() {
                        let ghost before = names@;
                        names.push(u.clone());
                        assert(texts(names@) =~= texts(before).push(u@));
                    }
                } else {
                    assert(window_users(rt.take(i + 1), w) == window_users(rt.take(i as int), w));
                }
            },
            (Some(m), None) => {
                assert(window_users(rt.take(i + 1), w) == window_users(rt.take(i as int), w));
            },
            (None, _) => {
                assert(window_users(rt.take(i + 1), w) == window_users(rt.take(i as int), w));
            },
        }
        i += 1;
    }
    assert(rt.take(rows@.len() as int) == rt);
    let mut items: Vec<(String, i64)> = Vec::new();
    let mut k: usize = 0;
    while k < names.len()
        invariant
            k <= names@.len(),
            rt == rows_text(rows@),
            w == texts(window@),
            w == heat_window(rt),
            heat_fits(rt),
            view == text_of(),
            map_items(items@, view) == texts(names@).take(k as int).map_values(
                |u: Seq<char>| (u, user_total(rt, w, u) as i64),
            ),
        decreases names.len() - k,
    {
        let t = window_user_sum(rows, &window, names[k].as_str());
        let ghost prev = items@;
        let pair = (names[k].clone(), t);
        let ghost gp = pair;
        items.push(pair);
        proof {
            assert(map_items(items@, view) =~= map_items(prev, view).push((gp.0@, gp.1)));
            assert(texts(names@).take(k + 1) =~= texts(names@).take(k as int).push(names@[k as int]@));
        }
        k += 1;
        assert(map_items(items@, view) =~= texts(names@).take(k as int).map_values(
            |u: Seq<char>| (u, user_total(rt, w, u) as i64),
        ));
    }
    assert(texts(names@).take(names@.len() as int) == texts(names@));
    assert(map_items(items@, view) == user_totals(rt, w));
    if items.len() == 0 {
        return None;
    }
    let ghost before = items@;
    let top = top_by_key_desc(items, 10);
    proof {
        lemma_top_map(before, top@, 10, view);
        assert forall|j: int| 0 <= j < top@.len() implies top@[j].1 == user_total(rt, w, top@[j].0@) as i64 by {
            lemma_top_members(user_totals(rt, w), map_items(top@, view), 10, j);
            let x = map_items(top@, view)[j];
            let m = choose|m: int| 0 <= m < user_totals(rt, w).len() && user_totals(rt, w)[m] == x;
            assert(user_totals(rt, w)[m] == x);
        }
    }
    let mut users: Vec<String> = Vec::new();
    let mut j: usize = 0;
    while j < top.len()
        invariant
            j <= top@.len(),
            view == text_of(),
            texts(users@) == map_items(top@, view).take(j as int).map_values(|p: (Seq<char>, i64)| p.0),
        decreases top.len() - j,
    {
        let ghost prev = users@;
        users.push(top[j].0.clone());
        assert(texts(users@) =~= texts(prev).push(top@[j as int].0@));
        assert(map_items(top@, view)[j as int].0 == top@[j as int].0@);
        j += 1;
        assert(texts(users@) =~= map_items(top@, view).take(j as int).map_values(|p: (Seq<char>, i64)| p.0));
    }
    proof {
        assert(map_items(top@, view).take(top@.len() as int) == map_items(top@, view));
        assert(texts(users@).map_values(|u: Seq<char>| (u, user_total(rt, w, u) as i64))
            =~= map_items(top@, view));
    }
    let ghost us = texts(users@);
    let mut cells: Vec<(usize, usize, i64)> = Vec::new();
    let mut max: i64 = 1;
    let mut i: usize = 0;
    while i < rows.len()
        invariant
            i <= rows@.len(),
            rt == rows_text(rows@),
            w == texts(window@),
            us == texts(users@),
            cells@ == heat_cells(rt.take(i as int), w, us),
            max == max_count(rt.take(i as int), w),
        decreases rows.len() - i,
    {
        proof {
            assert(rt.take(i + 1).drop_last() == rt.take(i as int));
            assert(rt.take(i + 1).last() == rows@[i as int].text());
        }
        let row = rows[i];
        let count = row.number("count");
        match row.get("month") {
            Some(m) => {
                let mi = position_of(&window, m.as_str());
                if mi.is_some() && count > max {
                    max = count;
                }
                match (mi, row.get("user_login")) {
                    (Some(mi), Some(u)) => {
                        match position_of(&users, u.as_str()) {
                            Some(ui) => {
                                cells.push((mi, ui, count));
                            },
                            None => {},
                        }
                    },
                    _ => {},
                }
            },
            None => {},
        }
        i += 1;
    }
    assert(rt.take(rows@.len() as int) == rt);
    Some(Heatmap { months: window, users, cells, max })
}

} // verus!
