//! The bar charts of labels: top labels, integrations open and closed, labels over time.
use super::palette::{label_color, label_color_spec};
use super::series::{fits_i64, is_integration, is_integration_name, Series, SeriesChart};
use crate::ranking::{
    lemma_top_map, lemma_top_members, map_items, top_by_key, top_by_key_desc,
};
use crate::sorting::{
    first_occurrences, insert_sorted_unique, lemma_first_occurrences_items, lemma_push_to_set,
    strictly_increasing, text_of, texts,
};
use crate::table::{cell_int, lookup, rows_text, CellText, Row};
use crate::text::text_equal;
use vstd::prelude::*;

verus! {

/// The labels that the label charts leave out.
pub open spec fn is_excluded_label(s: Seq<char>) -> bool {
    s == "no-changelog"@ || s == "meta: awaiting author"@
}

/// Whether the label charts leave out `s`.
pub fn excluded_label(s: &str) -> (r: bool)
    ensures
        r == is_excluded_label(s@),
{
    text_equal(s, "no-changelog") || text_equal(s, "meta: awaiting author")
}

/// A bar: a label, its count, and its colour.
pub struct Bar {
    pub label: String,
    pub count: i64,
    pub color: String,
}

/// Each label with its count, for the rows that name a label that is not left out.
pub open spec fn label_counts(rows: Seq<Seq<CellText>>) -> Seq<(Seq<char>, i64)>
    decreases rows.len(),
{
    if rows.len() == 0 {
        Seq::empty()
    } else {
        let before = label_counts(rows.drop_last());
        match lookup(rows.last(), "label_name"@) {
            Some(l) => if is_excluded_label(l) {
                before
            } else {
                before.push((l, cell_int(rows.last(), "count"@)))
            },
            None => before,
        }
    }
}

/// The label breakdown never shows `no-changelog` or `meta: awaiting author`, and shows
/// every other label that a row names, with that row's count.
pub proof fn lemma_label_counts_skip_excluded(rows: Seq<Seq<CellText>>)
    ensures
        forall|i: int|
            0 <= i < label_counts(rows).len() ==> (#[trigger] label_counts(rows)[i]).0
                != "no-changelog"@ && label_counts(rows)[i].0 != "meta: awaiting author"@,
        forall|k: int|
            0 <= k < rows.len() ==> (lookup(#[trigger] rows[k], "label_name"@) matches Some(l)
                ==> (l != "no-changelog"@ && l != "meta: awaiting author"@ ==> label_counts(
                rows,
            ).contains((l, cell_int(rows[k], "count"@))))),
    decreases rows.len(),
{
    if rows.len() > 0 {
        let init = rows.drop_last();
        lemma_label_counts_skip_excluded(init);
        let b = label_counts(init);
        let c = label_counts(rows);
        assert forall|k: int| 0 <= k < init.len() implies #[trigger] rows[k] == init[k] by {}
        assert forall|k: int|
            0 <= k < rows.len() implies (lookup(#[trigger] rows[k], "label_name"@) matches Some(l)
                ==> (l != "no-changelog"@ && l != "meta: awaiting author"@ ==> c.contains(
                (l, cell_int(rows[k], "count"@)),
            ))) by {
            if k < init.len() {
                assert(rows[k] == init[k]);
                if let Some(l) = lookup(rows[k], "label_name"@) {
                    if l != "no-changelog"@ && l != "meta: awaiting author"@ {
                        assert(b.contains((l, cell_int(init[k], "count"@))));
                        let j = choose|j: int| 0 <= j < b.len() && b[j] == (l, cell_int(init[k], "count"@));
                        assert(c == b || c == b.push(c.last()));
                        assert(c[j] == b[j]);
                    }
                }
            } else {
                if let Some(l) = lookup(rows[k], "label_name"@) {
                    if l != "no-changelog"@ && l != "meta: awaiting author"@ {
                        assert(c[c.len() - 1] == (l, cell_int(rows[k], "count"@)));
                    }
                }
            }
        }
        assert forall|i: int| 0 <= i < c.len() implies (#[trigger] c[i]).0 != "no-changelog"@
            && c[i].0 != "meta: awaiting author"@ by {
            if i < b.len() {
                assert(c[i] == b[i]);
            }
        }
    }
}

/// The bars as label and count.
pub open spec fn bar_pairs(bars: Seq<Bar>) -> Seq<(Seq<char>, i64)> {
    bars.map_values(|b: Bar| (b.label@, b.count))
}

/// The twenty labels of highest count, highest first (ties in row order), each in its
/// colour.
pub fn label_breakdown(rows: &[&Row]) -> (r: Vec<Bar>)
    ensures
        top_by_key(label_counts(rows_text(rows@)), bar_pairs(r@), 20),
        forall|i: int| 0 <= i < r@.len() ==> (#[trigger] r@[i]).color@ == label_color_spec(r@[i].label@),
{
    let ghost rt = rows_text(rows@);
    let ghost view = text_of();
    let mut items: Vec<(String, i64)> = Vec::new();
    let mut i: usize = 0;
    while i < rows.len()
        invariant
            i <= rows@.len(),
            rt == rows_text(rows@),
            view == text_of(),
            map_items(items@, view) == label_counts(rt.subrange(0, i as int)),
        decreases rows.len() - i,
    {
        proof {
            assert(rt.subrange(0, i + 1).drop_last() == rt.subrange(0, i as int));
        }
        let ghost prev = items@;
        match rows[i].get("label_name") {
            Some(l) => {
                if !excluded_label(l.as_str()) {
                    let pair = (l.clone(), rows[i].number("count"));
                    let ghost gp = pair;
                    items.push(pair);
                    proof {
                        assert(items@ == prev.push(gp));
                        assert(view(gp.0) == l@);
                        assert(map_items(items@, view) =~= map_items(prev, view).push(
                            (l@, gp.1),
                        ));
                    }
                }
            },
            None => {},
        }
        i += 1;
    }
    assert(rt.subrange(0, rows@.len() as int) == rt);
    let ghost before = items@;
    let top = top_by_key_desc(items, 20);
    proof {
        lemma_top_map(before, top@, 20, view);
    }
    let mut r: Vec<Bar> = Vec::new();
    let mut k: usize = 0;
    while k < top.len()
        invariant
            k <= top@.len(),
            view == text_of(),
            r@.len() == k,
            forall|j: int| 0 <= j < k ==> (#[trigger] r@[j]).label@ == top@[j].0@ && r@[j].count
                == top@[j].1 && r@[j].color@ == label_color_spec(r@[j].label@),
        decreases top.len() - k,
    {
        let label = top[k].0.clone();
        let color = label_color(label.as_str());
        r.push(Bar { label, count: top[k].1, color });
        k += 1;
    }
    assert(bar_pairs(r@) =~= map_items(top@, view));
    r
}

/// Whether a row counts for the integration chart: it names an integration label that is
/// not left out.
pub open spec fn integration_row(row: Seq<CellText>) -> bool {
    match lookup(row, "label_name"@) {
        Some(l) => !is_excluded_label(l) && is_integration_name(l),
        None => false,
    }
}

/// Each integration label with its open and closed counts, keyed by their sum.
pub open spec fn integration_counts(rows: Seq<Seq<CellText>>) -> Seq<((Seq<char>, i64, i64), i64)>
    decreases rows.len(),
{
    if rows.len() == 0 {
        Seq::empty()
    } else {
        let before = integration_counts(rows.drop_last());
        let row = rows.last();
        if integration_row(row) {
            let open = cell_int(row, "open_count"@);
            let closed = cell_int(row, "closed_count"@);
            before.push(((lookup(row, "label_name"@)->0, open, closed), (open + closed) as i64))
        } else {
            before
        }
    }
}

/// A label with its open and closed counts.
pub struct OpenClosed {
    pub label: String,
    pub open: i64,
    pub closed: i64,
}

/// The entries as label, counts and their sum.
pub open spec fn open_closed_items(v: Seq<OpenClosed>) -> Seq<((Seq<char>, i64, i64), i64)> {
    v.map_values(|x: OpenClosed| ((x.label@, x.open, x.closed), (x.open + x.closed) as i64))
}

/// The text of a label with its two counts.
pub open spec fn triple_text() -> spec_fn((String, i64, i64)) -> (Seq<char>, i64, i64) {
    |t: (String, i64, i64)| (t.0@, t.1, t.2)
}

/// The thirty integration labels with the most open and closed items together, most first
/// (ties in row order); none if no row names an integration label.
pub fn open_closed_by_label(rows: &[&Row]) -> (r: Option<Vec<OpenClosed>>)
    requires
        forall|i: int|
            0 <= i < rows@.len() && integration_row(#[trigger] rows@[i].text()) ==> fits_i64(
                cell_int(rows@[i].text(), "open_count"@) + cell_int(
                    rows@[i].text(),
                    "closed_count"@,
                ),
            ),
    ensures
        r is None <==> integration_counts(rows_text(rows@)).len() == 0,
        r matches Some(v) ==> top_by_key(
            integration_counts(rows_text(rows@)),
            open_closed_items(v@),
            30,
        ),
{
    let ghost rt = rows_text(rows@);
    let ghost view = triple_text();
    let mut items: Vec<((String, i64, i64), i64)> = Vec::new();
    let mut i: usize = 0;
    while i < rows.len()
        invariant
            i <= rows@.len(),
            rt == rows_text(rows@),
            view == triple_text(),
            forall|i: int|
                0 <= i < rows@.len() && integration_row(#[trigger] rows@[i].text()) ==> fits_i64(
                    cell_int(rows@[i].text(), "open_count"@) + cell_int(
                        rows@[i].text(),
                        "closed_count"@,
                    ),
                ),
            map_items(items@, view) == integration_counts(rt.subrange(0, i as int)),
        decreases rows.len() - i,
    {
        proof {
            assert(rt.subrange(0, i + 1).drop_last() == rt.subrange(0, i as int));
            assert(rt[i as int] == rows@[i as int].text());
        }
        let ghost prev = items@;
        match rows[i].get("label_name") {
            Some(l) => {
                if !excluded_label(l.as_str()) && is_integration(l.as_str()) {
                    let open = rows[i].number("open_count");
                    let closed = rows[i].number("closed_count");
                    let item = ((l.clone(), open, closed), open + closed);
                    let ghost gi = item;
                    items.push(item);
                    proof {
                        assert(items@ == prev.push(gi));
                        assert(view(gi.0) == (l@, open, closed));
                        assert(map_items(items@, view) =~= map_items(prev, view).push(
                            ((l@, open, closed), gi.1),
                        ));
                    }
                }
            },
            None => {},
        }
        i += 1;
    }
    assert(rt.subrange(0, rows@.len() as int) == rt);
    if items.len() == 0 {
        return None;
    }
    let ghost before = items@;
    let top = top_by_key_desc(items, 30);
    let ghost input = integration_counts(rt);
    proof {
        lemma_top_map(before, top@, 30, view);
        assert forall|j: int| 0 <= j < top@.len() implies top@[j].1 == (top@[j].0.1
            + top@[j].0.2) as i64 by {
            lemma_top_members(input, map_items(top@, view), 30, j);
            let x = map_items(top@, view)[j];
            let m = choose|m: int| 0 <= m < input.len() && input[m] == x;
            lemma_integration_keys(rt, m);
        }
    }
    let mut r: Vec<OpenClosed> = Vec::new();
    let mut k: usize = 0;
    while k < top.len()
        invariant
            k <= top@.len(),
            view == triple_text(),
            r@.len() == k,
            forall|j: int| 0 <= j < top@.len() ==> top@[j].1 == (top@[j].0.1 + top@[j].0.2) as i64,
            forall|j: int| 0 <= j < k ==> (#[trigger] r@[j]).label@ == top@[j].0.0@ && r@[j].open
                == top@[j].0.1 && r@[j].closed == top@[j].0.2,
        decreases top.len() - k,
    {
        r.push(
            OpenClosed { label: top[k].0.0.clone(), open: top[k].0.1, closed: top[k].0.2 },
        );
        k += 1;
    }
    assert(open_closed_items(r@) =~= map_items(top@, view));
    Some(r)
}

proof fn lemma_integration_keys(rows: Seq<Seq<CellText>>, m: int)
    requires
        0 <= m < integration_counts(rows).len(),
    ensures
        integration_counts(rows)[m].1 == (integration_counts(rows)[m].0.1 + integration_counts(
            rows,
        )[m].0.2) as i64,
    decreases rows.len(),
{
    if rows.len() > 0 && m < integration_counts(rows.drop_last()).len() {
        lemma_integration_keys(rows.drop_last(), m);
    }
}

/// Whether a row counts for the labels-over-time chart: it has a month and a label that
/// is not left out.
pub open spec fn pivot_row(row: Seq<CellText>) -> bool {
    &&& lookup(row, "month"@) is Some
    &&& match lookup(row, "label_name"@) {
        Some(l) => !is_excluded_label(l),
        None => false,
    }
}

/// The labels of the counted rows, in row order.
pub open spec fn pivot_labels(rows: Seq<Seq<CellText>>) -> Seq<Seq<char>>
    decreases rows.len(),
{
    if rows.len() == 0 {
        Seq::empty()
    } else {
        let before = pivot_labels(rows.drop_last());
        if pivot_row(rows.last()) {
            before.push(lookup(rows.last(), "label_name"@)->0)
        } else {
            before
        }
    }
}

/// The months of the counted rows, in row order.
pub open spec fn pivot_months(rows: Seq<Seq<CellText>>) -> Seq<Seq<char>>
    decreases rows.len(),
{
    if rows.len() == 0 {
        Seq::empty()
    } else {
        let before = pivot_months(rows.drop_last());
        if pivot_row(rows.last()) {
            before.push(lookup(rows.last(), "month"@)->0)
        } else {
            before
        }
    }
}

/// The sum of the counts of the counted rows with label `l`.
pub open spec fn label_total(rows: Seq<Seq<CellText>>, l: Seq<char>) -> int
    decreases rows.len(),
{
    if rows.len() == 0 {
        0
    } else {
        label_total(rows.drop_last(), l) + if pivot_row(rows.last()) && lookup(
            rows.last(),
            "label_name"@,
        ) == Some(l) {
            cell_int(rows.last(), "count"@) as int
        } else {
            0
        }
    }
}

/// The sum of the counts of the counted rows of month `m` with label `l`.
pub open spec fn month_label_total(rows: Seq<Seq<CellText>>, m: Seq<char>, l: Seq<char>) -> int
    decreases rows.len(),
{
    if rows.len() == 0 {
        0
    } else {
        month_label_total(rows.drop_last(), m, l) + if pivot_row(rows.last()) && lookup(
            rows.last(),
            "label_name"@,
        ) == Some(l) && lookup(rows.last(), "month"@) == Some(m) {
            cell_int(rows.last(), "count"@) as int
        } else {
            0
        }
    }
}

/// Whether adding up counts row by row, per label and per month and label, never leaves
/// the range of `i64`.
pub open spec fn pivot_fits(rows: Seq<Seq<CellText>>) -> bool {
    &&& forall|i: int, l: Seq<char>|
        0 <= i <= rows.len() ==> fits_i64(#[trigger] label_total(rows.take(i), l))
    &&& forall|i: int, m: Seq<char>, l: Seq<char>|
        0 <= i <= rows.len() ==> fits_i64(#[trigger] month_label_total(rows.take(i), m, l))
}

/// Each label, in order of first occurrence, with its total.
pub open spec fn label_totals(rows: Seq<Seq<CellText>>) -> Seq<(Seq<char>, i64)> {
    first_occurrences(pivot_labels(rows)).map_values(
        |l: Seq<char>| (l, label_total(rows, l) as i64),
    )
}

/// The count of label `l` in each of `months`.
pub open spec fn monthly_counts(rows: Seq<Seq<CellText>>, months: Seq<Seq<char>>, l: Seq<char>) -> Seq<i64> {
    months.map_values(|m: Seq<char>| month_label_total(rows, m, l) as i64)
}

/// What the labels-over-time chart shows: the months of the counted rows, sorted, each
/// once; and, for the eight labels of highest total (ties in order of first occurrence),
/// a series of its count per month in its colour.
pub open spec fn label_counts_over_time_shows(chart: SeriesChart, rows: Seq<Seq<CellText>>) -> bool {
    &&& strictly_increasing(texts(chart.categories@))
    &&& texts(chart.categories@).to_set() == pivot_months(rows).to_set()
    &&& top_by_key(
        label_totals(rows),
        chart.series@.map_values(|s: Series| (s.name@, label_total(rows, s.name@) as i64)),
        8,
    )
    &&& forall|i: int|
        0 <= i < chart.series@.len() ==> #[trigger] chart.series@[i].shows(
            chart.series@[i].name@,
            label_color_spec(chart.series@[i].name@),
            monthly_counts(rows, texts(chart.categories@), chart.series@[i].name@),
            false,
        )
}

fn index_of_text(v: &Vec<String>, t: &str) -> (r: Option<usize>)
    ensures
        match r {
            Some(k) => k < v@.len() && v@[k as int]@ == t@,
            None => !texts(v@).contains(t@),
        },
{
    let mut k: usize = 0;
    while k < v.len()
        invariant
            k <= v@.len(),
            forall|j: int| 0 <= j < k ==> v@[j]@ != t@,
        decreases v.len() - k,
    {
        if text_equal(v[k].as_str(), t) {
            return Some(k);
        }
        k += 1;
    }
    proof {
        if texts(v@).contains(t@) {
            let j = choose|j: int| 0 <= j < texts(v@).len() && texts(v@)[j] == t@;
            assert(v@[j]@ == t@);
        }
    }
    None
}

fn month_label_sum(rows: &[&Row], m: &str, l: &str) -> (r: i64)
    requires
        pivot_fits(rows_text(rows@)),
    ensures
        r == month_label_total(rows_text(rows@), m@, l@),
{
    let ghost rt = rows_text(rows@);
    let mut total: i64 = 0;
    let mut i: usize = 0;
    assert(rt.take(0) == Seq::<Seq<CellText>>::empty());
    while i < rows.len()
        invariant
            i <= rows@.len(),
            rt == rows_text(rows@),
            pivot_fits(rt),
            total == month_label_total(rt.take(i as int), m@, l@),
        decreases rows.len() - i,
    {
        assert(rt.take(i + 1).drop_last() == rt.take(i as int));
        assert(fits_i64(month_label_total(rt.take(i + 1), m@, l@)));
        assert(rt[i as int] == rows@[i as int].text());
        let row = rows[i];
        let add = match (row.get("month"), row.get("label_name")) {
            (Some(rm), Some(rl)) => !excluded_label(rl.as_str()) && text_equal(rl.as_str(), l)
                && text_equal(rm.as_str(), m),
            _ => false,
        };
        if add {
            total = total + row.number("count");
        }
        i += 1;
    }
    assert(rt.take(rows@.len() as int) == rt);
    total
}

/// The counts of the eight most used labels per month, as grouped bars.
pub fn label_counts_over_time(rows: &[&Row]) -> (r: SeriesChart)
    requires
        pivot_fits(rows_text(rows@)),
    ensures
        label_counts_over_time_shows(r, rows_text(rows@)),
{
    let ghost rt = rows_text(rows@);
    let ghost view = text_of();
    let mut months: Vec<String> = Vec::new();
    let mut names: Vec<String> = Vec::new();
    let mut totals: Vec<i64> = Vec::new();
    let mut i: usize = 0;
    while i < rows.len()
        invariant
            i <= rows@.len(),
            rt == rows_text(rows@),
            pivot_fits(rt),
            strictly_increasing(texts(months@)),
            texts(months@).to_set() == pivot_months(rt.take(i as int)).to_set(),
            texts(names@) == first_occurrences(pivot_labels(rt.take(i as int))),
            totals@.len() == names@.len(),
            forall|a: int, b: int| 0 <= a < b < names@.len() ==> names@[a]@ != names@[b]@,
            forall|k: int|
                0 <= k < names@.len() ==> totals@[k] == label_total(
                    rt.take(i as int),
                    #[trigger] names@[k]@,
                ),
        decreases rows.len() - i,
    {
        let ghost pre = rt.take(i as int);
        let ghost post = rt.take(i + 1);
        proof {
            assert(post.drop_last() == pre);
            assert(post.last() == rows@[i as int].text());
        }
        let row = rows[i];
        match (row.get("month"), row.get("label_name")) {
            (Some(m), Some(l)) => {
                if !excluded_label(l.as_str()) {
                    proof {
                        assert(pivot_row(post.last()));
                        assert(pivot_labels(post) == pivot_labels(pre).push(l@));
                        assert(pivot_months(post) == pivot_months(pre).push(m@));
                        assert(pivot_labels(post).drop_last() == pivot_labels(pre));
                        lemma_push_to_set(pivot_months(pre), m@);
                        assert forall|x: Seq<char>| #[trigger] label_total(post, x)
                            == label_total(pre, x) + if x == l@ {
                            cell_int(post.last(), "count"@) as int
                        } else {
                            0
                        } by {}
                        assert(fits_i64(label_total(post, l@)));
                    }
                    let count = row.number("count");
                    insert_sorted_unique(&mut months, m.clone());
                    match index_of_text(&names, l.as_str()) {
                        Some(k) => {
                            proof {
                                assert(texts(names@)[k as int] == l@);
                                assert(first_occurrences(pivot_labels(pre)).contains(l@));
                            }
                            let t = totals[k] + count;
                            totals.set(k, t);
                            proof {
                                assert forall|k2: int| 0 <= k2 < names@.len() implies totals@[k2]
                                    == label_total(post, #[trigger] names@[k2]@) by {
                                    if k2 != k {
                                        assert(names@[k2]@ != names@[k as int]@);
                                    }
                                }
                            }
                        },
                        None => {
                            proof {
                                lemma_first_occurrences_items(pivot_labels(pre), l@);
                                lemma_label_total_absent(pre, l@);
                            }
                            let ghost old_names = names@;
                            names.push(l.clone());
                            totals.push(count);
                            proof {
                                assert forall|k2: int| 0 <= k2 < old_names.len() implies names@[k2]@
                                    != l@ by {
                                    assert(texts(old_names)[k2] == names@[k2]@);
                                }
                                assert forall|k2: int| 0 <= k2 < names@.len() implies totals@[k2]
                                    == label_total(post, #[trigger] names@[k2]@) by {}
                            }
                        },
                    }
                    proof {
                        assert(texts(names@) =~= first_occurrences(pivot_labels(post)));
                        assert(texts(months@).to_set() =~= pivot_months(post).to_set());
                    }
                } else {
                    proof {
                        assert(!pivot_row(post.last()));
                        assert(pivot_labels(post) == pivot_labels(pre));
                        assert(pivot_months(post) == pivot_months(pre));
                        assert forall|x: Seq<char>| #[trigger] label_total(post, x)
                            == label_total(pre, x) by {}
                    }
                }
            },
            _ => {
                proof {
                    assert(!pivot_row(post.last()));
                    assert(pivot_labels(post) == pivot_labels(pre));
                    assert(pivot_months(post) == pivot_months(pre));
                    assert forall|x: Seq<char>| #[trigger] label_total(post, x)
                        == label_total(pre, x) by {}
                }
            },
        }
        i += 1;
    }
    assert(rt.take(rows@.len() as int) == rt);
    let mut items: Vec<(String, i64)> = Vec::new();
    while names.len() > 0
        invariant
            rt == rows_text(rows@),
            view == text_of(),
            totals@.len() == names@.len(),
            map_items(items@, view) + texts(names@).map_values(|l: Seq<char>| (l, label_total(rt, l) as i64)) == label_totals(rt),
            forall|j: int|
                0 <= j < names@.len() ==> totals@[j] == label_total(rt, #[trigger] names@[j]@),
        decreases names.len(),
    {
        let n = names.remove(0);
        let t = totals.remove(0);
        let ghost prev = items@;
        let pair = (n, t);
        let ghost gp = pair;
        items.push(pair);
        proof {
            assert(map_items(items@, view) =~= map_items(prev, view).push((gp.0@, gp.1)));
        }
    }
    assert(map_items(items@, view) =~= label_totals(rt));
    let ghost before = items@;
    let top = top_by_key_desc(items, 8);
    proof {
        lemma_top_map(before, top@, 8, view);
        assert forall|j: int| 0 <= j < top@.len() implies top@[j].1 == label_total(
            rt,
            top@[j].0@,
        ) as i64 by {
            lemma_top_members(label_totals(rt), map_items(top@, view), 8, j);
            let x = map_items(top@, view)[j];
            let m = choose|m: int| 0 <= m < label_totals(rt).len() && label_totals(rt)[m] == x;
            assert(label_totals(rt)[m] == x);
        }
    }
    let mut series: Vec<Series> = Vec::new();
    let mut s: usize = 0;
    while s < top.len()
        invariant
            s <= top@.len(),
            rt == rows_text(rows@),
            pivot_fits(rt),
            view == text_of(),
            series@.len() == s,
            forall|j: int| 0 <= j < top@.len() ==> top@[j].1 == label_total(rt, top@[j].0@) as i64,
            forall|j: int| 0 <= j < s ==> (#[trigger] series@[j]).name@ == top@[j].0@,
            forall|j: int|
                0 <= j < s ==> #[trigger] series@[j].shows(
                    series@[j].name@,
                    label_color_spec(series@[j].name@),
                    monthly_counts(rt, texts(months@), series@[j].name@),
                    false,
                ),
        decreases top.len() - s,
    {
        let label = &top[s].0;
        let mut values: Vec<i64> = Vec::new();
        let mut m: usize = 0;
        while m < months.len()
            invariant
                m <= months@.len(),
                rt == rows_text(rows@),
                pivot_fits(rt),
                values@ == monthly_counts(rt, texts(months@), label@).subrange(0, m as int),
            decreases months.len() - m,
        {
            let v = month_label_sum(rows, months[m].as_str(), label.as_str());
            values.push(v);
            m += 1;
            assert(values@ == monthly_counts(rt, texts(months@), label@).subrange(0, m as int));
        }
        assert(values@ == monthly_counts(rt, texts(months@), label@));
        let color = label_color(label.as_str());
        series.push(Series { name: label.clone(), color, values, dashed: false });
        s += 1;
    }
    assert(series@.map_values(|x: Series| (x.name@, label_total(rt, x.name@) as i64)) =~= map_items(
        top@,
        view,
    ));
    SeriesChart { categories: months, series }
}

proof fn lemma_label_total_absent(rows: Seq<Seq<CellText>>, l: Seq<char>)
    requires
        !pivot_labels(rows).contains(l),
    ensures
        label_total(rows, l) == 0,
    decreases rows.len(),
{
    if rows.len() > 0 {
        let before = pivot_labels(rows.drop_last());
        if before.contains(l) {
            let j = choose|j: int| 0 <= j < before.len() && before[j] == l;
            if pivot_row(rows.last()) {
                assert(pivot_labels(rows)[j] == l);
            } else {
                assert(pivot_labels(rows)[j] == l);
            }
        }
        if pivot_row(rows.last()) {
            assert(pivot_labels(rows)[before.len() as int] == lookup(rows.last(), "label_name"@)->0);
        }
        lemma_label_total_absent(rows.drop_last(), l);
    }
}

} // verus!
