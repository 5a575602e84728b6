//! The line charts: monthly trends and integration trends.
use super::palette::{
    answered_color, closed_color, created_color, label_color, label_color_spec, palette,
    palette_spec, PALETTE_LEN,
};
use crate::ranking::{lemma_top_map, lemma_top_members, map_items, top_by_key, top_by_key_desc};
use crate::sorting::{text_of, texts};
use crate::table::{
    cell_int, column_ints, column_numbers, column_strings, column_values, lookup, rows_text,
    CellText, Row,
};
use crate::text::{chars_of, less_chars, seq_leq, starts_with_chars, starts_with_seq};
use vstd::prelude::*;

verus! {

/// One series of a chart: a line, or a row of bars.
pub struct Series {
    pub name: String,
    pub color: String,
    pub values: Vec<i64>,
    /// Drawn dashed, as the issue-type overlays are.
    pub dashed: bool,
}

/// A chart of series over categories, mostly months.
pub struct SeriesChart {
    pub categories: Vec<String>,
    pub series: Vec<Series>,
}

impl Series {
    /// Whether the series has this name, colour, values and style.
    pub open spec fn shows(&self, name: Seq<char>, color: Seq<char>, values: Seq<i64>, dashed: bool) -> bool {
        &&& self.name@ == name
        &&& self.color@ == color
        &&& self.values@ == values
        &&& self.dashed == dashed
    }
}

/// The text of an optional string slice.
pub open spec fn opt_text(o: Option<&str>) -> Option<Seq<char>> {
    match o {
        Some(s) => Some(s@),
        None => None,
    }
}

/// Whether a row belongs to the period from `start` on: with no start every row does, else
/// a row whose month is not before `start`.
pub open spec fn from_start(row: Seq<CellText>, start: Option<Seq<char>>) -> bool {
    match start {
        None => true,
        Some(s) => match lookup(row, "month"@) {
            Some(m) => seq_leq(s, m),
            None => false,
        },
    }
}

/// The rows of `rows` from `start` on, in order.
pub open spec fn rows_from(rows: Seq<Seq<CellText>>, start: Option<Seq<char>>) -> Seq<Seq<CellText>>
    decreases rows.len(),
{
    if rows.len() == 0 {
        Seq::empty()
    } else {
        let before = rows_from(rows.drop_last(), start);
        if from_start(rows.last(), start) {
            before.push(rows.last())
        } else {
            before
        }
    }
}

/// The rows as text, owned.
pub open spec fn table_text(rows: Seq<Row>) -> Seq<Seq<CellText>> {
    rows.map_values(|r: Row| r.text())
}

/// The rows whose month is `start` or later (all rows when there is no start).
pub fn filter_by_start<'a>(rows: &'a [Row], start: Option<&str>) -> (r: Vec<&'a Row>)
    ensures
        rows_text(r@) == rows_from(table_text(rows@), opt_text(start)),
{
    let mut r: Vec<&'a Row> = Vec::new();
    let start_chars = match start {
        Some(s) => Some(chars_of(s)),
        None => None,
    };
    let mut i: usize = 0;
    while i < rows.len()
        invariant
            i <= rows@.len(),
            match start_chars {
                Some(v) => start matches Some(s) && v@ == s@,
                None => start is None,
            },
            rows_text(r@) == rows_from(table_text(rows@).subrange(0, i as int), opt_text(start)),
        decreases rows.len() - i,
    {
        proof {
            assert(table_text(rows@).subrange(0, i + 1).drop_last() == table_text(
                rows@,
            ).subrange(0, i as int));
        }
        let row = &rows[i];
        let keep = match &start_chars {
            None => true,
            Some(s) => match row.get("month") {
                Some(m) => {
                    let mc = chars_of(m.as_str());
                    !less_chars(&mc, s)
                },
                None => false,
            },
        };
        if keep {
            r.push(row);
        }
        proof {
            assert(rows_text(r@) == rows_from(
                table_text(rows@).subrange(0, i + 1),
                opt_text(start),
            ));
        }
        i += 1;
    }
    assert(table_text(rows@).subrange(0, rows@.len() as int) == table_text(rows@));
    r
}

/// The sum of the numbers in columns `cols` of a row.
pub open spec fn columns_sum(row: Seq<CellText>, cols: Seq<Seq<char>>) -> int
    decreases cols.len(),
{
    if cols.len() == 0 {
        0
    } else {
        columns_sum(row, cols.drop_last()) + cell_int(row, cols.last())
    }
}

/// Whether `v` fits in an `i64`.
pub open spec fn fits_i64(v: int) -> bool {
    i64::MIN <= v <= i64::MAX
}

/// Whether adding up columns `cols` of `row` one by one never leaves the range of `i64`.
pub open spec fn sum_fits(row: Seq<CellText>, cols: Seq<Seq<char>>) -> bool {
    forall|j: int| 0 <= j <= cols.len() ==> fits_i64(#[trigger] columns_sum(row, cols.take(j)))
}

/// The sum of columns `cols` of each row.
pub open spec fn overlay_values(rows: Seq<Seq<CellText>>, cols: Seq<Seq<char>>) -> Seq<i64> {
    rows.map_values(|r: Seq<CellText>| columns_sum(r, cols) as i64)
}

fn columns_total(row: &Row, cols: &Vec<String>) -> (r: i64)
    requires
        sum_fits(row.text(), texts(cols@)),
    ensures
        r == columns_sum(row.text(), texts(cols@)),
{
    let ghost cs = texts(cols@);
    let mut total: i64 = 0;
    let mut j: usize = 0;
    assert(cs.take(0) == Seq::<Seq<char>>::empty());
    while j < cols.len()
        invariant
            j <= cols@.len(),
            cs == texts(cols@),
            sum_fits(row.text(), cs),
            total == columns_sum(row.text(), cs.take(j as int)),
        decreases cols.len() - j,
    {
        let n = row.number(cols[j].as_str());
        assert(cs.take(j + 1).drop_last() == cs.take(j as int));
        assert(fits_i64(columns_sum(row.text(), cs.take(j + 1))));
        total = total + n;
        j += 1;
    }
    assert(cs.take(cols@.len() as int) == cs);
    total
}

fn overlay_series(rows: &[&Row], cols: &Vec<String>) -> (r: Vec<i64>)
    requires
        forall|i: int| 0 <= i < rows@.len() ==> sum_fits(#[trigger] rows@[i].text(), texts(cols@)),
    ensures
        r@ == overlay_values(rows_text(rows@), texts(cols@)),
{
    let mut r: Vec<i64> = Vec::new();
    let mut i: usize = 0;
    while i < rows.len()
        invariant
            i <= rows@.len(),
            forall|i: int| 0 <= i < rows@.len() ==> sum_fits(#[trigger] rows@[i].text(), texts(cols@)),
            r@ == overlay_values(rows_text(rows@), texts(cols@)).subrange(0, i as int),
        decreases rows.len() - i,
    {
        let v = columns_total(rows[i], cols);
        r.push(v);
        i += 1;
        assert(r@ == overlay_values(rows_text(rows@), texts(cols@)).subrange(0, i as int));
    }
    r
}

/// What the monthly trend shows: months; created and closed counts; then, dashed, one line
/// per issue type, the sum of its columns.
pub open spec fn monthly_trend_shows(
    chart: SeriesChart,
    rows: Seq<Seq<CellText>>,
    created_col: Seq<char>,
    closed_col: Seq<char>,
    overlays: Seq<(String, Vec<String>)>,
) -> bool {
    &&& texts(chart.categories@) == column_values(rows, "month"@)
    &&& chart.series@.len() == 2 + overlays.len()
    &&& chart.series@[0].shows("Created"@, created_color(), column_ints(rows, created_col), false)
    &&& chart.series@[1].shows("Closed"@, closed_color(), column_ints(rows, closed_col), false)
    &&& forall|k: int|
        0 <= k < overlays.len() ==> #[trigger] chart.series@[2 + k].shows(
            overlays[k].0@,
            label_color_spec(overlays[k].0@),
            overlay_values(rows, texts(overlays[k].1@)),
            true,
        )
}

/// The monthly trend of `rows`: created and closed per month, and a dashed line per
/// issue type whose columns `type_overlays` name.
pub fn monthly_trend(
    rows: &[&Row],
    created_col: &str,
    closed_col: &str,
    type_overlays: &[(String, Vec<String>)],
) -> (r: SeriesChart)
    requires
        forall|i: int, k: int|
            0 <= i < rows@.len() && 0 <= k < type_overlays@.len() ==> sum_fits(
                #[trigger] rows@[i].text(),
                texts(#[trigger] type_overlays@[k].1@),
            ),
    ensures
        monthly_trend_shows(r, rows_text(rows@), created_col@, closed_col@, type_overlays@),
{
    let categories = column_strings(rows, "month");
    let created = column_numbers(rows, created_col);
    let closed = column_numbers(rows, closed_col);
    let mut series: Vec<Series> = Vec::new();
    series.push(
        Series {
            name: String::from_str("Created"),
            color: String::from_str("#1a1a1a"),
            values: created,
            dashed: false,
        },
    );
    series.push(
        Series {
            name: String::from_str("Closed"),
            color: String::from_str("#006400"),
            values: closed,
            dashed: false,
        },
    );
    let mut k: usize = 0;
    while k < type_overlays.len()
        invariant
            k <= type_overlays@.len(),
            series@.len() == 2 + k,
            forall|i: int, k: int|
                0 <= i < rows@.len() && 0 <= k < type_overlays@.len() ==> sum_fits(
                    #[trigger] rows@[i].text(),
                    texts(#[trigger] type_overlays@[k].1@),
                ),
            series@[0].shows("Created"@, created_color(), column_ints(rows_text(rows@), created_col@), false),
            series@[1].shows("Closed"@, closed_color(), column_ints(rows_text(rows@), closed_col@), false),
            forall|j: int|
                0 <= j < k ==> #[trigger] series@[2 + j].shows(
                    type_overlays@[j].0@,
                    label_color_spec(type_overlays@[j].0@),
                    overlay_values(rows_text(rows@), texts(type_overlays@[j].1@)),
                    true,
                ),
        decreases type_overlays.len() - k,
    {
        let (name, cols) = &type_overlays[k];
        let values = overlay_series(rows, cols);
        let color = label_color(name.as_str());
        series.push(Series { name: name.clone(), color, values, dashed: true });
        k += 1;
    }
    SeriesChart { categories, series }
}

/// The discussion trend of `rows`: created, closed and answered per month.
pub fn discussion_trend(rows: &[&Row]) -> (r: SeriesChart)
    ensures
        texts(r.categories@) == column_values(rows_text(rows@), "month"@),
        r.series@.len() == 3,
        r.series@[0].shows(
            "Created"@,
            created_color(),
            column_ints(rows_text(rows@), "created_discussions"@),
            false,
        ),
        r.series@[1].shows(
            "Closed"@,
            closed_color(),
            column_ints(rows_text(rows@), "closed_discussions"@),
            false,
        ),
        r.series@[2].shows(
            "Answered"@,
            answered_color(),
            column_ints(rows_text(rows@), "answered_discussions"@),
            false,
        ),
{
    let categories = column_strings(rows, "month");
    let created = column_numbers(rows, "created_discussions");
    let closed = column_numbers(rows, "closed_discussions");
    let answered = column_numbers(rows, "answered_discussions");
    let mut series: Vec<Series> = Vec::new();
    series.push(
        Series {
            name: String::from_str("Created"),
            color: String::from_str("#1a1a1a"),
            values: created,
            dashed: false,
        },
    );
    series.push(
        Series {
            name: String::from_str("Closed"),
            color: String::from_str("#006400"),
            values: closed,
            dashed: false,
        },
    );
    series.push(
        Series {
            name: String::from_str("Answered"),
            color: String::from_str("#4C9AFF"),
            values: answered,
            dashed: false,
        },
    );
    SeriesChart { categories, series }
}


/// Whether a column or label belongs to an integration: a source, transform or sink.
pub open spec fn is_integration_name(s: Seq<char>) -> bool {
    starts_with_seq(s, "source:"@) || starts_with_seq(s, "transform:"@) || starts_with_seq(
        s,
        "sink:"@,
    )
}

/// Whether `s` names an integration.
pub fn is_integration(s: &str) -> (r: bool)
    ensures
        r == is_integration_name(s@),
{
    let c = chars_of(s);
    starts_with_chars(&c, &chars_of("source:")) || starts_with_chars(&c, &chars_of("transform:"))
        || starts_with_chars(&c, &chars_of("sink:"))
}

/// The integration columns among `cols`, in order.
pub open spec fn integration_columns(cols: Seq<Seq<char>>) -> Seq<Seq<char>>
    decreases cols.len(),
{
    if cols.len() == 0 {
        Seq::empty()
    } else {
        let before = integration_columns(cols.drop_last());
        if is_integration_name(cols.last()) {
            before.push(cols.last())
        } else {
            before
        }
    }
}

/// The integration columns are exactly the columns that start with `source:`,
/// `transform:` or `sink:`, in their order.
pub proof fn lemma_integration_columns(cols: Seq<Seq<char>>)
    ensures
        forall|i: int|
            0 <= i < integration_columns(cols).len() ==> cols.contains(
                #[trigger] integration_columns(cols)[i],
            ) && (starts_with_seq(integration_columns(cols)[i], "source:"@) || starts_with_seq(
                integration_columns(cols)[i],
                "transform:"@,
            ) || starts_with_seq(integration_columns(cols)[i], "sink:"@)),
        forall|k: int|
            0 <= k < cols.len() && (starts_with_seq(#[trigger] cols[k], "source:"@) || starts_with_seq(
                cols[k],
                "transform:"@,
            ) || starts_with_seq(cols[k], "sink:"@)) ==> integration_columns(cols).contains(cols[k]),
    decreases cols.len(),
{
    if cols.len() > 0 {
        let init = cols.drop_last();
        lemma_integration_columns(init);
        let b = integration_columns(init);
        let c = integration_columns(cols);
        assert forall|k: int| 0 <= k < init.len() implies #[trigger] cols[k] == init[k] by {}
        assert forall|i: int| 0 <= i < c.len() implies cols.contains(#[trigger] c[i]) && (
        starts_with_seq(c[i], "source:"@) || starts_with_seq(c[i], "transform:"@) || starts_with_seq(
            c[i],
            "sink:"@,
        )) by {
            if i < b.len() {
                assert(c[i] == b[i]);
                let j = choose|j: int| 0 <= j < init.len() && init[j] == b[i];
                assert(cols[j] == init[j]);
            } else {
                assert(c[i] == cols.last());
                assert(cols[cols.len() - 1] == cols.last());
            }
        }
        assert forall|k: int|
            0 <= k < cols.len() && (starts_with_seq(#[trigger] cols[k], "source:"@) || starts_with_seq(
                cols[k],
                "transform:"@,
            ) || starts_with_seq(cols[k], "sink:"@)) implies c.contains(cols[k]) by {
            if k < init.len() {
                assert(cols[k] == init[k]);
                let j = choose|j: int| 0 <= j < b.len() && b[j] == init[k];
                assert(c[j] == b[j]);
            } else {
                assert(c[c.len() - 1] == cols[k]);
            }
        }
    }
}

/// The sum of column `col` over `rows`.
pub open spec fn column_total(rows: Seq<Seq<CellText>>, col: Seq<char>) -> int
    decreases rows.len(),
{
    if rows.len() == 0 {
        0
    } else {
        column_total(rows.drop_last(), col) + cell_int(rows.last(), col)
    }
}

/// Whether adding up column `col` row by row never leaves the range of `i64`.
pub open spec fn total_fits(rows: Seq<Seq<CellText>>, col: Seq<char>) -> bool {
    forall|i: int| 0 <= i <= rows.len() ==> fits_i64(#[trigger] column_total(rows.take(i), col))
}

/// Each column with its total over `rows`.
pub open spec fn column_totals(rows: Seq<Seq<CellText>>, cols: Seq<Seq<char>>) -> Seq<(Seq<char>, i64)> {
    cols.map_values(|c: Seq<char>| (c, column_total(rows, c) as i64))
}

/// The name of each series with the total of its column.
pub open spec fn series_totals(rows: Seq<Seq<CellText>>, series: Seq<Series>) -> Seq<(Seq<char>, i64)> {
    series.map_values(|s: Series| (s.name@, column_total(rows, s.name@) as i64))
}

fn total_of(rows: &[&Row], col: &str) -> (r: i64)
    requires
        total_fits(rows_text(rows@), col@),
    ensures
        r == column_total(rows_text(rows@), col@),
{
    let ghost rt = rows_text(rows@);
    let mut total: i64 = 0;
    let mut i: usize = 0;
    assert(rt.take(0) == Seq::<Seq<CellText>>::empty());
    while i < rows.len()
        invariant
            i <= rows@.len(),
            rt == rows_text(rows@),
            total_fits(rt, col@),
            total == column_total(rt.take(i as int), col@),
        decreases rows.len() - i,
    {
        let n = rows[i].number(col);
        assert(rt.take(i + 1).drop_last() == rt.take(i as int));
        assert(fits_i64(column_total(rt.take(i + 1), col@)));
        total = total + n;
        i += 1;
    }
    assert(rt.take(rows@.len() as int) == rt);
    total
}

/// The integration trends: the five integration columns of highest total (ties in column
/// order), each as a line over the months in palette order; none if no column names an
/// integration.
pub fn integration_trends(rows: &[&Row], all_columns: &[String]) -> (r: Option<SeriesChart>)
    requires
        forall|k: int|
            0 <= k < all_columns@.len() && is_integration_name(all_columns@[k]@) ==> total_fits(
                rows_text(rows@),
                #[trigger] all_columns@[k]@,
            ),
    ensures
        r is None <==> integration_columns(texts(all_columns@)).len() == 0,
        r matches Some(c) ==> {
            &&& texts(c.categories@) == column_values(rows_text(rows@), "month"@)
            &&& top_by_key(
                column_totals(rows_text(rows@), integration_columns(texts(all_columns@))),
                series_totals(rows_text(rows@), c.series@),
                5,
            )
            &&& forall|i: int|
                0 <= i < c.series@.len() ==> #[trigger] c.series@[i].shows(
                    c.series@[i].name@,
                    palette_spec(i % (PALETTE_LEN as int)),
                    column_ints(rows_text(rows@), c.series@[i].name@),
                    false,
                )
        },
{
    let ghost rt = rows_text(rows@);
    let ghost view_text = text_of();
    let mut items: Vec<(String, i64)> = Vec::new();
    let mut k: usize = 0;
    while k < all_columns.len()
        invariant
            k <= all_columns@.len(),
            rt == rows_text(rows@),
            view_text == text_of(),
            forall|k: int|
                0 <= k < all_columns@.len() && is_integration_name(all_columns@[k]@)
                    ==> total_fits(rt, #[trigger] all_columns@[k]@),
            map_items(items@, view_text) == column_totals(
                rt,
                integration_columns(texts(all_columns@).subrange(0, k as int)),
            ),
        decreases all_columns.len() - k,
    {
        proof {
            assert(texts(all_columns@).subrange(0, k + 1).drop_last() == texts(
                all_columns@,
            ).subrange(0, k as int));
        }
        let col = &all_columns[k];
        let ghost prev = items@;
        if is_integration(col.as_str()) {
            let total = total_of(rows, col.as_str());
            let pair = (col.clone(), total);
            let ghost gp = pair;
            items.push(pair);
            proof {
                assert(items@ == prev.push(gp));
                assert(view_text(gp.0) == col@);
                assert(map_items(items@, view_text) =~= map_items(prev, view_text).push(
                    (col@, total),
                ));
            }
        }
        k += 1;
        proof {
            assert(map_items(items@, view_text) =~= column_totals(
                rt,
                integration_columns(texts(all_columns@).subrange(0, k as int)),
            ));
        }
    }
    assert(texts(all_columns@).subrange(0, all_columns@.len() as int) == texts(all_columns@));
    if items.len() == 0 {
        return None;
    }
    let ghost before = items@;
    let top = top_by_key_desc(items, 5);
    let ghost input = column_totals(rt, integration_columns(texts(all_columns@)));
    proof {
        lemma_top_map(before, top@, 5, view_text);
        assert forall|j: int| 0 <= j < top@.len() implies top@[j].1 == column_total(
            rt,
            top@[j].0@,
        ) as i64 by {
            lemma_top_members(input, map_items(top@, view_text), 5, j);
            let x = map_items(top@, view_text)[j];
            assert(x == (top@[j].0@, top@[j].1));
            let m = choose|m: int| 0 <= m < input.len() && input[m] == x;
            assert(input[m] == x);
            assert(input[m].1 == column_total(rt, input[m].0) as i64);
        }
    }
    let categories = column_strings(rows, "month");
    let mut series: Vec<Series> = Vec::new();
    let mut i: usize = 0;
    while i < top.len()
        invariant
            i <= top@.len(),
            series@.len() == i,
            forall|j: int| 0 <= j < i ==> (#[trigger] series@[j]).name@ == top@[j].0@,
            rt == rows_text(rows@),
            forall|j: int| 0 <= j < top@.len() ==> top@[j].1 == column_total(rt, top@[j].0@) as i64,
            forall|j: int|
                0 <= j < i ==> #[trigger] series@[j].shows(
                    series@[j].name@,
                    palette_spec(j % (PALETTE_LEN as int)),
                    column_ints(rt, series@[j].name@),
                    false,
                ),
        decreases top.len() - i,
    {
        let name = &top[i].0;
        let values = column_numbers(rows, name.as_str());
        let color = palette(i);
        series.push(Series { name: name.clone(), color, values, dashed: false });
        i += 1;
    }
    assert(series_totals(rt, series@) =~= map_items(top@, view_text));
    Some(SeriesChart { categories, series })
}


/// The columns among `a` and `b`, in that order, that `cols` holds.
pub open spec fn present_of(cols: Seq<Seq<char>>, a: Seq<char>, b: Seq<char>) -> Seq<Seq<char>> {
    (if cols.contains(a) {
        seq![a]
    } else {
        Seq::empty()
    }) + (if cols.contains(b) {
        seq![b]
    } else {
        Seq::empty()
    })
}

/// The overlay of issue type `name`, whose columns are its label `a` and its native type
/// `b`: both that `cols` holds; none if it holds neither.
pub open spec fn overlay_for(cols: Seq<Seq<char>>, name: Seq<char>, a: Seq<char>, b: Seq<char>) -> Seq<(Seq<char>, Seq<Seq<char>>)> {
    let found = present_of(cols, a, b);
    if found.len() == 0 {
        Seq::empty()
    } else {
        seq![(name, found)]
    }
}

/// The issue-type overlays that the columns `cols` allow: bugs, features, enhancements and
/// tasks, each summing its label column and its native-type column where they exist.
pub open spec fn type_overlays_spec(cols: Seq<Seq<char>>) -> Seq<(Seq<char>, Seq<Seq<char>>)> {
    overlay_for(cols, "type: bug"@, "type: bug"@, "Bug"@) + overlay_for(
        cols,
        "type: feature"@,
        "type: feature"@,
        "Feature"@,
    ) + overlay_for(cols, "type: enhancement"@, "type: enhancement"@, "Enhancement"@)
        + overlay_for(cols, "type: task"@, "type: task"@, "Task"@)
}

/// An overlay as text.
pub open spec fn overlay_text(o: (String, Vec<String>)) -> (Seq<char>, Seq<Seq<char>>) {
    (o.0@, texts(o.1@))
}

fn holds_text(cols: &[String], c: &str) -> (r: bool)
    ensures
        r == texts(cols@).contains(c@),
{
    let mut i: usize = 0;
    while i < cols.len()
        invariant
            i <= cols@.len(),
            forall|j: int| 0 <= j < i ==> cols@[j]@ != c@,
        decreases cols.len() - i,
    {
        if crate::text::text_equal(cols[i].as_str(), c) {
            assert(texts(cols@)[i as int] == c@);
            return true;
        }
        i += 1;
    }
    proof {
        if texts(cols@).contains(c@) {
            let j = choose|j: int| 0 <= j < texts(cols@).len() && texts(cols@)[j] == c@;
            assert(cols@[j]@ == c@);
        }
    }
    false
}

fn push_overlay(out: &mut Vec<(String, Vec<String>)>, cols: &[String], name: &str, a: &str, b: &str)
    ensures
        final(out)@.map_values(|o: (String, Vec<String>)| overlay_text(o)) == old(out)@.map_values(
            |o: (String, Vec<String>)| overlay_text(o),
        ) + overlay_for(texts(cols@), name@, a@, b@),
{
    let mut found: Vec<String> = Vec::new();
    if holds_text(cols, a) {
        found.push(String::from_str(a));
    }
    if holds_text(cols, b) {
        found.push(String::from_str(b));
    }
    assert(texts(found@) =~= present_of(texts(cols@), a@, b@));
    if found.len() > 0 {
        let ghost before = out@;
        let item = (String::from_str(name), found);
        let ghost gi = item;
        out.push(item);
        assert(out@ == before.push(gi));
        assert(out@.map_values(|o: (String, Vec<String>)| overlay_text(o)) =~= before.map_values(
            |o: (String, Vec<String>)| overlay_text(o),
        ) + overlay_for(texts(cols@), name@, a@, b@));
    } else {
        assert(overlay_for(texts(cols@), name@, a@, b@) =~= Seq::empty());
        assert(out@.map_values(|o: (String, Vec<String>)| overlay_text(o)) =~= out@.map_values(
            |o: (String, Vec<String>)| overlay_text(o),
        ) + overlay_for(texts(cols@), name@, a@, b@));
    }
}

/// The issue-type overlays that the monthly columns `cols` allow.
pub fn resolve_type_overlays(cols: &[String]) -> (r: Vec<(String, Vec<String>)>)
    ensures
        r@.map_values(|o: (String, Vec<String>)| overlay_text(o)) == type_overlays_spec(texts(cols@)),
{
    let mut r: Vec<(String, Vec<String>)> = Vec::new();
    push_overlay(&mut r, cols, "type: bug", "type: bug", "Bug");
    push_overlay(&mut r, cols, "type: feature", "type: feature", "Feature");
    push_overlay(&mut r, cols, "type: enhancement", "type: enhancement", "Enhancement");
    push_overlay(&mut r, cols, "type: task", "type: task", "Task");
    assert(r@.map_values(|o: (String, Vec<String>)| overlay_text(o)) =~= type_overlays_spec(
        texts(cols@),
    ));
    r
}

} // verus!
