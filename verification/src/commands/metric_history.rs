//! Which items each Datadog snapshot counts: the current one, by the items' state, and
//! one at each UTC midnight of the history, rebuilt from when items were created and
//! closed; and the gauges of every snapshot.
use super::fetch_issues::{parse_since_at, since_spec, SinceError};
use super::push_metrics::{
    collect_metrics, metric_kinds, metrics_spec, ClosedDiscussion, ClosedItem, MetricRows,
    MetricSeries, OpenDiscussion, OpenItem,
};
use crate::config::Config;
use crate::sorting::texts;
use crate::text::{chars_of, less_chars, seq_leq, seq_less, text_equal};
use crate::time::{
    format_utc, parse_rfc3339_seconds, rfc3339_seconds, utc_formatted, utc_year_month,
    year_month_of,
};
use vstd::prelude::*;

verus! {

/// An issue or pull request as the database holds it.
pub struct ItemRow {
    pub state: String,
    pub is_draft: bool,
    pub created_at: String,
    pub closed_at: Option<String>,
    pub issue_type: Option<String>,
    pub labels: Vec<String>,
}

/// A discussion as the database holds it.
pub struct DiscussionRow {
    pub category: String,
    pub answered: bool,
    pub created_at: String,
    pub closed_at: Option<String>,
    pub closed: bool,
}

/// Every issue, pull request and discussion of a repository.
pub struct RepoRows {
    pub issues: Vec<ItemRow>,
    pub prs: Vec<ItemRow>,
    pub discussions: Vec<DiscussionRow>,
}

/// An optional text as characters.
pub open spec fn opt_text(o: Option<String>) -> Option<Seq<char>> {
    match o {
        Some(s) => Some(s@),
        None => None,
    }
}

/// Whether an item counts as open: at a snapshot time `at` (timestamps compared as
/// text), created by then and not closed by then; for the current snapshot (`at` none),
/// in state `open`. Drafts are left out where `skip_drafts`.
pub open spec fn item_open(r: ItemRow, at: Option<Seq<char>>, skip_drafts: bool) -> bool {
    &&& !(skip_drafts && r.is_draft)
    &&& match at {
        None => r.state@ == "open"@,
        Some(a) => seq_leq(r.created_at@, a) && match r.closed_at {
            None => true,
            Some(c) => seq_less(a, c@),
        },
    }
}

/// Whether an item counts as closed in the window that starts at `since`: closed at
/// `since` or later, and, at a snapshot time `at`, by then; for the current snapshot, in
/// state `closed`. Drafts are left out where `skip_drafts`.
pub open spec fn item_closed(r: ItemRow, since: Seq<char>, at: Option<Seq<char>>, skip_drafts: bool) -> bool {
    &&& !(skip_drafts && r.is_draft)
    &&& match r.closed_at {
        None => false,
        Some(c) => seq_leq(since, c@) && match at {
            None => r.state@ == "closed"@,
            Some(a) => seq_leq(c@, a),
        },
    }
}

/// Whether a discussion counts as open, as `item_open` says of items; for the current
/// snapshot, not closed.
pub open spec fn discussion_open(d: DiscussionRow, at: Option<Seq<char>>) -> bool {
    match at {
        None => !d.closed,
        Some(a) => seq_leq(d.created_at@, a) && match d.closed_at {
            None => true,
            Some(c) => seq_less(a, c@),
        },
    }
}

/// Whether a discussion counts as closed in the window, as `item_closed` says of items;
/// for the current snapshot, closed.
pub open spec fn discussion_closed(d: DiscussionRow, since: Seq<char>, at: Option<Seq<char>>) -> bool {
    match d.closed_at {
        None => false,
        Some(c) => seq_leq(since, c@) && match at {
            None => d.closed,
            Some(a) => seq_leq(c@, a),
        },
    }
}

pub open spec fn open_item_view(x: OpenItem) -> (Seq<char>, Option<Seq<char>>, Seq<Seq<char>>) {
    (x.created_at@, opt_text(x.issue_type), texts(x.labels@))
}

pub open spec fn closed_item_view(x: ClosedItem) -> (Option<Seq<char>>, Seq<Seq<char>>) {
    (opt_text(x.issue_type), texts(x.labels@))
}

pub open spec fn open_discussion_view(x: OpenDiscussion) -> (Seq<char>, bool, Seq<char>) {
    (x.category@, x.answered, x.created_at@)
}

pub open spec fn closed_discussion_view(x: ClosedDiscussion) -> (Seq<char>, bool) {
    (x.category@, x.answered)
}

/// The open items among `rows`, in order, as the gauge reads them.
pub open spec fn open_rows(rows: Seq<ItemRow>, at: Option<Seq<char>>, skip_drafts: bool) -> Seq<
    (Seq<char>, Option<Seq<char>>, Seq<Seq<char>>),
>
    decreases rows.len(),
{
    if rows.len() == 0 {
        Seq::empty()
    } else {
        let before = open_rows(rows.drop_last(), at, skip_drafts);
        let r = rows.last();
        if item_open(r, at, skip_drafts) {
            before.push((r.created_at@, opt_text(r.issue_type), texts(r.labels@)))
        } else {
            before
        }
    }
}

/// The items among `rows` closed in the window, in order, as the gauge reads them.
pub open spec fn closed_rows(
    rows: Seq<ItemRow>,
    since: Seq<char>,
    at: Option<Seq<char>>,
    skip_drafts: bool,
) -> Seq<(Option<Seq<char>>, Seq<Seq<char>>)>
    decreases rows.len(),
{
    if rows.len() == 0 {
        Seq::empty()
    } else {
        let before = closed_rows(rows.drop_last(), since, at, skip_drafts);
        let r = rows.last();
        if item_closed(r, since, at, skip_drafts) {
            before.push((opt_text(r.issue_type), texts(r.labels@)))
        } else {
            before
        }
    }
}

/// The open discussions, in order, as the gauge reads them.
pub open spec fn open_discussion_rows(rows: Seq<DiscussionRow>, at: Option<Seq<char>>) -> Seq<
    (Seq<char>, bool, Seq<char>),
>
    decreases rows.len(),
{
    if rows.len() == 0 {
        Seq::empty()
    } else {
        let before = open_discussion_rows(rows.drop_last(), at);
        let d = rows.last();
        if discussion_open(d, at) {
            before.push((d.category@, d.answered, d.created_at@))
        } else {
            before
        }
    }
}

/// The discussions closed in the window, in order, as the gauge reads them.
pub open spec fn closed_discussion_rows(
    rows: Seq<DiscussionRow>,
    since: Seq<char>,
    at: Option<Seq<char>>,
) -> Seq<(Seq<char>, bool)>
    decreases rows.len(),
{
    if rows.len() == 0 {
        Seq::empty()
    } else {
        let before = closed_discussion_rows(rows.drop_last(), since, at);
        let d = rows.last();
        if discussion_closed(d, since, at) {
            before.push((d.category@, d.answered))
        } else {
            before
        }
    }
}

/// Whether `m` holds what a snapshot at `at` (none: the current one) with the window
/// starting at `since` counts: open issues, open non-draft pull requests, open
/// discussions, and those closed in the window.
pub open spec fn rows_selected(m: MetricRows, rows: RepoRows, since: Seq<char>, at: Option<Seq<char>>) -> bool {
    &&& m.open_issues@.map_values(|x: OpenItem| open_item_view(x)) == open_rows(rows.issues@, at, false)
    &&& m.open_prs@.map_values(|x: OpenItem| open_item_view(x)) == open_rows(rows.prs@, at, true)
    &&& m.open_discussions@.map_values(|x: OpenDiscussion| open_discussion_view(x))
        == open_discussion_rows(rows.discussions@, at)
    &&& m.closed_issues@.map_values(|x: ClosedItem| closed_item_view(x)) == closed_rows(
        rows.issues@,
        since,
        at,
        false,
    )
    &&& m.closed_prs@.map_values(|x: ClosedItem| closed_item_view(x)) == closed_rows(
        rows.prs@,
        since,
        at,
        true,
    )
    &&& m.closed_discussions@.map_values(|x: ClosedDiscussion| closed_discussion_view(x))
        == closed_discussion_rows(rows.discussions@, since, at)
}

fn text_leq(a: &str, b: &str) -> (r: bool)
    ensures
        r == seq_leq(a@, b@),
{
    !less_chars(&chars_of(b), &chars_of(a))
}

fn text_less(a: &str, b: &str) -> (r: bool)
    ensures
        r == seq_less(a@, b@),
{
    less_chars(&chars_of(a), &chars_of(b))
}

fn clone_opt(o: &Option<String>) -> (r: Option<String>)
    ensures
        opt_text(r) == opt_text(*o),
{
    match o {
        Some(s) => Some(s.clone()),
        None => None,
    }
}

fn clone_texts(v: &Vec<String>) -> (r: Vec<String>)
    ensures
        texts(r@) == texts(v@),
{
    let r = v.clone();
    assert(r@ =~= v@);
    r
}

fn is_open(r: &ItemRow, at: Option<&str>, skip_drafts: bool) -> (b: bool)
    ensures
        b == item_open(*r, opt_str(at), skip_drafts),
{
    if skip_drafts && r.is_draft {
        return false;
    }
    match at {
        None => text_equal(r.state.as_str(), "open"),
        Some(a) => text_leq(r.created_at.as_str(), a) && match &r.closed_at {
            None => true,
            Some(c) => text_less(a, c.as_str()),
        },
    }
}

fn is_closed(r: &ItemRow, since: &str, at: Option<&str>, skip_drafts: bool) -> (b: bool)
    ensures
        b == item_closed(*r, since@, opt_str(at), skip_drafts),
{
    if skip_drafts && r.is_draft {
        return false;
    }
    match &r.closed_at {
        None => false,
        Some(c) => text_leq(since, c.as_str()) && match at {
            None => text_equal(r.state.as_str(), "closed"),
            Some(a) => text_leq(c.as_str(), a),
        },
    }
}

/// An optional text slice as characters.
pub open spec fn opt_str(o: Option<&str>) -> Option<Seq<char>> {
    match o {
        Some(s) => Some(s@),
        None => None,
    }
}

fn open_items_of(rows: &Vec<ItemRow>, at: Option<&str>, skip_drafts: bool) -> (r: Vec<OpenItem>)
    ensures
        r@.map_values(|x: OpenItem| open_item_view(x)) == open_rows(rows@, opt_str(at), skip_drafts),
{
    let mut r: Vec<OpenItem> = Vec::new();
    let mut i: usize = 0;
    while i < rows.len()
        invariant
            i <= rows@.len(),
            r@.map_values(|x: OpenItem| open_item_view(x)) == open_rows(
                rows@.take(i as int),
                opt_str(at),
                skip_drafts,
            ),
        decreases rows.len() - i,
    {
        proof {
            assert(rows@.take(i + 1).drop_last() == rows@.take(i as int));
            assert(rows@.take(i + 1).last() == rows@[i as int]);
        }
        let row = &rows[i];
        if is_open(row, at, skip_drafts) {
            let item = OpenItem {
                created_at: row.created_at.clone(),
                issue_type: clone_opt(&row.issue_type),
                labels: clone_texts(&row.labels),
            };
            let ghost before = r@;
            r.push(item);
            assert(r@.map_values(|x: OpenItem| open_item_view(x)) =~= before.map_values(
                |x: OpenItem| open_item_view(x),
            ).push(open_item_view(item)));
        }
        i += 1;
    }
    assert(rows@.take(rows@.len() as int) == rows@);
    r
}

fn closed_items_of(rows: &Vec<ItemRow>, since: &str, at: Option<&str>, skip_drafts: bool) -> (r: Vec<
    ClosedItem,
>)
    ensures
        r@.map_values(|x: ClosedItem| closed_item_view(x)) == closed_rows(
            rows@,
            since@,
            opt_str(at),
            skip_drafts,
        ),
{
    let mut r: Vec<ClosedItem> = Vec::new();
    let mut i: usize = 0;
    while i < rows.len()
        invariant
            i <= rows@.len(),
            r@.map_values(|x: ClosedItem| closed_item_view(x)) == closed_rows(
                rows@.take(i as int),
                since@,
                opt_str(at),
                skip_drafts,
            ),
        decreases rows.len() - i,
    {
        proof {
            assert(rows@.take(i + 1).drop_last() == rows@.take(i as int));
            assert(rows@.take(i + 1).last() == rows@[i as int]);
        }
        let row = &rows[i];
        if is_closed(row, since, at, skip_drafts) {
            let item = ClosedItem {
                issue_type: clone_opt(&row.issue_type),
                labels: clone_texts(&row.labels),
            };
            let ghost before = r@;
            r.push(item);
            assert(r@.map_values(|x: ClosedItem| closed_item_view(x)) =~= before.map_values(
                |x: ClosedItem| closed_item_view(x),
            ).push(closed_item_view(item)));
        }
        i += 1;
    }
    assert(rows@.take(rows@.len() as int) == rows@);
    r
}

fn is_open_discussion(d: &DiscussionRow, at: Option<&str>) -> (b: bool)
    ensures
        b == discussion_open(*d, opt_str(at)),
{
    match at {
        None => !d.closed,
        Some(a) => text_leq(d.created_at.as_str(), a) && match &d.closed_at {
            None => true,
            Some(c) => text_less(a, c.as_str()),
        },
    }
}

fn is_closed_discussion(d: &DiscussionRow, since: &str, at: Option<&str>) -> (b: bool)
    ensures
        b == discussion_closed(*d, since@, opt_str(at)),
{
    match &d.closed_at {
        None => false,
        Some(c) => text_leq(since, c.as_str()) && match at {
            None => d.closed,
            Some(a) => text_leq(c.as_str(), a),
        },
    }
}

fn open_discussions_of(rows: &Vec<DiscussionRow>, at: Option<&str>) -> (r: Vec<OpenDiscussion>)
    ensures
        r@.map_values(|x: OpenDiscussion| open_discussion_view(x)) == open_discussion_rows(
            rows@,
            opt_str(at),
        ),
{
    let mut r: Vec<OpenDiscussion> = Vec::new();
    let mut i: usize = 0;
    while i < rows.len()
        invariant
            i <= rows@.len(),
            r@.map_values(|x: OpenDiscussion| open_discussion_view(x)) == open_discussion_rows(
                rows@.take(i as int),
                opt_str(at),
            ),
        decreases rows.len() - i,
    {
        proof {
            assert(rows@.take(i + 1).drop_last() == rows@.take(i as int));
            assert(rows@.take(i + 1).last() == rows@[i as int]);
        }
        let d = &rows[i];
        if is_open_discussion(d, at) {
            let item = OpenDiscussion {
                category: d.category.clone(),
                answered: d.answered,
                created_at: d.created_at.clone(),
            };
            let ghost before = r@;
            r.push(item);
            assert(r@.map_values(|x: OpenDiscussion| open_discussion_view(x)) =~= before.map_values(
                |x: OpenDiscussion| open_discussion_view(x),
            ).push(open_discussion_view(item)));
        }
        i += 1;
    }
    assert(rows@.take(rows@.len() as int) == rows@);
    r
}

fn closed_discussions_of(rows: &Vec<DiscussionRow>, since: &str, at: Option<&str>) -> (r: Vec<
    ClosedDiscussion,
>)
    ensures
        r@.map_values(|x: ClosedDiscussion| closed_discussion_view(x)) == closed_discussion_rows(
            rows@,
            since@,
            opt_str(at),
        ),
{
    let mut r: Vec<ClosedDiscussion> = Vec::new();
    let mut i: usize = 0;
    while i < rows.len()
        invariant
            i <= rows@.len(),
            r@.map_values(|x: ClosedDiscussion| closed_discussion_view(x)) == closed_discussion_rows(
                rows@.take(i as int),
                since@,
                opt_str(at),
            ),
        decreases rows.len() - i,
    {
        proof {
            assert(rows@.take(i + 1).drop_last() == rows@.take(i as int));
            assert(rows@.take(i + 1).last() == rows@[i as int]);
        }
        let d = &rows[i];
        if is_closed_discussion(d, since, at) {
            let item = ClosedDiscussion { category: d.category.clone(), answered: d.answered };
            let ghost before = r@;
            r.push(item);
            assert(r@.map_values(|x: ClosedDiscussion| closed_discussion_view(x)) =~= before.map_values(
                |x: ClosedDiscussion| closed_discussion_view(x),
            ).push(closed_discussion_view(item)));
        }
        i += 1;
    }
    assert(rows@.take(rows@.len() as int) == rows@);
    r
}

/// What a snapshot counts: at `at` (none: now, by the items' state), with the window of
/// closed items starting at `since`.
pub fn select_rows(rows: &RepoRows, since: &str, at: Option<&str>) -> (r: MetricRows)
    ensures
        rows_selected(r, *rows, since@, opt_str(at)),
{
    MetricRows {
        open_issues: open_items_of(&rows.issues, at, false),
        open_prs: open_items_of(&rows.prs, at, true),
        open_discussions: open_discussions_of(&rows.discussions, at),
        closed_issues: closed_items_of(&rows.issues, since, at, false),
        closed_prs: closed_items_of(&rows.prs, since, at, true),
        closed_discussions: closed_discussions_of(&rows.discussions, since, at),
    }
}


/// The seconds of a day.
pub const DAY: i64 = 86400;

/// The first UTC midnight at `start` or after it.
pub open spec fn first_midnight(start: int) -> int {
    if start % 86400 == 0 {
        start
    } else {
        start - start % 86400 + 86400
    }
}

/// The UTC midnights from `start` on and before `now`, in order.
pub open spec fn midnights(start: int, now: int) -> Seq<int> {
    let f = first_midnight(start);
    let n = if f < now {
        (now - f - 1) / 86400 + 1
    } else {
        0
    };
    Seq::new(n as nat, |k: int| f + k * 86400)
}

/// The snapshot times are exactly the UTC midnights at `start` or later and before `now`,
/// each once, in increasing order.
pub proof fn lemma_midnights_exact(start: int, now: int, x: int)
    ensures
        midnights(start, now).contains(x) <==> (x % 86400 == 0 && start <= x < now),
        forall|i: int, j: int|
            0 <= i < j < midnights(start, now).len() ==> #[trigger] midnights(start, now)[i]
                < #[trigger] midnights(start, now)[j],
{
    let f = first_midnight(start);
    let ms = midnights(start, now);
    let n = ms.len();
    assert(f % 86400 == 0 && start <= f < start + 86400) by (nonlinear_arith)
        requires
            f == (if start % 86400 == 0 {
                start
            } else {
                start - start % 86400 + 86400
            }),
    {
    }
    if ms.contains(x) {
        let k = choose|k: int| 0 <= k < ms.len() && ms[k] == x;
        assert(x == f + k * 86400);
        assert(f < now);
        assert(n == (now - f - 1) / 86400 + 1);
        assert(x % 86400 == 0 && start <= x < now) by (nonlinear_arith)
            requires
                x == f + k * 86400,
                f % 86400 == 0,
                start <= f,
                0 <= k < n,
                n == (now - f - 1) / 86400 + 1,
                f < now,
        {
        }
    }
    if x % 86400 == 0 && start <= x < now {
        assert(f <= x) by (nonlinear_arith)
            requires
                x % 86400 == 0,
                f % 86400 == 0,
                start <= x,
                start <= f < start + 86400,
        {
        }
        let k = (x - f) / 86400;
        assert(x == f + k * 86400 && 0 <= k && k < (now - f - 1) / 86400 + 1) by (nonlinear_arith)
            requires
                x % 86400 == 0,
                f % 86400 == 0,
                f <= x < now,
                k == (x - f) / 86400,
        {
        }
        assert(ms[k] == x);
    }
    assert forall|i: int, j: int| 0 <= i < j < n implies #[trigger] ms[i] < #[trigger] ms[j] by {
        assert(ms[i] == f + i * 86400 && ms[j] == f + j * 86400);
        assert(f + i * 86400 < f + j * 86400) by (nonlinear_arith)
            requires
                i < j,
        {
        }
    }
}

/// The UTC midnights from `start` on and before `now`, in order.
pub fn history_midnights(start: i64, now: i64) -> (r: Vec<i64>)
    ensures
        r@.map_values(|m: i64| m as int) == midnights(start as int, now as int),
{
    let shift: i128 = 86400 * 106751991167301;
    let s: i128 = start as i128 + shift;
    let q: i128 = (s + 86399) / 86400;
    let mut m: i128 = q * 86400 - shift;
    assert(m == first_midnight(start as int)) by (nonlinear_arith)
        requires
            shift == 86400 * 106751991167301,
            s == start + shift,
            s >= 0,
            q == (s + 86399) / 86400,
            m == q * 86400 - shift,
    {
    }
    let ghost f = m as int;
    let mut r: Vec<i64> = Vec::new();
    while m < now as i128
        invariant
            f == first_midnight(start as int),
            m == f + r@.len() * 86400,
            f >= start,
            f - 86400 < start,
            r@.len() > 0 ==> m - 86400 < now,
            r@.map_values(|x: i64| x as int) == Seq::new(r@.len(), |k: int| f + k * 86400),
        decreases now as int + 86400 - m as int,
    {
        let ghost before = r@;
        let x = m as i64;
        assert(x as int == m);
        r.push(x);
        assert(r@ == before.push(x));
        assert forall|k: int| 0 <= k < r@.len() implies #[trigger] r@[k] as int == f + k * 86400 by {
            if k < before.len() {
                assert(r@[k] == before[k]);
                assert(before.map_values(|x: i64| x as int)[k] == f + k * 86400);
            }
        }
        assert(r@.map_values(|x: i64| x as int) =~= Seq::new(r@.len(), |k: int| f + k * 86400));
        m = m + 86400;
    }
    proof {
        let n = r@.len() as int;
        if f < now {
            assert(n > 0);
            assert((now - f - 1) / 86400 + 1 == n) by (nonlinear_arith)
                requires
                    f + (n - 1) * 86400 < now,
                    now <= f + n * 86400,
                    n > 0,
            {
            }
        } else {
            assert(n == 0);
        }
        assert(r@.map_values(|x: i64| x as int) =~= midnights(start as int, now as int));
    }
    r
}


proof fn lemma_open_discussions_filter(
    rows: Seq<DiscussionRow>,
    at: Option<Seq<char>>,
    keep: spec_fn(DiscussionRow) -> bool,
)
    requires
        forall|d: DiscussionRow| #[trigger] keep(d) == discussion_open(d, at),
    ensures
        open_discussion_rows(rows, at) == rows.filter(keep).map_values(
            |d: DiscussionRow| (d.category@, d.answered, d.created_at@),
        ),
    decreases rows.len(),
{
    reveal(Seq::filter);
    if rows.len() > 0 {
        lemma_open_discussions_filter(rows.drop_last(), at, keep);
        let d = rows.last();
        let before = rows.drop_last().filter(keep);
        if keep(d) {
            assert(rows.filter(keep) == before.push(d));
            assert(before.push(d).map_values(
                |d: DiscussionRow| (d.category@, d.answered, d.created_at@),
            ) =~= before.map_values(|d: DiscussionRow| (d.category@, d.answered, d.created_at@)).push(
                (d.category@, d.answered, d.created_at@),
            ));
        }
    }
}

proof fn lemma_closed_discussions_filter(
    rows: Seq<DiscussionRow>,
    since: Seq<char>,
    at: Option<Seq<char>>,
    keep: spec_fn(DiscussionRow) -> bool,
)
    requires
        forall|d: DiscussionRow| #[trigger] keep(d) == discussion_closed(d, since, at),
    ensures
        closed_discussion_rows(rows, since, at) == rows.filter(keep).map_values(
            |d: DiscussionRow| (d.category@, d.answered),
        ),
    decreases rows.len(),
{
    reveal(Seq::filter);
    if rows.len() > 0 {
        lemma_closed_discussions_filter(rows.drop_last(), since, at, keep);
        let d = rows.last();
        let before = rows.drop_last().filter(keep);
        if keep(d) {
            assert(rows.filter(keep) == before.push(d));
            assert(before.push(d).map_values(|d: DiscussionRow| (d.category@, d.answered))
                =~= before.map_values(|d: DiscussionRow| (d.category@, d.answered)).push(
                (d.category@, d.answered),
            ));
        }
    }
}

/// In the current snapshot (no time given) the open discussions are exactly those not
/// closed, in their order, whether answered or not; the discussions closed in the window
/// are exactly those closed, with a closing time at `since` or later.
pub proof fn lemma_current_snapshot_discussions(m: MetricRows, rows: RepoRows, since: Seq<char>)
    requires
        rows_selected(m, rows, since, None),
    ensures
        m.open_discussions@.map_values(|x: OpenDiscussion| open_discussion_view(x))
            == rows.discussions@.filter(|d: DiscussionRow| !d.closed).map_values(
            |d: DiscussionRow| (d.category@, d.answered, d.created_at@),
        ),
        m.closed_discussions@.map_values(|x: ClosedDiscussion| closed_discussion_view(x))
            == rows.discussions@.filter(
            |d: DiscussionRow|
                d.closed && match d.closed_at {
                    Some(c) => seq_leq(since, c@),
                    None => false,
                },
        ).map_values(|d: DiscussionRow| (d.category@, d.answered)),
{
    lemma_open_discussions_filter(rows.discussions@, None, |d: DiscussionRow| !d.closed);
    lemma_closed_discussions_filter(
        rows.discussions@,
        since,
        None,
        |d: DiscussionRow|
            d.closed && match d.closed_at {
                Some(c) => seq_leq(since, c@),
                None => false,
            },
    );
}

proof fn lemma_open_items_filter(
    rows: Seq<ItemRow>,
    at: Option<Seq<char>>,
    skip_drafts: bool,
    keep: spec_fn(ItemRow) -> bool,
)
    requires
        forall|r: ItemRow| #[trigger] keep(r) == item_open(r, at, skip_drafts),
    ensures
        open_rows(rows, at, skip_drafts) == rows.filter(keep).map_values(
            |r: ItemRow| (r.created_at@, opt_text(r.issue_type), texts(r.labels@)),
        ),
    decreases rows.len(),
{
    reveal(Seq::filter);
    if rows.len() > 0 {
        lemma_open_items_filter(rows.drop_last(), at, skip_drafts, keep);
        let r = rows.last();
        let before = rows.drop_last().filter(keep);
        if keep(r) {
            assert(rows.filter(keep) == before.push(r));
            assert(before.push(r).map_values(
                |r: ItemRow| (r.created_at@, opt_text(r.issue_type), texts(r.labels@)),
            ) =~= before.map_values(
                |r: ItemRow| (r.created_at@, opt_text(r.issue_type), texts(r.labels@)),
            ).push((r.created_at@, opt_text(r.issue_type), texts(r.labels@))));
        }
    }
}

proof fn lemma_closed_items_filter(
    rows: Seq<ItemRow>,
    since: Seq<char>,
    at: Option<Seq<char>>,
    skip_drafts: bool,
    keep: spec_fn(ItemRow) -> bool,
)
    requires
        forall|r: ItemRow| #[trigger] keep(r) == item_closed(r, since, at, skip_drafts),
    ensures
        closed_rows(rows, since, at, skip_drafts) == rows.filter(keep).map_values(
            |r: ItemRow| (opt_text(r.issue_type), texts(r.labels@)),
        ),
    decreases rows.len(),
{
    reveal(Seq::filter);
    if rows.len() > 0 {
        lemma_closed_items_filter(rows.drop_last(), since, at, skip_drafts, keep);
        let r = rows.last();
        let before = rows.drop_last().filter(keep);
        if keep(r) {
            assert(rows.filter(keep) == before.push(r));
            assert(before.push(r).map_values(|r: ItemRow| (opt_text(r.issue_type), texts(r.labels@)))
                =~= before.map_values(|r: ItemRow| (opt_text(r.issue_type), texts(r.labels@))).push(
                (opt_text(r.issue_type), texts(r.labels@)),
            ));
        }
    }
}

/// In the current snapshot (no time given) the open issues are exactly those in state
/// `open`, and the open pull requests those in state `open` that are not drafts; the
/// closed ones counted are those in state `closed` with a closing time at `since` or
/// later (again without drafts among pull requests). Order is kept.
pub proof fn lemma_current_snapshot_items(m: MetricRows, rows: RepoRows, since: Seq<char>)
    requires
        rows_selected(m, rows, since, None),
    ensures
        m.open_issues@.map_values(|x: OpenItem| open_item_view(x)) == rows.issues@.filter(
            |r: ItemRow| r.state@ == "open"@,
        ).map_values(|r: ItemRow| (r.created_at@, opt_text(r.issue_type), texts(r.labels@))),
        m.open_prs@.map_values(|x: OpenItem| open_item_view(x)) == rows.prs@.filter(
            |r: ItemRow| !r.is_draft && r.state@ == "open"@,
        ).map_values(|r: ItemRow| (r.created_at@, opt_text(r.issue_type), texts(r.labels@))),
        m.closed_issues@.map_values(|x: ClosedItem| closed_item_view(x)) == rows.issues@.filter(
            |r: ItemRow|
                r.state@ == "closed"@ && match r.closed_at {
                    Some(c) => seq_leq(since, c@),
                    None => false,
                },
        ).map_values(|r: ItemRow| (opt_text(r.issue_type), texts(r.labels@))),
        m.closed_prs@.map_values(|x: ClosedItem| closed_item_view(x)) == rows.prs@.filter(
            |r: ItemRow|
                !r.is_draft && r.state@ == "closed"@ && match r.closed_at {
                    Some(c) => seq_leq(since, c@),
                    None => false,
                },
        ).map_values(|r: ItemRow| (opt_text(r.issue_type), texts(r.labels@))),
{
    lemma_open_items_filter(rows.issues@, None, false, |r: ItemRow| r.state@ == "open"@);
    lemma_open_items_filter(
        rows.prs@,
        None,
        true,
        |r: ItemRow| !r.is_draft && r.state@ == "open"@,
    );
    lemma_closed_items_filter(
        rows.issues@,
        since,
        None,
        false,
        |r: ItemRow|
            r.state@ == "closed"@ && match r.closed_at {
                Some(c) => seq_leq(since, c@),
                None => false,
            },
    );
    lemma_closed_items_filter(
        rows.prs@,
        since,
        None,
        true,
        |r: ItemRow|
            !r.is_draft && r.state@ == "closed"@ && match r.closed_at {
                Some(c) => seq_leq(since, c@),
                None => false,
            },
    );
}

/// At a past snapshot time `a` (timestamps compared as text) an issue, pull request or
/// discussion counts as open exactly when it was created at `a` or before and not closed
/// by then (closed after `a`, or never), whatever its state now; one counts as closed in
/// the window exactly when it was closed at `since` or later and at `a` or before. Draft
/// pull requests are left out. Order is kept.
pub proof fn lemma_past_snapshot(m: MetricRows, rows: RepoRows, since: Seq<char>, a: Seq<char>)
    requires
        rows_selected(m, rows, since, Some(a)),
    ensures
        m.open_issues@.map_values(|x: OpenItem| open_item_view(x)) == rows.issues@.filter(
            |r: ItemRow|
                seq_leq(r.created_at@, a) && match r.closed_at {
                    None => true,
                    Some(c) => seq_less(a, c@),
                },
        ).map_values(|r: ItemRow| (r.created_at@, opt_text(r.issue_type), texts(r.labels@))),
        m.open_prs@.map_values(|x: OpenItem| open_item_view(x)) == rows.prs@.filter(
            |r: ItemRow|
                !r.is_draft && seq_leq(r.created_at@, a) && match r.closed_at {
                    None => true,
                    Some(c) => seq_less(a, c@),
                },
        ).map_values(|r: ItemRow| (r.created_at@, opt_text(r.issue_type), texts(r.labels@))),
        m.open_discussions@.map_values(|x: OpenDiscussion| open_discussion_view(x))
            == rows.discussions@.filter(
            |d: DiscussionRow|
                seq_leq(d.created_at@, a) && match d.closed_at {
                    None => true,
                    Some(c) => seq_less(a, c@),
                },
        ).map_values(|d: DiscussionRow| (d.category@, d.answered, d.created_at@)),
        m.closed_issues@.map_values(|x: ClosedItem| closed_item_view(x)) == rows.issues@.filter(
            |r: ItemRow|
                match r.closed_at {
                    None => false,
                    Some(c) => seq_leq(since, c@) && seq_leq(c@, a),
                },
        ).map_values(|r: ItemRow| (opt_text(r.issue_type), texts(r.labels@))),
        m.closed_prs@.map_values(|x: ClosedItem| closed_item_view(x)) == rows.prs@.filter(
            |r: ItemRow|
                !r.is_draft && match r.closed_at {
                    None => false,
                    Some(c) => seq_leq(since, c@) && seq_leq(c@, a),
                },
        ).map_values(|r: ItemRow| (opt_text(r.issue_type), texts(r.labels@))),
        m.closed_discussions@.map_values(|x: ClosedDiscussion| closed_discussion_view(x))
            == rows.discussions@.filter(
            |d: DiscussionRow|
                match d.closed_at {
                    None => false,
                    Some(c) => seq_leq(since, c@) && seq_leq(c@, a),
                },
        ).map_values(|d: DiscussionRow| (d.category@, d.answered)),
{
    lemma_open_items_filter(
        rows.issues@,
        Some(a),
        false,
        |r: ItemRow|
            seq_leq(r.created_at@, a) && match r.closed_at {
                None => true,
                Some(c) => seq_less(a, c@),
            },
    );
    lemma_open_items_filter(
        rows.prs@,
        Some(a),
        true,
        |r: ItemRow|
            !r.is_draft && seq_leq(r.created_at@, a) && match r.closed_at {
                None => true,
                Some(c) => seq_less(a, c@),
            },
    );
    lemma_open_discussions_filter(
        rows.discussions@,
        Some(a),
        |d: DiscussionRow|
            seq_leq(d.created_at@, a) && match d.closed_at {
                None => true,
                Some(c) => seq_less(a, c@),
            },
    );
    lemma_closed_items_filter(
        rows.issues@,
        since,
        Some(a),
        false,
        |r: ItemRow|
            match r.closed_at {
                None => false,
                Some(c) => seq_leq(since, c@) && seq_leq(c@, a),
            },
    );
    lemma_closed_items_filter(
        rows.prs@,
        since,
        Some(a),
        true,
        |r: ItemRow|
            !r.is_draft && match r.closed_at {
                None => false,
                Some(c) => seq_leq(since, c@) && seq_leq(c@, a),
            },
    );
    lemma_closed_discussions_filter(
        rows.discussions@,
        since,
        Some(a),
        |d: DiscussionRow|
            match d.closed_at {
                None => false,
                Some(c) => seq_leq(since, c@) && seq_leq(c@, a),
            },
    );
}

proof fn lemma_open_rows_len(rows: Seq<ItemRow>, at: Option<Seq<char>>, skip: bool)
    ensures
        open_rows(rows, at, skip).len() <= rows.len(),
    decreases rows.len(),
{
    if rows.len() > 0 {
        lemma_open_rows_len(rows.drop_last(), at, skip);
    }
}

proof fn lemma_closed_rows_len(rows: Seq<ItemRow>, since: Seq<char>, at: Option<Seq<char>>, skip: bool)
    ensures
        closed_rows(rows, since, at, skip).len() <= rows.len(),
    decreases rows.len(),
{
    if rows.len() > 0 {
        lemma_closed_rows_len(rows.drop_last(), since, at, skip);
    }
}

proof fn lemma_discussion_rows_len(rows: Seq<DiscussionRow>, since: Seq<char>, at: Option<Seq<char>>)
    ensures
        open_discussion_rows(rows, at).len() <= rows.len(),
        closed_discussion_rows(rows, since, at).len() <= rows.len(),
    decreases rows.len(),
{
    if rows.len() > 0 {
        lemma_discussion_rows_len(rows.drop_last(), since, at);
    }
}

/// Why the snapshots could not be made.
#[derive(Clone, Copy, PartialEq, Eq, Debug, Structural)]
pub enum HistoryError {
    /// The activity window does not parse, or names a date that cannot be computed.
    Window(SinceError),
    /// The history does not parse, or names a date that cannot be computed.
    History(SinceError),
    /// The start of the history is not a date and time.
    UnreadableStart,
    /// A snapshot time has no calendar date.
    OutOfCalendar,
}

impl HistoryError {
    pub open spec fn message_spec(&self) -> Seq<char> {
        match self {
            HistoryError::Window(e) => "activity window: "@ + e.message_spec(),
            HistoryError::History(e) => "history: "@ + e.message_spec(),
            HistoryError::UnreadableStart => "history start is not a date and time"@,
            HistoryError::OutOfCalendar => "snapshot time out of the calendar"@,
        }
    }

    /// The message the command line shows for this error.
    pub fn message(&self) -> (r: String)
        ensures
            r@ == self.message_spec(),
    {
        let mut v = match self {
            HistoryError::Window(e) => {
                let mut v = chars_of("activity window: ");
                crate::text::push_str(&mut v, e.message().as_str());
                v
            },
            HistoryError::History(e) => {
                let mut v = chars_of("history: ");
                crate::text::push_str(&mut v, e.message().as_str());
                v
            },
            HistoryError::UnreadableStart => chars_of("history start is not a date and time"),
            HistoryError::OutOfCalendar => chars_of("snapshot time out of the calendar"),
        };
        crate::text::string_of(&v)
    }
}

/// How snapshot times are written, to compare with the items' timestamps.
pub open spec fn time_format() -> Seq<char> {
    "%Y-%m-%dT%H:%M:%SZ"@
}

/// What stops the snapshot at midnight `t`, if anything.
pub open spec fn midnight_error(window: &str, t: i64) -> Option<HistoryError> {
    match utc_year_month(t) {
        None => Some(HistoryError::OutOfCalendar),
        Some(ym) => match utc_formatted(t, time_format()) {
            None => Some(HistoryError::OutOfCalendar),
            Some(_) => match since_spec(window, t, ym.0, ym.1) {
                Err(e) => Some(HistoryError::Window(e)),
                Ok(_) => None,
            },
        },
    }
}

/// The first midnight of `ms` whose snapshot cannot be made, and why.
pub open spec fn first_midnight_error(window: &str, ms: Seq<int>) -> Option<HistoryError>
    decreases ms.len(),
{
    if ms.len() == 0 {
        None
    } else {
        match midnight_error(window, ms[0] as i64) {
            Some(e) => Some(e),
            None => first_midnight_error(window, ms.drop_first()),
        }
    }
}

/// The start of the history, in seconds.
pub open spec fn history_start(history: &str, now: i64, year: i32, month: u32) -> Result<i64, HistoryError> {
    match since_spec(history, now, year, month) {
        Err(e) => Err(HistoryError::History(e)),
        Ok(text) => match rfc3339_seconds(text) {
            None => Err(HistoryError::UnreadableStart),
            Some(t) => Ok(t),
        },
    }
}

/// Why the snapshots cannot be made, checked in this order: the history, the window now,
/// then each midnight in turn; none when they all can.
pub open spec fn history_error(window: &str, history: &str, now: i64, year: i32, month: u32) -> Option<HistoryError> {
    match history_start(history, now, year, month) {
        Err(e) => Some(e),
        Ok(start) => match since_spec(window, now, year, month) {
            Err(e) => Some(HistoryError::Window(e)),
            Ok(_) => first_midnight_error(window, midnights(start as int, now as int)),
        },
    }
}

/// A snapshot: its time, what it counts, and the gauges of those rows.
pub struct Snapshot {
    pub at: i64,
    pub rows: MetricRows,
    pub series: Vec<MetricSeries>,
}

/// Whether a snapshot counts the rows that the time `at` (none: now) and the window
/// starting at `since` select, and holds their gauges as `collect_metrics` gives them.
pub open spec fn snapshot_holds(
    sn: Snapshot,
    rows: RepoRows,
    config: Config,
    prefix: Seq<char>,
    window: Seq<char>,
    since: Seq<char>,
    at: Option<Seq<char>>,
) -> bool {
    &&& rows_selected(sn.rows, rows, since, at)
    &&& metrics_spec(
        sn.series@,
        metric_kinds(config.org@, config.repo@, prefix, window, sn.at, sn.rows),
        sn.at,
    )
}

/// Whether `sn` is the snapshot at midnight `t`.
pub open spec fn midnight_snapshot(
    sn: Snapshot,
    t: int,
    rows: RepoRows,
    config: Config,
    prefix: Seq<char>,
    window: &str,
) -> bool {
    let ym = utc_year_month(t as i64)->0;
    &&& sn.at == t
    &&& snapshot_holds(
        sn,
        rows,
        config,
        prefix,
        window@,
        since_spec(window, t as i64, ym.0, ym.1)->Ok_0,
        Some(utc_formatted(t as i64, time_format())->0),
    )
}

fn snapshot(
    rows: &RepoRows,
    config: &Config,
    prefix: &str,
    window: &str,
    since: &str,
    at: Option<&str>,
    t: i64,
) -> (sn: Snapshot)
    requires
        rows.issues@.len() <= i64::MAX,
        rows.prs@.len() <= i64::MAX,
        rows.discussions@.len() <= i64::MAX,
    ensures
        sn.at == t,
        snapshot_holds(sn, *rows, *config, prefix@, window@, since@, opt_str(at)),
{
    let picked = select_rows(rows, since, at);
    proof {
        lemma_open_rows_len(rows.issues@, opt_str(at), false);
        lemma_open_rows_len(rows.prs@, opt_str(at), true);
        lemma_closed_rows_len(rows.issues@, since@, opt_str(at), false);
        lemma_closed_rows_len(rows.prs@, since@, opt_str(at), true);
        lemma_discussion_rows_len(rows.discussions@, since@, opt_str(at));
        assert(picked.open_issues@.len() == picked.open_issues@.map_values(|x: OpenItem| open_item_view(x)).len());
        assert(picked.open_prs@.len() == picked.open_prs@.map_values(|x: OpenItem| open_item_view(x)).len());
        assert(picked.closed_issues@.len() == picked.closed_issues@.map_values(|x: ClosedItem| closed_item_view(x)).len());
        assert(picked.closed_prs@.len() == picked.closed_prs@.map_values(|x: ClosedItem| closed_item_view(x)).len());
        assert(picked.open_discussions@.len() == picked.open_discussions@.map_values(|x: OpenDiscussion| open_discussion_view(x)).len());
        assert(picked.closed_discussions@.len() == picked.closed_discussions@.map_values(|x: ClosedDiscussion| closed_discussion_view(x)).len());
    }
    let series = collect_metrics(config, prefix, window, t, &picked);
    Snapshot { at: t, rows: picked, series }
}

/// The snapshots of a repository: one at each UTC midnight from the start of `history`
/// on, in order, each counting what was open then and what was closed in the window
/// `window` ending then, and last the current one, counting the items by their state.
pub fn collect_history(
    rows: &RepoRows,
    config: &Config,
    prefix: &str,
    window: &str,
    history: &str,
    now: i64,
    year: i32,
    month: u32,
) -> (r: Result<Vec<Snapshot>, HistoryError>)
    requires
        1 <= month <= 12,
        rows.issues@.len() <= i64::MAX,
        rows.prs@.len() <= i64::MAX,
        rows.discussions@.len() <= i64::MAX,
    ensures
        match r {
            Err(e) => history_error(window, history, now, year, month) == Some(e),
            Ok(v) => {
                let start = history_start(history, now, year, month)->Ok_0;
                let ms = midnights(start as int, now as int);
                &&& history_error(window, history, now, year, month) is None
                &&& v@.len() == ms.len() + 1
                &&& forall|k: int|
                    0 <= k < ms.len() ==> midnight_snapshot(
                        #[trigger] v@[k],
                        ms[k],
                        *rows,
                        *config,
                        prefix@,
                        window,
                    )
                &&& v@[ms.len() as int].at == now
                &&& snapshot_holds(
                    v@[ms.len() as int],
                    *rows,
                    *config,
                    prefix@,
                    window@,
                    since_spec(window, now, year, month)->Ok_0,
                    None,
                )
            },
        },
{
    let start_text = match parse_since_at(history, now, year, month) {
        Err(e) => return Err(HistoryError::History(e)),
        Ok(t) => t,
    };
    let start = match parse_rfc3339_seconds(start_text.as_str()) {
        None => return Err(HistoryError::UnreadableStart),
        Some(t) => t,
    };
    let since_now = match parse_since_at(window, now, year, month) {
        Err(e) => return Err(HistoryError::Window(e)),
        Ok(t) => t,
    };
    let times = history_midnights(start, now);
    let ghost ms = midnights(start as int, now as int);
    let mut out: Vec<Snapshot> = Vec::new();
    let mut k: usize = 0;
    assert(ms.skip(0) =~= ms);
    assert(times@.len() == ms.len());
    while k < times.len()
        invariant
            k <= times@.len(),
            times@.map_values(|m: i64| m as int) == ms,
            ms == midnights(start as int, now as int),
            history_start(history, now, year, month) == Ok::<i64, HistoryError>(start),
            since_spec(window, now, year, month) is Ok,
            rows.issues@.len() <= i64::MAX,
            rows.prs@.len() <= i64::MAX,
            rows.discussions@.len() <= i64::MAX,
            out@.len() == k,
            first_midnight_error(window, ms) == first_midnight_error(window, ms.skip(k as int)),
            forall|j: int| 0 <= j < k ==> midnight_snapshot(#[trigger] out@[j], ms[j], *rows, *config, prefix@, window),
        decreases times.len() - k,
    {
        let t = times[k];
        assert(ms[k as int] == t as int);
        proof {
            assert(ms.skip(k as int)[0] == ms[k as int]);
            assert(ms.skip(k as int).drop_first() =~= ms.skip(k + 1));
        }
        let ym = match year_month_of(t) {
            None => return Err(HistoryError::OutOfCalendar),
            Some(ym) => ym,
        };
        let at = match format_utc(t, "%Y-%m-%dT%H:%M:%SZ") {
            None => return Err(HistoryError::OutOfCalendar),
            Some(a) => a,
        };
        let since = match parse_since_at(window, t, ym.0, ym.1) {
            Err(e) => return Err(HistoryError::Window(e)),
            Ok(s) => s,
        };
        let sn = snapshot(rows, config, prefix, window, since.as_str(), Some(at.as_str()), t);
        out.push(sn);
        proof {
            assert forall|j: int| 0 <= j < k + 1 implies midnight_snapshot(#[trigger] out@[j], ms[j], *rows, *config, prefix@, window) by {
                if j < k {
                }
            }
        }
        k += 1;
    }
    proof {
        assert(ms.skip(times@.len() as int) =~= Seq::<int>::empty());
        assert(times@.len() == ms.len());
    }
    let current = snapshot(rows, config, prefix, window, since_now.as_str(), None, now);
    out.push(current);
    Ok(out)
}

} // verus!
