//! Which open pull requests are closed for inactivity: those older than six months that
//! wait for their author. Fetching, commenting and closing are the caller's.
use crate::sorting::texts;
use crate::text::{chars_of, push_all, push_str, string_of, text_equal, u64_decimal, decimal};
use crate::time::{parse_utc_seconds, utc_text_seconds};
use vstd::prelude::*;

verus! {

/// Six months of thirty days, in seconds.
pub const INACTIVITY_SECONDS: i64 = 15552000;

/// The label of pull requests that wait for their author.
pub open spec fn awaiting_label() -> Seq<char> {
    "meta: awaiting author"@
}

/// An open pull request as the listing gives it.
pub struct OpenPr {
    pub number: u64,
    pub title: String,
    pub created_at: String,
    pub labels: Vec<String>,
}

/// When a pull request was created: its `created_at` read as a UTC date and time, or
/// `now` if it cannot be read.
pub open spec fn pr_created(pr: OpenPr, now: i64) -> i64 {
    match utc_text_seconds(pr.created_at@) {
        Some(t) => t,
        None => now,
    }
}

/// Whether a pull request is closed: created before `cutoff` and labelled as waiting for
/// its author.
pub open spec fn is_stale(pr: OpenPr, now: i64, cutoff: i64) -> bool {
    pr_created(pr, now) < cutoff && texts(pr.labels@).contains(awaiting_label())
}

/// The pull requests to close, in order, each as number, title and creation time.
pub open spec fn stale_spec(prs: Seq<OpenPr>, now: i64, cutoff: i64) -> Seq<(u64, Seq<char>, i64)>
    decreases prs.len(),
{
    if prs.len() == 0 {
        Seq::empty()
    } else {
        let before = stale_spec(prs.drop_last(), now, cutoff);
        let pr = prs.last();
        if is_stale(pr, now, cutoff) {
            before.push((pr.number, pr.title@, pr_created(pr, now)))
        } else {
            before
        }
    }
}

/// The matches as number, title text and creation time.
pub open spec fn matches_text(m: Seq<(u64, String, i64)>) -> Seq<(u64, Seq<char>, i64)> {
    m.map_values(|x: (u64, String, i64)| (x.0, x.1@, x.2))
}

fn has_awaiting_label(labels: &Vec<String>) -> (r: bool)
    ensures
        r == texts(labels@).contains(awaiting_label()),
{
    let mut i: usize = 0;
    while i < labels.len()
        invariant
            i <= labels@.len(),
            forall|j: int| 0 <= j < i ==> labels@[j]@ != awaiting_label(),
        decreases labels.len() - i,
    {
        if text_equal(labels[i].as_str(), "meta: awaiting author") {
            assert(texts(labels@)[i as int] == awaiting_label());
            return true;
        }
        i += 1;
    }
    proof {
        if texts(labels@).contains(awaiting_label()) {
            let j = choose|j: int| 0 <= j < texts(labels@).len() && texts(labels@)[j] == awaiting_label();
            assert(labels@[j]@ == awaiting_label());
        }
    }
    false
}

/// The pull requests to close: those created more than six months before `now` that
/// wait for their author, in order.
pub fn stale_prs(prs: &[OpenPr], now: i64) -> (r: Vec<(u64, String, i64)>)
    requires
        now >= i64::MIN + INACTIVITY_SECONDS,
    ensures
        matches_text(r@) == stale_spec(prs@, now, (now - INACTIVITY_SECONDS) as i64),
        matches_text(r@) == stale_spec(prs@, now, (now - 180 * 86400) as i64),
{
    let cutoff = now - INACTIVITY_SECONDS;
    let mut r: Vec<(u64, String, i64)> = Vec::new();
    let mut i: usize = 0;
    while i < prs.len()
        invariant
            i <= prs@.len(),
            cutoff == now - INACTIVITY_SECONDS,
            matches_text(r@) == stale_spec(prs@.take(i as int), now, cutoff),
        decreases prs.len() - i,
    {
        proof {
            assert(prs@.take(i + 1).drop_last() == prs@.take(i as int));
        }
        let pr = &prs[i];
        let created = match parse_utc_seconds(pr.created_at.as_str()) {
            Some(t) => t,
            None => now,
        };
        if created < cutoff && has_awaiting_label(&pr.labels) {
            let ghost prev = r@;
            let item = (pr.number, pr.title.clone(), created);
            let ghost gi = item;
            r.push(item);
            assert(matches_text(r@) =~= matches_text(prev).push((gi.0, gi.1@, gi.2)));
        }
        i += 1;
    }
    assert(prs@.take(prs@.len() as int) == prs@);
    r
}

/// The comment left on a pull request closed for inactivity.
pub open spec fn close_comment_spec() -> Seq<char> {
    "Thank you for your contribution to Vector! To keep the repository tidy and focused, we are closing this PR due to inactivity. We greatly appreciate the time and effort you've put into this PR. If you'd like to continue working on it, we encourage you to re-open the PR and we would be delighted to review it again. Before re-opening, please git merge origin master to resolve any conflicts with origin/master."@
}

/// The comment left on a pull request closed for inactivity.
pub fn close_comment() -> (r: String)
    ensures
        r@ == close_comment_spec(),
{
    String::from_str(
        "Thank you for your contribution to Vector! To keep the repository tidy and focused, we are closing this PR due to inactivity. We greatly appreciate the time and effort you've put into this PR. If you'd like to continue working on it, we encourage you to re-open the PR and we would be delighted to review it again. Before re-opening, please git merge origin master to resolve any conflicts with origin/master.",
    )
}

/// The question asked before closing `n` pull requests.
pub fn close_prompt(n: u64) -> (r: String)
    ensures
        r@ == "Close "@ + decimal(n as nat) + " PR(s)?"@,
{
    let mut v = chars_of("Close ");
    let d = u64_decimal(n);
    push_all(&mut v, &d);
    push_str(&mut v, " PR(s)?");
    string_of(&v)
}


proof fn lemma_stale_source(prs: Seq<OpenPr>, now: i64, cutoff: i64, k: int) -> (i: int)
    requires
        0 <= k < stale_spec(prs, now, cutoff).len(),
    ensures
        0 <= i < prs.len(),
        is_stale(prs[i], now, cutoff),
        stale_spec(prs, now, cutoff)[k] == (prs[i].number, prs[i].title@, pr_created(prs[i], now)),
    decreases prs.len(),
{
    let init = prs.drop_last();
    if k < stale_spec(init, now, cutoff).len() {
        let i = lemma_stale_source(init, now, cutoff, k);
        assert(prs[i] == init[i]);
        i
    } else {
        prs.len() - 1
    }
}

proof fn lemma_stale_target(prs: Seq<OpenPr>, now: i64, cutoff: i64, i: int)
    requires
        0 <= i < prs.len(),
        is_stale(prs[i], now, cutoff),
    ensures
        stale_spec(prs, now, cutoff).contains((prs[i].number, prs[i].title@, pr_created(prs[i], now))),
    decreases prs.len(),
{
    let init = prs.drop_last();
    let x = (prs[i].number, prs[i].title@, pr_created(prs[i], now));
    let all = stale_spec(prs, now, cutoff);
    if i < init.len() {
        assert(init[i] == prs[i]);
        lemma_stale_target(init, now, cutoff, i);
        let before = stale_spec(init, now, cutoff);
        let j = choose|j: int| 0 <= j < before.len() && before[j] == x;
        assert(all[j] == x);
    } else {
        assert(all[all.len() - 1] == x);
    }
}

/// Whether the `k`-th pull request closed comes from `prs[i]`, a stale one.
pub open spec fn closed_from(prs: Seq<OpenPr>, now: i64, cutoff: i64, k: int, i: int) -> bool {
    &&& 0 <= i < prs.len()
    &&& is_stale(prs[i], now, cutoff)
    &&& stale_spec(prs, now, cutoff)[k] == (prs[i].number, prs[i].title@, pr_created(prs[i], now))
}

/// Whether the `k`-th pull request closed comes from a stale one of `prs`.
pub open spec fn has_source(prs: Seq<OpenPr>, now: i64, cutoff: i64, k: int) -> bool {
    exists|i: int| #[trigger] closed_from(prs, now, cutoff, k, i)
}

/// Each pull request that a run closes is one of the open pull requests, created before
/// the cutoff and labelled `meta: awaiting author`; and each such pull request is closed.
pub proof fn lemma_stale_prs_qualify(prs: Seq<OpenPr>, now: i64, cutoff: i64)
    ensures
        forall|k: int| 0 <= k < stale_spec(prs, now, cutoff).len() ==> #[trigger] has_source(prs, now, cutoff, k),
        forall|i: int|
            0 <= i < prs.len() && is_stale(#[trigger] prs[i], now, cutoff) ==> stale_spec(
                prs,
                now,
                cutoff,
            ).contains((prs[i].number, prs[i].title@, pr_created(prs[i], now))),
        forall|i: int|
            0 <= i < prs.len() ==> (is_stale(#[trigger] prs[i], now, cutoff) <==> (pr_created(
                prs[i],
                now,
            ) < cutoff && texts(prs[i].labels@).contains("meta: awaiting author"@))),
{
    assert forall|k: int| 0 <= k < stale_spec(prs, now, cutoff).len() implies #[trigger] has_source(prs, now, cutoff, k) by {
        let i = lemma_stale_source(prs, now, cutoff, k);
        assert(closed_from(prs, now, cutoff, k, i));
    }
    assert forall|i: int| 0 <= i < prs.len() && is_stale(#[trigger] prs[i], now, cutoff) implies stale_spec(
        prs,
        now,
        cutoff,
    ).contains((prs[i].number, prs[i].title@, pr_created(prs[i], now))) by {
        lemma_stale_target(prs, now, cutoff, i);
    }
}

} // verus!
