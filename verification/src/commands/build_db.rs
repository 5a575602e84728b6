//! How fetched issues and pull requests become the rows of the database tables: issues
//! and pull requests apart, each label once, each issue-label link once. Reading the JSON
//! and writing the database are the caller's.
use vstd::prelude::*;

verus! {

/// A label of a fetched item.
pub struct RawLabel {
    pub id: Option<i64>,
    pub name: String,
    pub color: String,
    pub description: Option<String>,
}

/// A fetched issue or pull request.
pub struct RawItem {
    pub id: i64,
    pub number: i64,
    pub title: String,
    pub state: String,
    pub created_at: String,
    pub updated_at: String,
    pub closed_at: Option<String>,
    pub user_login: Option<String>,
    pub issue_type: Option<String>,
    pub is_pull_request: bool,
    pub draft: bool,
    pub labels: Vec<RawLabel>,
}

/// Where the rows of the tables come from: the places of the issues and of the pull
/// requests among the items; for each label, the item and label place of its first
/// occurrence; and each (item id, label id) link once.
pub struct Partition {
    pub issues: Vec<usize>,
    pub pull_requests: Vec<usize>,
    pub labels: Vec<(usize, usize)>,
    pub links: Vec<(i64, i64)>,
}

/// The places `i` of the items with `is_pull_request == pr`, in order.
pub open spec fn kind_places(items: Seq<RawItem>, pr: bool) -> Seq<usize>
    decreases items.len(),
{
    if items.len() == 0 {
        Seq::empty()
    } else if items.last().is_pull_request == pr {
        kind_places(items.drop_last(), pr).push((items.len() - 1) as usize)
    } else {
        kind_places(items.drop_last(), pr)
    }
}

/// Each label with an id, as item place, label place, item id and label id, in order.
pub open spec fn label_occurrences(items: Seq<RawItem>) -> Seq<(usize, usize, i64, i64)>
    decreases items.len(),
{
    if items.len() == 0 {
        Seq::empty()
    } else {
        label_occurrences(items.drop_last()) + item_label_occurrences(
            items.last(),
            (items.len() - 1) as usize,
        )
    }
}

/// The labels with an id of item `it` at place `i`.
pub open spec fn item_label_occurrences(it: RawItem, i: usize) -> Seq<(usize, usize, i64, i64)> {
    labels_from(it.labels@, it.id, i, it.labels@.len() as int)
}

/// The labels with an id among the first `n` labels of an item.
pub open spec fn labels_from(ls: Seq<RawLabel>, item_id: i64, i: usize, n: int) -> Seq<(usize, usize, i64, i64)>
    decreases n,
{
    if n <= 0 {
        Seq::empty()
    } else {
        let before = labels_from(ls, item_id, i, n - 1);
        match ls[n - 1].id {
            Some(l) => before.push((i, (n - 1) as usize, item_id, l)),
            None => before,
        }
    }
}

/// The occurrences whose label id did not occur before, in order.
pub open spec fn first_labels(occ: Seq<(usize, usize, i64, i64)>) -> Seq<(usize, usize)>
    decreases occ.len(),
{
    if occ.len() == 0 {
        Seq::empty()
    } else {
        let p = occ.drop_last();
        let x = occ.last();
        if exists|k: int| 0 <= k < p.len() && p[k].3 == x.3 {
            first_labels(p)
        } else {
            first_labels(p).push((x.0, x.1))
        }
    }
}

/// The (item id, label id) links, each once, in order of first occurrence.
pub open spec fn distinct_links(occ: Seq<(usize, usize, i64, i64)>) -> Seq<(i64, i64)>
    decreases occ.len(),
{
    if occ.len() == 0 {
        Seq::empty()
    } else {
        let before = distinct_links(occ.drop_last());
        let link = (occ.last().2, occ.last().3);
        if before.contains(link) {
            before
        } else {
            before.push(link)
        }
    }
}

/// The label ids seen among the occurrences.
pub open spec fn seen_label_ids(occ: Seq<(usize, usize, i64, i64)>) -> Set<i64> {
    occ.map_values(|x: (usize, usize, i64, i64)| x.3).to_set()
}

/// Sorts the items into the rows of the tables: issues and pull requests apart, each label
/// by its first occurrence, each issue-label link once.
pub fn partition_items(items: &[RawItem]) -> (r: Partition)
    ensures
        r.issues@ == kind_places(items@, false),
        r.pull_requests@ == kind_places(items@, true),
        r.labels@ == first_labels(label_occurrences(items@)),
        r.links@ == distinct_links(label_occurrences(items@)),
{
    let mut issues: Vec<usize> = Vec::new();
    let mut pull_requests: Vec<usize> = Vec::new();
    let mut labels: Vec<(usize, usize)> = Vec::new();
    let mut label_ids: Vec<i64> = Vec::new();
    let mut links: Vec<(i64, i64)> = Vec::new();
    let mut i: usize = 0;
    while i < items.len()
        invariant
            i <= items@.len(),
            issues@ == kind_places(items@.take(i as int), false),
            pull_requests@ == kind_places(items@.take(i as int), true),
            labels@ == first_labels(label_occurrences(items@.take(i as int))),
            label_ids@.to_set() == seen_label_ids(label_occurrences(items@.take(i as int))),
            links@ == distinct_links(label_occurrences(items@.take(i as int))),
        decreases items.len() - i,
    {
        let it = &items[i];
        let ghost pre = items@.take(i as int);
        let ghost post = items@.take(i + 1);
        proof {
            assert(post.drop_last() == pre);
            assert(post.last() == *it);
        }
        if it.is_pull_request {
            pull_requests.push(i);
        } else {
            issues.push(i);
        }
        let ghost occ0 = label_occurrences(pre);
        let mut j: usize = 0;
        while j < it.labels.len()
            invariant
                j <= it.labels@.len(),
                *it == items@[i as int],
                i < items@.len(),
                occ0 == label_occurrences(items@.take(i as int)),
                labels@ == first_labels(occ0 + labels_from(it.labels@, it.id, i, j as int)),
                label_ids@.to_set() == seen_label_ids(occ0 + labels_from(it.labels@, it.id, i, j as int)),
                links@ == distinct_links(occ0 + labels_from(it.labels@, it.id, i, j as int)),
            decreases it.labels.len() - j,
        {
            let ghost occ = occ0 + labels_from(it.labels@, it.id, i, j as int);
            match it.labels[j].id {
                Some(l) => {
                    let ghost x = (i, j, it.id, l);
                    let ghost occ2 = occ.push(x);
                    proof {
                        assert(occ0 + labels_from(it.labels@, it.id, i, j + 1) == occ2);
                        assert(occ2.drop_last() == occ);
                        assert(occ2.last() == x);
                        assert(occ.map_values(|x: (usize, usize, i64, i64)| x.3).push(l) =~= occ2.map_values(
                            |x: (usize, usize, i64, i64)| x.3,
                        ));
                        crate::commands::build_db::lemma_push_set_i64(
                            occ.map_values(|x: (usize, usize, i64, i64)| x.3),
                            l,
                        );
                    }
                    let mut seen = false;
                    let mut k: usize = 0;
                    while k < label_ids.len()
                        invariant
                            k <= label_ids@.len(),
                            seen == exists|m: int| 0 <= m < k && label_ids@[m] == l,
                        decreases label_ids.len() - k,
                    {
                        if label_ids[k] == l {
                            seen = true;
                        }
                        k += 1;
                    }
                    proof {
                        let ids = occ.map_values(|x: (usize, usize, i64, i64)| x.3);
                        if seen {
                            let m = choose|m: int| 0 <= m < label_ids@.len() && label_ids@[m] == l;
                            assert(label_ids@.to_set().contains(l));
                            assert(ids.to_set().contains(l));
                            let q = choose|q: int| 0 <= q < ids.len() && ids[q] == l;
                            assert(occ[q].3 == l);
                        } else {
                            if exists|q: int| 0 <= q < occ.len() && occ[q].3 == l {
                                let q = choose|q: int| 0 <= q < occ.len() && occ[q].3 == l;
                                assert(ids[q] == l);
                                assert(ids.to_set().contains(l));
                                assert(label_ids@.to_set().contains(l));
                                let m = choose|m: int| 0 <= m < label_ids@.len() && label_ids@[m] == l;
                                assert(label_ids@[m] == l);
                            }
                        }
                    }
                    if !seen {
                        labels.push((i, j));
                        let ghost before_ids = label_ids@;
                        label_ids.push(l);
                        proof {
                            crate::commands::build_db::lemma_push_set_i64(before_ids, l);
                        }
                    } else {
                        proof {
                            let m = choose|m: int| 0 <= m < label_ids@.len() && label_ids@[m] == l;
                            assert(label_ids@.to_set().contains(l));
                            assert(label_ids@.to_set().insert(l) =~= label_ids@.to_set());
                        }
                    }
                    let mut linked = false;
                    let mut k: usize = 0;
                    while k < links.len()
                        invariant
                            k <= links@.len(),
                            linked == exists|m: int| 0 <= m < k && links@[m] == (it.id, l),
                        decreases links.len() - k,
                    {
                        if links[k].0 == it.id && links[k].1 == l {
                            linked = true;
                        }
                        k += 1;
                    }
                    proof {
                        if linked {
                            let m = choose|m: int| 0 <= m < links@.len() && links@[m] == (it.id, l);
                            assert(links@.contains((it.id, l)));
                        } else {
                            if links@.contains((it.id, l)) {
                                let m = choose|m: int| 0 <= m < links@.len() && links@[m] == (it.id, l);
                                assert(links@[m] == (it.id, l));
                            }
                        }
                    }
                    if !linked {
                        links.push((it.id, l));
                    }
                },
                None => {
                    assert(occ0 + labels_from(it.labels@, it.id, i, j + 1) == occ);
                },
            }
            j += 1;
        }
        proof {
            assert(label_occurrences(post) == occ0 + item_label_occurrences(*it, i));
        }
        i += 1;
    }
    assert(items@.take(items@.len() as int) == items@);
    Partition { issues, pull_requests, labels, links }
}

proof fn lemma_kind_places(items: Seq<RawItem>, pr: bool)
    requires
        items.len() <= usize::MAX,
    ensures
        forall|k: int|
            0 <= k < kind_places(items, pr).len() ==> (#[trigger] kind_places(items, pr)[k])
                < items.len() && items[kind_places(items, pr)[k] as int].is_pull_request == pr,
        forall|p: int|
            0 <= p < items.len() && (#[trigger] items[p]).is_pull_request == pr ==> kind_places(
                items,
                pr,
            ).contains(p as usize),
        forall|a: int, b: int|
            0 <= a < b < kind_places(items, pr).len() ==> #[trigger] kind_places(items, pr)[a]
                < #[trigger] kind_places(items, pr)[b],
    decreases items.len(),
{
    if items.len() > 0 {
        let init = items.drop_last();
        lemma_kind_places(init, pr);
        let kp = kind_places(items, pr);
        let ki = kind_places(init, pr);
        assert forall|p: int| 0 <= p < init.len() implies #[trigger] items[p] == init[p] by {}
        if items.last().is_pull_request == pr {
            assert(kp == ki.push((items.len() - 1) as usize));
            assert forall|k: int| 0 <= k < kp.len() implies (#[trigger] kp[k]) < items.len()
                && items[kp[k] as int].is_pull_request == pr by {
                if k < ki.len() {
                    assert(kp[k] == ki[k]);
                    assert(items[ki[k] as int] == init[ki[k] as int]);
                }
            }
            assert forall|a: int, b: int| 0 <= a < b < kp.len() implies #[trigger] kp[a]
                < #[trigger] kp[b] by {
                if b < ki.len() {
                    assert(kp[a] == ki[a] && kp[b] == ki[b]);
                } else {
                    assert(kp[a] == ki[a]);
                }
            }
            assert forall|p: int|
                0 <= p < items.len() && (#[trigger] items[p]).is_pull_request == pr implies kp.contains(
                p as usize,
            ) by {
                if p < init.len() {
                    assert(init[p] == items[p]);
                    let j = choose|j: int| 0 <= j < ki.len() && ki[j] == p as usize;
                    assert(kp[j] == p as usize);
                } else {
                    assert(kp[ki.len() as int] == p as usize);
                }
            }
        } else {
            assert forall|p: int|
                0 <= p < items.len() && (#[trigger] items[p]).is_pull_request == pr implies kp.contains(
                p as usize,
            ) by {
                assert(p < init.len());
                assert(init[p] == items[p]);
            }
            assert forall|k: int| 0 <= k < kp.len() implies (#[trigger] kp[k]) < items.len()
                && items[kp[k] as int].is_pull_request == pr by {
                assert(items[ki[k] as int] == init[ki[k] as int]);
            }
        }
    }
}

proof fn lemma_distinct_links(occ: Seq<(usize, usize, i64, i64)>)
    ensures
        forall|a: int, b: int|
            0 <= a < b < distinct_links(occ).len() ==> #[trigger] distinct_links(occ)[a]
                != #[trigger] distinct_links(occ)[b],
        forall|k: int| 0 <= k < occ.len() ==> distinct_links(occ).contains((#[trigger] occ[k].2, occ[k].3)),
        forall|k: int|
            0 <= k < distinct_links(occ).len() ==> exists|j: int|
                0 <= j < occ.len() && (occ[j].2, occ[j].3) == #[trigger] distinct_links(occ)[k],
    decreases occ.len(),
{
    if occ.len() > 0 {
        let init = occ.drop_last();
        lemma_distinct_links(init);
        let d = distinct_links(occ);
        let di = distinct_links(init);
        let link = (occ.last().2, occ.last().3);
        assert forall|k: int| 0 <= k < init.len() implies #[trigger] occ[k] == init[k] by {}
        if di.contains(link) {
            assert(d == di);
            assert forall|k: int| 0 <= k < occ.len() implies d.contains((#[trigger] occ[k].2, occ[k].3)) by {
                if k < init.len() {
                    assert(occ[k] == init[k]);
                    assert(di.contains((init[k].2, init[k].3)));
                }
            }
            assert forall|k: int| 0 <= k < d.len() implies exists|j: int|
                0 <= j < occ.len() && (occ[j].2, occ[j].3) == #[trigger] d[k] by {
                let j = choose|j: int| 0 <= j < init.len() && (init[j].2, init[j].3) == di[k];
                assert(occ[j] == init[j]);
            }
        } else {
            assert(d == di.push(link));
            assert forall|k: int| 0 <= k < occ.len() implies d.contains((#[trigger] occ[k].2, occ[k].3)) by {
                if k < init.len() {
                    assert(occ[k] == init[k]);
                    assert(di.contains((init[k].2, init[k].3)));
                    let j = choose|j: int| 0 <= j < di.len() && di[j] == (init[k].2, init[k].3);
                    assert(d[j] == di[j]);
                } else {
                    assert(d[di.len() as int] == link);
                }
            }
            assert forall|k: int| 0 <= k < d.len() implies exists|j: int|
                0 <= j < occ.len() && (occ[j].2, occ[j].3) == #[trigger] d[k] by {
                if k < di.len() {
                    let j = choose|j: int| 0 <= j < init.len() && (init[j].2, init[j].3) == di[k];
                    assert(occ[j] == init[j]);
                } else {
                    assert(d[k] == link);
                    assert((occ[occ.len() - 1].2, occ[occ.len() - 1].3) == link);
                }
            }
            assert forall|a: int, b: int| 0 <= a < b < d.len() implies #[trigger] d[a] != #[trigger] d[b] by {
                if b == di.len() {
                    assert(d[a] == di[a]);
                }
            }
        }
    }
}

/// The issue rows are exactly the items that are not pull requests, and the pull request
/// rows exactly the pull requests, each once and in order; every issue-label link of an
/// item's label with an id is written, once.
pub proof fn lemma_partition_rows(items: Seq<RawItem>)
    requires
        items.len() <= usize::MAX,
    ensures
        forall|k: int|
            0 <= k < kind_places(items, false).len() ==> (#[trigger] kind_places(items, false)[k])
                < items.len() && !items[kind_places(items, false)[k] as int].is_pull_request,
        forall|k: int|
            0 <= k < kind_places(items, true).len() ==> (#[trigger] kind_places(items, true)[k])
                < items.len() && items[kind_places(items, true)[k] as int].is_pull_request,
        forall|p: int|
            0 <= p < items.len() ==> if (#[trigger] items[p]).is_pull_request {
                kind_places(items, true).contains(p as usize)
            } else {
                kind_places(items, false).contains(p as usize)
            },
        forall|a: int, b: int|
            0 <= a < b < kind_places(items, false).len() ==> #[trigger] kind_places(items, false)[a]
                < #[trigger] kind_places(items, false)[b],
        forall|a: int, b: int|
            0 <= a < b < kind_places(items, true).len() ==> #[trigger] kind_places(items, true)[a]
                < #[trigger] kind_places(items, true)[b],
        forall|a: int, b: int|
            0 <= a < b < distinct_links(label_occurrences(items)).len() ==> #[trigger] distinct_links(
                label_occurrences(items),
            )[a] != #[trigger] distinct_links(label_occurrences(items))[b],
        forall|k: int|
            0 <= k < label_occurrences(items).len() ==> distinct_links(label_occurrences(items)).contains(
                (#[trigger] label_occurrences(items)[k].2, label_occurrences(items)[k].3),
            ),
{
    lemma_kind_places(items, false);
    lemma_kind_places(items, true);
    lemma_distinct_links(label_occurrences(items));
}

/// Pushing `x` adds it to the set of the items.
pub proof fn lemma_push_set_i64(s: Seq<i64>, x: i64)
    ensures
        s.push(x).to_set() == s.to_set().insert(x),
{
    assert forall|y: i64| #[trigger] s.push(x).contains(y) implies s.contains(y) || y == x by {
        let j = choose|j: int| 0 <= j < s.push(x).len() && s.push(x)[j] == y;
        if j < s.len() {
            assert(s[j] == y);
        }
    }
    assert forall|y: i64| s.contains(y) || y == x implies #[trigger] s.push(x).contains(y) by {
        if y == x {
            assert(s.push(x)[s.len() as int] == y);
        } else {
            let j = choose|j: int| 0 <= j < s.len() && s[j] == y;
            assert(s.push(x)[j] == y);
        }
    }
    assert(s.push(x).to_set() =~= s.to_set().insert(x));
}

} // verus!
