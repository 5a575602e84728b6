//! How review comments of a bot on merged pull requests were received: counted by
//! reaction, page by page, and the tables written from the counts. Fetching the pages is
//! the caller's.
use crate::ranking::{map_items, sort_by_key_desc, stably_sorted_desc, lemma_sorted_map};
use crate::sorting::texts;
use crate::text::{
    chars_of, find_seq, find_spec, push_all, push_str, seq_less, less_chars, slice_chars,
    string_of, text_equal,
};
use vstd::prelude::*;

verus! {

/// A review comment: its address, its author, and the contents of its reactions.
pub struct ReviewComment {
    pub url: String,
    pub author: String,
    pub reactions: Vec<String>,
}

/// A merged pull request with the comments of its review threads.
pub struct MergedPr {
    pub merged_at: String,
    pub comments: Vec<ReviewComment>,
}

/// How a comment was received.
#[derive(Clone, Copy, PartialEq, Eq, Debug, Structural)]
pub enum Reaction {
    Liked,
    Disliked,
    NoReaction,
}

impl Reaction {
    /// The word of the reaction in the table.
    pub open spec fn label_spec(self) -> Seq<char> {
        match self {
            Reaction::Liked => "liked"@,
            Reaction::Disliked => "disliked"@,
            Reaction::NoReaction => "no reaction"@,
        }
    }

    /// The word of the reaction in the table.
    pub fn label(&self) -> (r: String)
        ensures
            r@ == self.label_spec(),
    {
        match self {
            Reaction::Liked => String::from_str("liked"),
            Reaction::Disliked => String::from_str("disliked"),
            Reaction::NoReaction => String::from_str("no reaction"),
        }
    }
}

/// A comment is liked if it has a thumbs up, else disliked if it has a thumbs down.
pub open spec fn reaction_of(reactions: Seq<Seq<char>>) -> Reaction {
    if reactions.contains("THUMBS_UP"@) {
        Reaction::Liked
    } else if reactions.contains("THUMBS_DOWN"@) {
        Reaction::Disliked
    } else {
        Reaction::NoReaction
    }
}

/// A comment with a thumbs up counts as liked, whatever else it has; one with a thumbs
/// down and no thumbs up as disliked; any other as unreacted. The table writes them
/// `liked`, `disliked` and `no reaction`.
pub proof fn lemma_reaction_words(reactions: Seq<Seq<char>>)
    ensures
        reaction_of(reactions) == Reaction::Liked <==> reactions.contains("THUMBS_UP"@),
        reaction_of(reactions) == Reaction::Disliked <==> !reactions.contains("THUMBS_UP"@)
            && reactions.contains("THUMBS_DOWN"@),
        reaction_of(reactions) == Reaction::NoReaction <==> !reactions.contains("THUMBS_UP"@)
            && !reactions.contains("THUMBS_DOWN"@),
        Reaction::Liked.label_spec() == "liked"@,
        Reaction::Disliked.label_spec() == "disliked"@,
        Reaction::NoReaction.label_spec() == "no reaction"@,
{
}

fn holds_text(v: &Vec<String>, t: &str) -> (r: bool)
    ensures
        r == texts(v@).contains(t@),
{
    let mut i: usize = 0;
    while i < v.len()
        invariant
            i <= v@.len(),
            forall|j: int| 0 <= j < i ==> v@[j]@ != t@,
        decreases v.len() - i,
    {
        if text_equal(v[i].as_str(), t) {
            assert(texts(v@)[i as int] == t@);
            return true;
        }
        i += 1;
    }
    proof {
        if texts(v@).contains(t@) {
            let j = choose|j: int| 0 <= j < texts(v@).len() && texts(v@)[j] == t@;
            assert(v@[j]@ == t@);
        }
    }
    false
}

/// How a comment with these reactions was received.
pub fn classify_reactions(reactions: &Vec<String>) -> (r: Reaction)
    ensures
        r == reaction_of(texts(reactions@)),
{
    if holds_text(reactions, "THUMBS_UP") {
        Reaction::Liked
    } else if holds_text(reactions, "THUMBS_DOWN") {
        Reaction::Disliked
    } else {
        Reaction::NoReaction
    }
}

/// The counts of a scan.
pub struct ReviewStats {
    pub prs_scanned: u64,
    pub total: u64,
    pub liked: u64,
    pub disliked: u64,
    pub no_reaction: u64,
}

/// What a scan has gathered: the counts, each comment author with their number of
/// comments (when no bot is named), and each bot comment with its reaction.
pub struct ReviewTally {
    pub stats: ReviewStats,
    pub authors: Vec<(String, u64)>,
    pub rows: Vec<(String, Reaction)>,
}

/// Whether a pull request was merged before `since`: its merge time, as text, sorts before
/// it.
pub open spec fn before_since(merged_at: Seq<char>, since: Option<Seq<char>>) -> bool {
    match since {
        Some(ts) => seq_less(merged_at, ts),
        None => false,
    }
}

/// The pull requests of a page that count: merged at `since` or later.
pub open spec fn counted_prs(prs: Seq<MergedPr>, since: Option<Seq<char>>) -> Seq<MergedPr>
    decreases prs.len(),
{
    if prs.len() == 0 {
        Seq::empty()
    } else if before_since(prs.last().merged_at@, since) {
        counted_prs(prs.drop_last(), since)
    } else {
        counted_prs(prs.drop_last(), since).push(prs.last())
    }
}

/// The comments of the pull requests that count, in order.
pub open spec fn page_comments(prs: Seq<MergedPr>, since: Option<Seq<char>>) -> Seq<ReviewComment>
    decreases prs.len(),
{
    if prs.len() == 0 {
        Seq::empty()
    } else if before_since(prs.last().merged_at@, since) {
        page_comments(prs.drop_last(), since)
    } else {
        page_comments(prs.drop_last(), since) + prs.last().comments@
    }
}

/// The comments of the bot `bot`, each as address and reaction.
pub open spec fn bot_rows(cs: Seq<ReviewComment>, bot: Seq<char>) -> Seq<(Seq<char>, Reaction)>
    decreases cs.len(),
{
    if cs.len() == 0 {
        Seq::empty()
    } else if cs.last().author@ == bot {
        bot_rows(cs.drop_last(), bot).push((cs.last().url@, reaction_of(texts(cs.last().reactions@))))
    } else {
        bot_rows(cs.drop_last(), bot)
    }
}

/// How many rows have reaction `r`.
pub open spec fn count_reaction(rows: Seq<(Seq<char>, Reaction)>, r: Reaction) -> nat
    decreases rows.len(),
{
    if rows.len() == 0 {
        0
    } else {
        count_reaction(rows.drop_last(), r) + if rows.last().1 == r {
            1nat
        } else {
            0nat
        }
    }
}

/// The authors with one more comment of `name`: its count raised if it is listed, else
/// it added with one.
pub open spec fn add_name(a: Seq<(Seq<char>, nat)>, name: Seq<char>) -> Seq<(Seq<char>, nat)> {
    if exists|k: int| 0 <= k < a.len() && a[k].0 == name {
        let k = choose|k: int| 0 <= k < a.len() && a[k].0 == name;
        a.update(k, (name, a[k].1 + 1))
    } else {
        a.push((name, 1nat))
    }
}

/// The authors with the comments of `names` added, one by one.
pub open spec fn add_names(a: Seq<(Seq<char>, nat)>, names: Seq<Seq<char>>) -> Seq<(Seq<char>, nat)>
    decreases names.len(),
{
    if names.len() == 0 {
        a
    } else {
        add_name(add_names(a, names.drop_last()), names.last())
    }
}

/// The authors of comments, in order.
pub open spec fn comment_authors(cs: Seq<ReviewComment>) -> Seq<Seq<char>> {
    cs.map_values(|c: ReviewComment| c.author@)
}

/// The authors as text and count.
pub open spec fn authors_text(a: Seq<(String, u64)>) -> Seq<(Seq<char>, nat)> {
    a.map_values(|x: (String, u64)| (x.0@, x.1 as nat))
}

/// The bot comments as text and reaction.
pub open spec fn rows_text(rows: Seq<(String, Reaction)>) -> Seq<(Seq<char>, Reaction)> {
    rows.map_values(|x: (String, Reaction)| (x.0@, x.1))
}

/// Whether no author is listed twice.
pub open spec fn authors_distinct(a: Seq<(Seq<char>, nat)>) -> bool {
    forall|i: int, j: int| 0 <= i < j < a.len() ==> a[i].0 != a[j].0
}

/// Whether the counts of a tally leave room for `n` more comments and `p` more pull
/// requests.
pub open spec fn room_for(t: ReviewTally, p: nat, n: nat) -> bool {
    &&& t.stats.prs_scanned + p <= u64::MAX
    &&& t.stats.total + n <= u64::MAX
    &&& t.stats.liked + n <= u64::MAX
    &&& t.stats.disliked + n <= u64::MAX
    &&& t.stats.no_reaction + n <= u64::MAX
    &&& forall|k: int| 0 <= k < t.authors@.len() ==> #[trigger] t.authors@[k].1 + n <= u64::MAX
}

fn add_author(authors: &mut Vec<(String, u64)>, name: &String)
    requires
        authors_distinct(authors_text(old(authors)@)),
        forall|k: int| 0 <= k < old(authors)@.len() ==> #[trigger] old(authors)@[k].1 < u64::MAX,
    ensures
        authors_distinct(authors_text(final(authors)@)),
        authors_text(final(authors)@) == add_name(authors_text(old(authors)@), name@),
        final(authors)@.len() >= old(authors)@.len(),
        forall|k: int|
            0 <= k < old(authors)@.len() ==> #[trigger] final(authors)@[k].1 <= old(authors)@[k].1
                + 1,
        forall|k: int| old(authors)@.len() <= k < final(authors)@.len() ==> final(authors)@[k].1 == 1,
{
    let ghost a = authors_text(authors@);
    let mut k: usize = 0;
    while k < authors.len()
        invariant
            k <= authors@.len(),
            a == authors_text(authors@),
            authors@ == old(authors)@,
            authors_distinct(a),
            forall|k: int| 0 <= k < old(authors)@.len() ==> #[trigger] old(authors)@[k].1 < u64::MAX,
            forall|j: int| 0 <= j < k ==> authors@[j].0@ != name@,
        decreases authors.len() - k,
    {
        if text_equal(authors[k].0.as_str(), name.as_str()) {
            proof {
                assert(a[k as int].0 == name@);
                let c = choose|c: int| 0 <= c < a.len() && a[c].0 == name@;
                if c != k {
                    assert(authors_distinct(a));
                }
                assert(c == k);
            }
            let count = authors[k].1 + 1;
            let entry = (name.clone(), count);
            let ghost ge = entry;
            authors.set(k, entry);
            proof {
                assert(authors_text(authors@) =~= a.update(k as int, (name@, a[k as int].1 + 1)));
            }
            return;
        }
        k += 1;
    }
    proof {
        assert(!(exists|c: int| 0 <= c < a.len() && a[c].0 == name@));
    }
    authors.push((name.clone(), 1));
    assert(authors_text(authors@) =~= a.push((name@, 1nat)));
}

/// Scans a page of merged pull requests into `tally`: those merged before `since` are
/// passed over; with no bot named, every comment counts for its author; else each comment
/// of the bot is counted and listed by reaction. Tells whether any pull request was merged
/// before `since`, which ends the scan after this page.
pub fn scan_page(tally: &mut ReviewTally, prs: &[MergedPr], bot_login: Option<&str>, since: Option<&str>) -> (hit: bool)
    requires
        authors_distinct(authors_text(old(tally).authors@)),
        room_for(
            *old(tally),
            prs@.len() as nat,
            page_comments(prs@, match since { Some(s) => Some(s@), None => None }).len(),
        ),
    ensures
        ({
            let sn = match since {
                Some(s) => Some(s@),
                None => None,
            };
            let cs = page_comments(prs@, sn);
            &&& hit == exists|i: int| 0 <= i < prs@.len() && before_since(#[trigger] prs@[i].merged_at@, sn)
            &&& final(tally).stats.prs_scanned == old(tally).stats.prs_scanned + counted_prs(prs@, sn).len()
            &&& authors_distinct(authors_text(final(tally).authors@))
            &&& match bot_login {
                None => {
                    &&& authors_text(final(tally).authors@) == add_names(
                        authors_text(old(tally).authors@),
                        comment_authors(cs),
                    )
                    &&& final(tally).rows@ == old(tally).rows@
                    &&& final(tally).stats.total == old(tally).stats.total
                    &&& final(tally).stats.liked == old(tally).stats.liked
                    &&& final(tally).stats.disliked == old(tally).stats.disliked
                    &&& final(tally).stats.no_reaction == old(tally).stats.no_reaction
                },
                Some(b) => {
                    let rows = bot_rows(cs, b@);
                    &&& final(tally).authors@ == old(tally).authors@
                    &&& rows_text(final(tally).rows@) == rows_text(old(tally).rows@) + rows
                    &&& final(tally).stats.total == old(tally).stats.total + rows.len()
                    &&& final(tally).stats.liked == old(tally).stats.liked + count_reaction(rows, Reaction::Liked)
                    &&& final(tally).stats.disliked == old(tally).stats.disliked + count_reaction(rows, Reaction::Disliked)
                    &&& final(tally).stats.no_reaction == old(tally).stats.no_reaction + count_reaction(rows, Reaction::NoReaction)
                },
            }
        }),
{
    let ghost sn = match since {
        Some(s) => Some(s@),
        None => None,
    };
    let ghost start = *tally;
    let ghost total_comments = page_comments(prs@, sn).len();
    let since_chars = match since {
        Some(s) => Some(chars_of(s)),
        None => None,
    };
    let mut hit = false;
    let mut i: usize = 0;
    proof {
        lemma_page_comments_prefix(prs@, sn, 0);
    }
    while i < prs.len()
        invariant
            i <= prs@.len(),
            match since_chars {
                Some(v) => sn == Some(v@),
                None => sn is None,
            },
            sn == match since {
                Some(s) => Some(s@),
                None => None,
            },
            hit == exists|j: int| 0 <= j < i && before_since(#[trigger] prs@[j].merged_at@, sn),
            total_comments == page_comments(prs@, sn).len(),
            page_comments(prs@.take(i as int), sn).len() <= total_comments,
            room_for(start, prs@.len() as nat, total_comments),
            tally.stats.prs_scanned == start.stats.prs_scanned + counted_prs(prs@.take(i as int), sn).len(),
            counted_prs(prs@.take(i as int), sn).len() <= i,
            authors_distinct(authors_text(tally.authors@)),
            tally.authors@.len() >= start.authors@.len(),
            forall|k: int| 0 <= k < start.authors@.len() ==> #[trigger] tally.authors@[k].1 <= start.authors@[k].1 + page_comments(prs@.take(i as int), sn).len(),
            forall|k: int| start.authors@.len() <= k < tally.authors@.len() ==> #[trigger] tally.authors@[k].1 <= page_comments(prs@.take(i as int), sn).len(),
            match bot_login {
                None => {
                    &&& authors_text(tally.authors@) == add_names(
                        authors_text(start.authors@),
                        comment_authors(page_comments(prs@.take(i as int), sn)),
                    )
                    &&& tally.rows@ == start.rows@
                    &&& tally.stats.total == start.stats.total
                    &&& tally.stats.liked == start.stats.liked
                    &&& tally.stats.disliked == start.stats.disliked
                    &&& tally.stats.no_reaction == start.stats.no_reaction
                },
                Some(b) => {
                    let rows = bot_rows(page_comments(prs@.take(i as int), sn), b@);
                    &&& tally.authors@ == start.authors@
                    &&& rows_text(tally.rows@) == rows_text(start.rows@) + rows
                    &&& tally.stats.total == start.stats.total + rows.len()
                    &&& tally.stats.liked == start.stats.liked + count_reaction(rows, Reaction::Liked)
                    &&& tally.stats.disliked == start.stats.disliked + count_reaction(rows, Reaction::Disliked)
                    &&& tally.stats.no_reaction == start.stats.no_reaction + count_reaction(rows, Reaction::NoReaction)
                    &&& rows.len() <= page_comments(prs@.take(i as int), sn).len()
                },
            },
        decreases prs.len() - i,
    {
        let pr = &prs[i];
        let ghost pre = prs@.take(i as int);
        let ghost post = prs@.take(i + 1);
        proof {
            assert(post.drop_last() == pre);
            assert(post.last() == prs@[i as int]);
            lemma_page_comments_prefix(prs@, sn, i + 1);
        }
        let before = match &since_chars {
            Some(ts) => less_chars(&chars_of(pr.merged_at.as_str()), ts),
            None => false,
        };
        if before {
            hit = true;
        } else {
            tally.stats.prs_scanned = tally.stats.prs_scanned + 1;
            let ghost tally_mid = *tally;
            let ghost base = page_comments(pre, sn);
            let mut c: usize = 0;
            while c < pr.comments.len()
                invariant
                    c <= pr.comments@.len(),
                    pr == prs@[i as int],
                    base == page_comments(pre, sn),
                    page_comments(post, sn) == base + pr.comments@,
                    page_comments(post, sn).len() <= total_comments,
                    room_for(start, prs@.len() as nat, total_comments),
                    tally.stats.prs_scanned == tally_mid.stats.prs_scanned,
                    authors_distinct(authors_text(tally.authors@)),
                    tally.authors@.len() >= start.authors@.len(),
                    forall|k: int| 0 <= k < start.authors@.len() ==> #[trigger] tally.authors@[k].1 <= start.authors@[k].1 + base.len() + c,
                    forall|k: int| start.authors@.len() <= k < tally.authors@.len() ==> #[trigger] tally.authors@[k].1 <= base.len() + c,
                    match bot_login {
                        None => {
                            &&& authors_text(tally.authors@) == add_names(
                                authors_text(start.authors@),
                                comment_authors(base + pr.comments@.take(c as int)),
                            )
                            &&& tally.rows@ == start.rows@
                            &&& tally.stats.total == start.stats.total
                            &&& tally.stats.liked == start.stats.liked
                            &&& tally.stats.disliked == start.stats.disliked
                            &&& tally.stats.no_reaction == start.stats.no_reaction
                        },
                        Some(b) => {
                            let rows = bot_rows(base + pr.comments@.take(c as int), b@);
                            &&& tally.authors@ == start.authors@
                            &&& rows_text(tally.rows@) == rows_text(start.rows@) + rows
                            &&& tally.stats.total == start.stats.total + rows.len()
                            &&& tally.stats.liked == start.stats.liked + count_reaction(rows, Reaction::Liked)
                            &&& tally.stats.disliked == start.stats.disliked + count_reaction(rows, Reaction::Disliked)
                            &&& tally.stats.no_reaction == start.stats.no_reaction + count_reaction(rows, Reaction::NoReaction)
                            &&& rows.len() <= base.len() + c
                        },
                    },
                decreases pr.comments.len() - c,
            {
                let cm = &pr.comments[c];
                let ghost seen = base + pr.comments@.take(c as int);
                let ghost seen2 = base + pr.comments@.take(c + 1);
                proof {
                    assert(seen2 == seen.push(*cm));
                    assert(seen2.drop_last() == seen);
                    assert(comment_authors(seen2) == comment_authors(seen).push(cm.author@));
                    assert(comment_authors(seen2).drop_last() == comment_authors(seen));
                    assert(seen2.len() <= total_comments) by {
                        assert(pr.comments@.take(c + 1).len() <= pr.comments@.len());
                    }
                }
                match bot_login {
                    None => {
                        add_author(&mut tally.authors, &cm.author);
                        proof {
                            assert(add_names(authors_text(start.authors@), comment_authors(seen2))
                                == add_name(
                                add_names(authors_text(start.authors@), comment_authors(seen)),
                                cm.author@,
                            ));
                        }
                    },
                    Some(b) => {
                        if text_equal(cm.author.as_str(), b) {
                            let reaction = classify_reactions(&cm.reactions);
                            proof {
                                lemma_count_reaction_bound(bot_rows(seen, b@), Reaction::Liked);
                                lemma_count_reaction_bound(bot_rows(seen, b@), Reaction::Disliked);
                                lemma_count_reaction_bound(bot_rows(seen, b@), Reaction::NoReaction);
                            }
                            tally.stats.total = tally.stats.total + 1;
                            match reaction {
                                Reaction::Liked => {
                                    tally.stats.liked = tally.stats.liked + 1;
                                },
                                Reaction::Disliked => {
                                    tally.stats.disliked = tally.stats.disliked + 1;
                                },
                                Reaction::NoReaction => {
                                    tally.stats.no_reaction = tally.stats.no_reaction + 1;
                                },
                            }
                            let ghost prev = tally.rows@;
                            tally.rows.push((cm.url.clone(), reaction));
                            assert(rows_text(tally.rows@) =~= rows_text(prev).push((cm.url@, reaction)));
                            proof {
                                let rows0 = bot_rows(seen, b@);
                                let rows1 = bot_rows(seen2, b@);
                                assert(rows1 == rows0.push((cm.url@, reaction)));
                                assert(rows1.drop_last() == rows0);
                            }
                        } else {
                            assert(bot_rows(seen2, b@) == bot_rows(seen, b@));
                        }
                    },
                }
                c += 1;
            }
            assert(pr.comments@.take(pr.comments@.len() as int) == pr.comments@);
        }
        i += 1;
    }
    assert(prs@.take(prs@.len() as int) == prs@);
    hit
}

proof fn lemma_count_reaction_bound(rows: Seq<(Seq<char>, Reaction)>, r: Reaction)
    ensures
        count_reaction(rows, r) <= rows.len(),
    decreases rows.len(),
{
    if rows.len() > 0 {
        lemma_count_reaction_bound(rows.drop_last(), r);
    }
}

proof fn lemma_page_comments_prefix(prs: Seq<MergedPr>, since: Option<Seq<char>>, i: int)
    requires
        0 <= i <= prs.len(),
    ensures
        page_comments(prs.take(i), since).len() <= page_comments(prs, since).len(),
        counted_prs(prs.take(i), since).len() <= i,
    decreases prs.len() - i,
{
    if i < prs.len() {
        lemma_page_comments_prefix(prs, since, i + 1);
        assert(prs.take(i + 1).drop_last() == prs.take(i));
    } else {
        assert(prs.take(i) == prs);
    }
    lemma_counted_len(prs.take(i), since);
}

proof fn lemma_counted_len(prs: Seq<MergedPr>, since: Option<Seq<char>>)
    ensures
        counted_prs(prs, since).len() <= prs.len(),
    decreases prs.len(),
{
    if prs.len() > 0 {
        lemma_counted_len(prs.drop_last(), since);
    }
}

/// The rank of a reaction in the table: no reaction first, then disliked, then liked.
pub open spec fn rank(r: Reaction) -> int {
    match r {
        Reaction::NoReaction => 0,
        Reaction::Disliked => 1,
        Reaction::Liked => 2,
    }
}

/// The rows with reaction `r`, in order.
pub open spec fn rows_with(rows: Seq<(Seq<char>, Reaction)>, r: Reaction) -> Seq<(Seq<char>, Reaction)>
    decreases rows.len(),
{
    if rows.len() == 0 {
        Seq::empty()
    } else if rows.last().1 == r {
        rows_with(rows.drop_last(), r).push(rows.last())
    } else {
        rows_with(rows.drop_last(), r)
    }
}

/// The rows sorted by rank, rows of one rank in their order: what a stable sort by rank
/// gives.
pub open spec fn ranked_spec(rows: Seq<(Seq<char>, Reaction)>) -> Seq<(Seq<char>, Reaction)> {
    rows_with(rows, Reaction::NoReaction) + rows_with(rows, Reaction::Disliked) + rows_with(
        rows,
        Reaction::Liked,
    )
}

proof fn lemma_rows_with_reaction(rows: Seq<(Seq<char>, Reaction)>, r: Reaction)
    ensures
        forall|i: int| 0 <= i < rows_with(rows, r).len() ==> (#[trigger] rows_with(rows, r)[i]).1 == r,
    decreases rows.len(),
{
    if rows.len() > 0 {
        lemma_rows_with_reaction(rows.drop_last(), r);
    }
}

proof fn lemma_rows_with_split(rows: Seq<(Seq<char>, Reaction)>)
    ensures
        rows.to_multiset() == rows_with(rows, Reaction::NoReaction).to_multiset().add(
            rows_with(rows, Reaction::Disliked).to_multiset(),
        ).add(rows_with(rows, Reaction::Liked).to_multiset()),
    decreases rows.len(),
{
    broadcast use vstd::seq_lib::group_to_multiset_ensures;
    broadcast use vstd::multiset::group_multiset_axioms;

    if rows.len() == 0 {
        assert(rows.to_multiset() =~= vstd::multiset::Multiset::empty());
        assert(rows_with(rows, Reaction::NoReaction).to_multiset() =~= vstd::multiset::Multiset::empty());
        assert(rows_with(rows, Reaction::Disliked).to_multiset() =~= vstd::multiset::Multiset::empty());
        assert(rows_with(rows, Reaction::Liked).to_multiset() =~= vstd::multiset::Multiset::empty());
    } else {
        let init = rows.drop_last();
        let x = rows.last();
        lemma_rows_with_split(init);
        assert(rows == init.push(x));
        assert(rows.to_multiset() =~= init.to_multiset().insert(x));
        assert(rows.to_multiset() =~= rows_with(rows, Reaction::NoReaction).to_multiset().add(
            rows_with(rows, Reaction::Disliked).to_multiset(),
        ).add(rows_with(rows, Reaction::Liked).to_multiset()));
    }
}

/// The table holds each row once, and no unreacted row comes after a disliked one, nor
/// any other row after a liked one.
pub proof fn lemma_ranked_rows_order(rows: Seq<(Seq<char>, Reaction)>)
    ensures
        ranked_spec(rows).to_multiset() == rows.to_multiset(),
        forall|i: int, j: int|
            0 <= i < j < ranked_spec(rows).len() ==> (ranked_spec(rows)[i].1 == Reaction::Liked
                ==> ranked_spec(rows)[j].1 == Reaction::Liked) && (ranked_spec(rows)[i].1
                == Reaction::Disliked ==> ranked_spec(rows)[j].1 != Reaction::NoReaction),
{
    broadcast use vstd::seq_lib::lemma_multiset_commutative;

    let a = rows_with(rows, Reaction::NoReaction);
    let b = rows_with(rows, Reaction::Disliked);
    let c = rows_with(rows, Reaction::Liked);
    lemma_rows_with_split(rows);
    lemma_rows_with_reaction(rows, Reaction::NoReaction);
    lemma_rows_with_reaction(rows, Reaction::Disliked);
    lemma_rows_with_reaction(rows, Reaction::Liked);
    assert((a + b + c).to_multiset() =~= a.to_multiset().add(b.to_multiset()).add(
        c.to_multiset(),
    ));
    let s = ranked_spec(rows);
    assert forall|i: int| 0 <= i < s.len() implies (i < a.len() ==> s[i].1 == Reaction::NoReaction)
        && (a.len() <= i < a.len() + b.len() ==> s[i].1 == Reaction::Disliked) && (a.len()
        + b.len() <= i ==> s[i].1 == Reaction::Liked) by {
        if i < a.len() {
            assert(s[i] == a[i]);
        } else if i < a.len() + b.len() {
            assert(s[i] == b[i - a.len()]);
        } else {
            assert(s[i] == c[i - a.len() - b.len()]);
        }
    }
}

fn take_with(rows: &Vec<(String, Reaction)>, r: Reaction, out: &mut Vec<(String, Reaction)>)
    ensures
        rows_text(final(out)@) == rows_text(old(out)@) + rows_with(rows_text(rows@), r),
{
    let ghost rt = rows_text(rows@);
    let ghost start = rows_text(out@);
    let mut i: usize = 0;
    while i < rows.len()
        invariant
            i <= rows@.len(),
            rt == rows_text(rows@),
            rows_text(out@) == start + rows_with(rt.take(i as int), r),
        decreases rows.len() - i,
    {
        proof {
            assert(rt.take(i + 1).drop_last() == rt.take(i as int));
            assert(rt.take(i + 1).last() == (rows@[i as int].0@, rows@[i as int].1));
        }
        if rows[i].1 == r {
            let ghost prev = out@;
            out.push((rows[i].0.clone(), rows[i].1));
            assert(rows_text(out@) =~= rows_text(prev).push((rows@[i as int].0@, rows@[i as int].1)));
        }
        i += 1;
    }
    assert(rt.take(rows@.len() as int) == rt);
}

/// The rows of the table: no reaction first, then disliked, then liked, each group in the
/// order the comments were found.
pub fn ranked_rows(rows: &Vec<(String, Reaction)>) -> (r: Vec<(String, Reaction)>)
    ensures
        rows_text(r@) == ranked_spec(rows_text(rows@)),
{
    let mut out: Vec<(String, Reaction)> = Vec::new();
    assert(rows_text(out@) =~= Seq::empty());
    take_with(rows, Reaction::NoReaction, &mut out);
    take_with(rows, Reaction::Disliked, &mut out);
    take_with(rows, Reaction::Liked, &mut out);
    assert(rows_text(out@) =~= ranked_spec(rows_text(rows@)));
    out
}

/// The table of bot comments as CSV text.
pub open spec fn rows_csv_spec(rows: Seq<(Seq<char>, Reaction)>) -> Seq<char>
    decreases rows.len(),
{
    if rows.len() == 0 {
        "url, reaction\n"@
    } else {
        rows_csv_spec(rows.drop_last()) + rows.last().0 + ", "@ + rows.last().1.label_spec() + "\n"@
    }
}

/// The table of bot comments as CSV text, a header then one line per comment.
pub fn rows_csv(rows: &Vec<(String, Reaction)>) -> (r: String)
    ensures
        r@ == rows_csv_spec(rows_text(rows@)),
{
    let ghost rt = rows_text(rows@);
    let mut out = chars_of("url, reaction\n");
    let mut i: usize = 0;
    while i < rows.len()
        invariant
            i <= rows@.len(),
            rt == rows_text(rows@),
            out@ == rows_csv_spec(rt.take(i as int)),
        decreases rows.len() - i,
    {
        proof {
            assert(rt.take(i + 1).drop_last() == rt.take(i as int));
            assert(rt.take(i + 1).last() == (rows@[i as int].0@, rows@[i as int].1));
        }
        push_str(&mut out, rows[i].0.as_str());
        push_str(&mut out, ", ");
        let label = rows[i].1.label();
        push_str(&mut out, label.as_str());
        push_str(&mut out, "\n");
        i += 1;
    }
    assert(rt.take(rows@.len() as int) == rt);
    string_of(&out)
}

/// The authors as text with their count as a sort key.
pub open spec fn author_keys(a: Seq<(String, u64)>) -> Seq<(Seq<char>, i64)> {
    a.map_values(|x: (String, u64)| (x.0@, x.1 as i64))
}

/// The authors by number of comments, most first; authors with as many comments keep
/// their order.
pub fn authors_by_count(authors: &Vec<(String, u64)>) -> (r: Vec<(String, u64)>)
    requires
        forall|k: int| 0 <= k < authors@.len() ==> #[trigger] authors@[k].1 <= i64::MAX,
    ensures
        stably_sorted_desc(author_keys(authors@), author_keys(r@)),
        forall|k: int| 0 <= k < r@.len() ==> #[trigger] r@[k].1 <= i64::MAX,
{
    let ghost view = crate::sorting::text_of();
    let mut items: Vec<(String, i64)> = Vec::new();
    let mut i: usize = 0;
    while i < authors.len()
        invariant
            i <= authors@.len(),
            view == crate::sorting::text_of(),
            forall|k: int| 0 <= k < authors@.len() ==> #[trigger] authors@[k].1 <= i64::MAX,
            map_items(items@, view) == author_keys(authors@).take(i as int),
            forall|k: int| 0 <= k < items@.len() ==> #[trigger] items@[k].1 >= 0,
        decreases authors.len() - i,
    {
        let ghost prev = items@;
        let item = (authors[i].0.clone(), authors[i].1 as i64);
        let ghost gi = item;
        items.push(item);
        assert(map_items(items@, view) =~= map_items(prev, view).push((gi.0@, gi.1)));
        i += 1;
        assert(map_items(items@, view) =~= author_keys(authors@).take(i as int));
    }
    assert(author_keys(authors@).take(authors@.len() as int) == author_keys(authors@));
    let ghost before = items@;
    let sorted = sort_by_key_desc(items);
    proof {
        lemma_sorted_map(before, sorted@, view);
        assert forall|k: int| 0 <= k < sorted@.len() implies #[trigger] sorted@[k].1 >= 0 by {
            let x = sorted@[k];
            sorted@.lemma_filter_contains(crate::ranking::key_is::<String>(x.1), k);
            assert(crate::ranking::with_key(sorted@, x.1) == crate::ranking::with_key(before, x.1));
            before.lemma_filter_contains_rev(crate::ranking::key_is::<String>(x.1), x);
        }
    }
    let mut r: Vec<(String, u64)> = Vec::new();
    let mut j: usize = 0;
    while j < sorted.len()
        invariant
            j <= sorted@.len(),
            view == crate::sorting::text_of(),
            forall|k: int| 0 <= k < sorted@.len() ==> #[trigger] sorted@[k].1 >= 0,
            author_keys(r@) == map_items(sorted@, view).take(j as int),
            forall|k: int| 0 <= k < r@.len() ==> #[trigger] r@[k].1 <= i64::MAX,
        decreases sorted.len() - j,
    {
        let ghost prev = r@;
        let item = (sorted[j].0.clone(), sorted[j].1 as u64);
        let ghost gi = item;
        r.push(item);
        assert(author_keys(r@) =~= author_keys(prev).push((gi.0@, gi.1 as i64)));
        j += 1;
        assert(author_keys(r@) =~= map_items(sorted@, view).take(j as int));
    }
    assert(map_items(sorted@, view).take(sorted@.len() as int) == map_items(sorted@, view));
    r
}

/// The start marker of the review statistics block in a trends file.
pub open spec fn review_start() -> Seq<char> {
    "<!-- AUTO:automated-review-stats:start -->"@
}

/// The end marker of the review statistics block.
pub open spec fn review_end() -> Seq<char> {
    "<!-- AUTO:automated-review-stats:end -->"@
}

/// The trends file with the review statistics block holding `content`: between the
/// markers if both are there, else appended under a heading of its own.
pub open spec fn review_block_spec(existing: Seq<char>, content: Seq<char>) -> Seq<char> {
    match (find_spec(existing, review_start()), find_spec(existing, review_end())) {
        (Some(s), Some(e)) => existing.take(s + review_start().len()) + content + existing.skip(e),
        _ => existing + "\n## AI-Assisted Code Review\n\n"@ + review_start() + content
            + review_end() + "\n"@,
    }
}

/// The trends file with the review statistics block replaced, or added.
pub fn update_review_block(existing: &str, content: &str) -> (r: String)
    ensures
        r@ == review_block_spec(existing@, content@),
{
    let t = chars_of(existing);
    let sc = chars_of("<!-- AUTO:automated-review-stats:start -->");
    let ec = chars_of("<!-- AUTO:automated-review-stats:end -->");
    let found_start = find_seq(&t, &sc);
    let found_end = find_seq(&t, &ec);
    if found_start.is_some() && found_end.is_some() {
        let s = found_start.unwrap();
        let e = found_end.unwrap();
        let tl = t.len();
        let mut out = slice_chars(&t, 0, s + sc.len());
        push_str(&mut out, content);
        let tail = slice_chars(&t, e, tl);
        push_all(&mut out, &tail);
        proof {
            assert(t@.take(s + sc@.len()) == t@.subrange(0, s + sc@.len()));
            assert(t@.skip(e as int) == t@.subrange(e as int, tl as int));
        }
        string_of(&out)
    } else {
        let mut out = t;
        push_str(&mut out, "\n## AI-Assisted Code Review\n\n");
        push_str(&mut out, "<!-- AUTO:automated-review-stats:start -->");
        push_str(&mut out, content);
        push_str(&mut out, "<!-- AUTO:automated-review-stats:end -->");
        push_str(&mut out, "\n");
        string_of(&out)
    }
}

/// How many times `name` occurs in `names`.
pub open spec fn occurrences(names: Seq<Seq<char>>, name: Seq<char>) -> nat
    decreases names.len(),
{
    if names.len() == 0 {
        0
    } else {
        occurrences(names.drop_last(), name) + if names.last() == name {
            1nat
        } else {
            0nat
        }
    }
}

/// Counting authors one comment at a time, from no author, lists each author once with
/// the number of their comments, and lists no one without a comment.
pub proof fn lemma_author_counts(names: Seq<Seq<char>>)
    ensures
        authors_distinct(add_names(Seq::empty(), names)),
        forall|k: int|
            0 <= k < add_names(Seq::empty(), names).len() ==> #[trigger] add_names(
                Seq::empty(),
                names,
            )[k].1 == occurrences(names, add_names(Seq::empty(), names)[k].0),
        forall|n: Seq<char>|
            occurrences(names, n) > 0 <==> exists|k: int|
                0 <= k < add_names(Seq::empty(), names).len() && #[trigger] add_names(
                    Seq::empty(),
                    names,
                )[k].0 == n,
    decreases names.len(),
{
    if names.len() > 0 {
        let p = names.drop_last();
        let x = names.last();
        lemma_author_counts(p);
        let a = add_names(Seq::empty(), p);
        let b = add_names(Seq::empty(), names);
        assert(b == add_name(a, x));
        if exists|k: int| 0 <= k < a.len() && a[k].0 == x {
            let k = choose|k: int| 0 <= k < a.len() && a[k].0 == x;
            assert(b == a.update(k, (x, a[k].1 + 1)));
            assert forall|n: Seq<char>|
                occurrences(names, n) > 0 <==> exists|j: int| 0 <= j < b.len() && #[trigger] b[j].0 == n by {
                assert(occurrences(names, n) == occurrences(p, n) + if x == n {
                    1nat
                } else {
                    0nat
                });
                if occurrences(names, n) > 0 && n != x {
                    let j = choose|j: int| 0 <= j < a.len() && #[trigger] a[j].0 == n;
                    assert(b[j].0 == n);
                }
                if n == x {
                    assert(b[k].0 == n);
                }
                if exists|j: int| 0 <= j < b.len() && #[trigger] b[j].0 == n {
                    let j = choose|j: int| 0 <= j < b.len() && #[trigger] b[j].0 == n;
                    assert(a[j].0 == n);
                }
            }
        } else {
            assert(b == a.push((x, 1nat)));
            assert(occurrences(p, x) == 0);
            assert forall|n: Seq<char>|
                occurrences(names, n) > 0 <==> exists|j: int| 0 <= j < b.len() && #[trigger] b[j].0 == n by {
                assert(occurrences(names, n) == occurrences(p, n) + if x == n {
                    1nat
                } else {
                    0nat
                });
                if occurrences(names, n) > 0 && n != x {
                    let j = choose|j: int| 0 <= j < a.len() && #[trigger] a[j].0 == n;
                    assert(b[j].0 == n);
                }
                if n == x {
                    assert(b[a.len() as int].0 == n);
                }
                if exists|j: int| 0 <= j < b.len() && #[trigger] b[j].0 == n {
                    let j = choose|j: int| 0 <= j < b.len() && #[trigger] b[j].0 == n;
                    if j < a.len() {
                        assert(a[j].0 == n);
                    }
                }
            }
        }
    }
}

} // verus!
