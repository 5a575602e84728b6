//! Which branches are deleted as stale: those whose last commit is more than four years
//! old, release and protected branches aside. Listing and deleting are the caller's.
use crate::text::{chars_of, contains_chars, contains_seq, slice_chars, string_of, text_equal};
use crate::time::{parse_utc_seconds, utc_text_seconds};
use vstd::prelude::*;

verus! {

/// Four years of 365 days, in seconds.
pub const STALE_SECONDS: i64 = 126144000;

/// Whether the semver crate's `Version::parse` accepts `s`.
pub uninterp spec fn semver_parses(s: Seq<char>) -> bool;

/// Calls `semver::Version::parse(s)` and tells whether it succeeded. The contract names
/// the result; it states nothing of the version grammar.
#[verifier::external_body]
fn semver_valid(s: &str) -> (r: bool)
    ensures
        r == semver_parses(s@),
{
    semver::Version::parse(s).is_ok()
}

/// `name` without one leading `v`.
pub open spec fn strip_v(name: Seq<char>) -> Seq<char> {
    if name.len() > 0 && name[0] == 'v' {
        name.drop_first()
    } else {
        name
    }
}

/// Whether `name`, without a leading `v`, is a semantic version.
pub fn is_semver_branch(name: &str) -> (r: bool)
    ensures
        r == semver_parses(strip_v(name@)),
{
    let c = chars_of(name);
    let stripped = if c.len() > 0 && c[0] == 'v' {
        slice_chars(&c, 1, c.len())
    } else {
        c
    };
    assert(stripped@ == strip_v(name@));
    semver_valid(string_of(&stripped).as_str())
}

/// What becomes of a branch.
#[derive(Clone, Copy, PartialEq, Eq, Debug, Structural)]
pub enum BranchAction {
    /// Protected, `main`, `master` or a release branch: left alone.
    Skip,
    /// Committed to after the cutoff.
    Keep,
    /// Last committed to at or before the cutoff.
    Delete,
    /// Its last commit could not be found.
    Unknown,
}

/// Whether a branch is never deleted.
pub open spec fn is_special(name: Seq<char>, protected: bool) -> bool {
    protected || name == "main"@ || name == "master"@ || semver_parses(strip_v(name))
}

/// What becomes of a branch whose last commit was at `last_commit`.
pub open spec fn branch_action_spec(name: Seq<char>, protected: bool, last_commit: Option<i64>, cutoff: i64) -> BranchAction {
    if is_special(name, protected) {
        BranchAction::Skip
    } else {
        match last_commit {
            Some(t) => if t > cutoff {
                BranchAction::Keep
            } else {
                BranchAction::Delete
            },
            None => BranchAction::Unknown,
        }
    }
}

/// Whether a branch is never deleted: protected, `main`, `master`, or a release branch.
pub fn is_special_branch(name: &str, protected: bool) -> (r: bool)
    ensures
        r == is_special(name@, protected),
{
    protected || text_equal(name, "main") || text_equal(name, "master") || is_semver_branch(name)
}

/// What becomes of a branch, given the time of its last commit, if found.
pub fn branch_action(name: &str, protected: bool, last_commit: Option<i64>, cutoff: i64) -> (r: BranchAction)
    ensures
        r == branch_action_spec(name@, protected, last_commit, cutoff),
{
    if is_special_branch(name, protected) {
        return BranchAction::Skip;
    }
    match last_commit {
        Some(t) => if t > cutoff {
            BranchAction::Keep
        } else {
            BranchAction::Delete
        },
        None => BranchAction::Unknown,
    }
}

/// The stale cutoff: four years before `now`.
pub fn stale_cutoff(now: i64) -> (r: i64)
    requires
        now >= i64::MIN + STALE_SECONDS,
    ensures
        r == now - STALE_SECONDS,
        r == now - 4 * 365 * 86400,
{
    now - STALE_SECONDS
}

/// The time of a commit from its committer date, if it can be read.
pub fn commit_time(date: Option<&str>) -> (r: Option<i64>)
    ensures
        r == match date {
            Some(d) => utc_text_seconds(d@),
            None => None,
        },
{
    match date {
        Some(d) => parse_utc_seconds(d),
        None => None,
    }
}

/// Whether a `link` header announces a next page.
pub fn link_has_next(link: Option<&str>) -> (r: bool)
    ensures
        r == match link {
            Some(l) => contains_seq(l@, "rel=\"next\""@),
            None => false,
        },
{
    match link {
        Some(l) => contains_chars(&chars_of(l), &chars_of("rel=\"next\"")),
        None => false,
    }
}


/// Protected branches, `main`, `master` and release branches are never deleted, whatever
/// their last commit; any other branch is deleted exactly when its last commit is known
/// and at or before the cutoff.
pub proof fn lemma_special_branches_kept(name: Seq<char>, protected: bool, last_commit: Option<i64>, cutoff: i64)
    ensures
        is_special(name, protected) ==> branch_action_spec(name, protected, last_commit, cutoff)
            == BranchAction::Skip,
        protected || name == "main"@ || name == "master"@ ==> branch_action_spec(
            name,
            protected,
            last_commit,
            cutoff,
        ) == BranchAction::Skip,
        branch_action_spec(name, protected, last_commit, cutoff) == BranchAction::Delete <==> (
        !is_special(name, protected) && last_commit is Some && last_commit->0 <= cutoff),
{
}
} // verus!
