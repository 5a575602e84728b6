//! Which container images are old enough to be purged, on the GitHub registry and on
//! Docker Hub. Listing, deleting and the audit log are the caller's.
use super::fetch_issues::{replace_chars, replace_spec};
use crate::text::{
    chars_of, contains_chars, contains_seq, starts_with_chars, starts_with_seq, trim_end_char,
    trim_end_matches_char, string_of,
};
use crate::time::{naive_text_seconds, parse_naive_seconds, parse_utc_seconds, utc_text_seconds};
use vstd::prelude::*;

verus! {

/// Whether the regex crate's `Regex::new(pattern)` compiles and, if so, whether the
/// expression matches somewhere in `text`.
pub uninterp spec fn regex_match(pattern: Seq<char>, text: Seq<char>) -> Option<bool>;

/// Calls `regex::Regex::new(pattern)` and `is_match(text)` on it. The contract names the
/// result; it states nothing of the regex crate's syntax or matching.
#[verifier::external_body]
fn regex_is_match(pattern: &str, text: &str) -> (r: Option<bool>)
    ensures
        r == regex_match(pattern@, text@),
{
    regex::Regex::new(pattern).ok().map(|re| re.is_match(text))
}

/// The tags that are never purged: release versions `X.Y.Z` and release branches `X.Y.X`,
/// alone or followed by `.` or `-`.
pub open spec fn blocked_tag_pattern() -> Seq<char> {
    "^\\d+\\.\\d+\\.\\d+([.-]|$)|^\\d+\\.\\d+\\.X([.-]|$)"@
}

/// Whether `tag` is a release tag, which is never purged.
pub fn is_blocked_tag(tag: &str) -> (r: bool)
    ensures
        r == (regex_match(blocked_tag_pattern(), tag@) == Some(true)),
{
    match regex_is_match("^\\d+\\.\\d+\\.\\d+([.-]|$)|^\\d+\\.\\d+\\.X([.-]|$)", tag) {
        Some(b) => b,
        None => false,
    }
}

/// The GitHub API address of the versions of the `vector` container package of
/// `vectordotdev`.
pub fn github_api_url() -> (r: String)
    ensures
        r@ == "https://api.github.com/orgs/vectordotdev/packages/container/vector/versions"@,
{
    String::from_str("https://api.github.com/orgs/vectordotdev/packages/container/vector/versions")
}

/// Which tags a purge takes.
#[derive(Clone, Copy, PartialEq, Eq, Debug, Structural)]
pub enum TagFilter {
    /// Tags that contain `nightly`.
    ContainsNightly,
    /// Tags that start with `nightly`.
    StartsWithNightly,
    /// Every tag.
    Any,
}

impl TagFilter {
    /// Whether the filter takes `tag`.
    pub open spec fn takes(self, tag: Seq<char>) -> bool {
        match self {
            TagFilter::ContainsNightly => contains_seq(tag, "nightly"@),
            TagFilter::StartsWithNightly => starts_with_seq(tag, "nightly"@),
            TagFilter::Any => true,
        }
    }

    /// Whether the filter takes `tag`.
    pub fn accepts(&self, tag: &str) -> (r: bool)
        ensures
            r == self.takes(tag@),
    {
        match self {
            TagFilter::ContainsNightly => contains_chars(&chars_of(tag), &chars_of("nightly")),
            TagFilter::StartsWithNightly => starts_with_chars(&chars_of(tag), &chars_of("nightly")),
            TagFilter::Any => true,
        }
    }
}

/// The instant `days_old` days before `now`, in seconds.
pub open spec fn threshold_spec(days_old: u32, now: i64) -> int {
    now - days_old * 86400
}

/// The purge threshold: `days_old` days before `now`.
pub fn threshold(days_old: u32, now: i64) -> (r: i64)
    requires
        threshold_spec(days_old, now) >= i64::MIN,
    ensures
        r == threshold_spec(days_old, now),
{
    now - (days_old as i64) * 86400
}

/// When a registry version was created: its `created_at` without trailing `Z`s read as a
/// UTC date and time, or `now` if it cannot be read.
pub open spec fn version_created_spec(created_at: Seq<char>, now: i64) -> i64 {
    match naive_text_seconds(trim_end_char(created_at, 'Z')) {
        Some(t) => t,
        None => now,
    }
}

/// When a registry version was created, in seconds.
pub fn version_created(created_at: &str, now: i64) -> (r: i64)
    ensures
        r == version_created_spec(created_at@, now),
{
    let trimmed = trim_end_matches_char(&chars_of(created_at), 'Z');
    match parse_naive_seconds(string_of(&trimmed).as_str()) {
        Some(t) => t,
        None => now,
    }
}

/// A version of the GitHub container package.
pub struct GhcrVersion {
    pub id: u64,
    pub tags: Vec<String>,
    pub created_at: String,
}

/// The tags of `tags` that the filter takes and that are not release tags, in order.
pub open spec fn purgeable_tags(tags: Seq<Seq<char>>, filter: TagFilter) -> Seq<Seq<char>>
    decreases tags.len(),
{
    if tags.len() == 0 {
        Seq::empty()
    } else {
        let before = purgeable_tags(tags.drop_last(), filter);
        let t = tags.last();
        if regex_match(blocked_tag_pattern(), t) != Some(true) && filter.takes(t) {
            before.push(t)
        } else {
            before
        }
    }
}

/// The tags of a tagged version to purge: none if it was created at the threshold or
/// later or if no tag is purgeable, else the purgeable tags.
pub open spec fn tagged_purge_spec(v: GhcrVersion, now: i64, cutoff: i64, filter: TagFilter) -> Option<Seq<Seq<char>>> {
    let tags = purgeable_tags(crate::sorting::texts(v.tags@), filter);
    if version_created_spec(v.created_at@, now) >= cutoff || tags.len() == 0 {
        None
    } else {
        Some(tags)
    }
}

/// The tags of a version that a purge with `filter` takes, if it was created before
/// `cutoff` and any tag is purgeable.
pub fn tagged_version_purge(v: &GhcrVersion, now: i64, cutoff: i64, filter: TagFilter) -> (r: Option<Vec<String>>)
    ensures
        match r {
            Some(tags) => tagged_purge_spec(*v, now, cutoff, filter) == Some(crate::sorting::texts(tags@)),
            None => tagged_purge_spec(*v, now, cutoff, filter) is None,
        },
{
    let created = version_created(v.created_at.as_str(), now);
    if created >= cutoff {
        return None;
    }
    let ghost tt = crate::sorting::texts(v.tags@);
    let mut out: Vec<String> = Vec::new();
    let mut i: usize = 0;
    while i < v.tags.len()
        invariant
            i <= v.tags@.len(),
            tt == crate::sorting::texts(v.tags@),
            crate::sorting::texts(out@) == purgeable_tags(tt.take(i as int), filter),
        decreases v.tags.len() - i,
    {
        proof {
            assert(tt.take(i + 1).drop_last() == tt.take(i as int));
            assert(tt.take(i + 1).last() == v.tags@[i as int]@);
        }
        let t = &v.tags[i];
        if !is_blocked_tag(t.as_str()) && filter.accepts(t.as_str()) {
            let ghost prev = out@;
            out.push(t.clone());
            assert(crate::sorting::texts(out@) =~= crate::sorting::texts(prev).push(t@));
        }
        i += 1;
    }
    assert(tt.take(v.tags@.len() as int) == tt);
    if out.len() == 0 {
        return None;
    }
    Some(out)
}

/// Whether an untagged version is purged: it has no tag and was created before `cutoff`.
pub fn untagged_version_due(v: &GhcrVersion, now: i64, cutoff: i64) -> (r: bool)
    ensures
        r == (v.tags@.len() == 0 && version_created_spec(v.created_at@, now) < cutoff),
{
    v.tags.len() == 0 && version_created(v.created_at.as_str(), now) < cutoff
}

/// When a Docker Hub tag was last updated: its `last_updated` with `Z` written `+00:00`
/// read as a UTC date and time, or `now` if it cannot be read.
pub open spec fn tag_updated_spec(last_updated: Seq<char>, now: i64) -> i64 {
    match utc_text_seconds(replace_spec(last_updated, seq!['Z'], "+00:00"@)) {
        Some(t) => t,
        None => now,
    }
}

/// When a Docker Hub tag was last updated, in seconds.
pub fn tag_updated(last_updated: &str, now: i64) -> (r: i64)
    ensures
        r == tag_updated_spec(last_updated@, now),
{
    let mut z: Vec<char> = Vec::new();
    z.push('Z');
    let rep = chars_of("+00:00");
    let replaced = replace_chars(&chars_of(last_updated), &z, &rep);
    assert(z@ == seq!['Z']);
    match parse_utc_seconds(string_of(&replaced).as_str()) {
        Some(t) => t,
        None => now,
    }
}

/// Whether a Docker Hub tag is purged: not a release tag, last updated before `cutoff`,
/// and taken by the filter.
pub fn dockerhub_tag_due(name: &str, last_updated: &str, now: i64, cutoff: i64, filter: TagFilter) -> (r: bool)
    ensures
        r == (regex_match(blocked_tag_pattern(), name@) != Some(true) && tag_updated_spec(
            last_updated@,
            now,
        ) < cutoff && filter.takes(name@)),
{
    if is_blocked_tag(name) {
        return false;
    }
    tag_updated(last_updated, now) < cutoff && filter.accepts(name)
}


proof fn lemma_purgeable_tags_spared(tags: Seq<Seq<char>>, filter: TagFilter, k: int)
    requires
        0 <= k < purgeable_tags(tags, filter).len(),
    ensures
        regex_match(blocked_tag_pattern(), purgeable_tags(tags, filter)[k]) != Some(true),
        filter.takes(purgeable_tags(tags, filter)[k]),
        tags.contains(purgeable_tags(tags, filter)[k]),
    decreases tags.len(),
{
    let before = purgeable_tags(tags.drop_last(), filter);
    if k < before.len() {
        lemma_purgeable_tags_spared(tags.drop_last(), filter, k);
        let j = choose|j: int| 0 <= j < tags.drop_last().len() && tags.drop_last()[j] == before[k];
        assert(tags[j] == before[k]);
    } else {
        assert(tags[tags.len() - 1] == tags.last());
    }
}

/// A purge of a tagged version never takes a release tag: each tag it records is one of
/// the version's tags, is not a release version or release branch, and is taken by the
/// filter; and the version was created before the cutoff.
pub proof fn lemma_purge_spares_release_tags(v: GhcrVersion, now: i64, cutoff: i64, filter: TagFilter, k: int)
    requires
        tagged_purge_spec(v, now, cutoff, filter) is Some,
        0 <= k < tagged_purge_spec(v, now, cutoff, filter)->0.len(),
    ensures
        ({
            let t = tagged_purge_spec(v, now, cutoff, filter)->0[k];
            &&& regex_match(blocked_tag_pattern(), t) != Some(true)
            &&& filter.takes(t)
            &&& crate::sorting::texts(v.tags@).contains(t)
            &&& regex_match("^\\d+\\.\\d+\\.\\d+([.-]|$)|^\\d+\\.\\d+\\.X([.-]|$)"@, t)
                != Some(true)
            &&& filter == TagFilter::ContainsNightly ==> contains_seq(t, "nightly"@)
            &&& filter == TagFilter::StartsWithNightly ==> starts_with_seq(t, "nightly"@)
        }),
        version_created_spec(v.created_at@, now) < cutoff,
{
    lemma_purgeable_tags_spared(crate::sorting::texts(v.tags@), filter, k);
}
} // verus!
