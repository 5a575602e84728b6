use github_tools::commands::close_old_prs::{close_comment, close_prompt, stale_prs, OpenPr};
use github_tools::commands::delete_stale_branches::{
    branch_action, commit_time, is_semver_branch, link_has_next, stale_cutoff, BranchAction,
};
use github_tools::commands::purge::{
    dockerhub_tag_due, github_api_url, is_blocked_tag, tagged_version_purge, threshold,
    untagged_version_due, version_created, GhcrVersion, TagFilter,
};

fn ts(s: &str) -> i64 {
    chrono::DateTime::parse_from_rfc3339(s).unwrap().timestamp()
}

#[test]
fn release_tags_are_blocked() {
    assert!(is_blocked_tag("0.40.1"));
    assert!(is_blocked_tag("0.40.1-debian"));
    assert!(is_blocked_tag("0.40.X"));
    assert!(!is_blocked_tag("nightly-2024-01-01"));
    assert!(!is_blocked_tag("0.40"));
}

#[test]
fn tag_filters_take_what_they_name() {
    assert!(TagFilter::ContainsNightly.accepts("x-nightly"));
    assert!(!TagFilter::StartsWithNightly.accepts("x-nightly"));
    assert!(TagFilter::StartsWithNightly.accepts("nightly-x"));
    assert!(TagFilter::Any.accepts("anything"));
}

#[test]
fn tagged_versions_are_purged_by_age_and_tag() {
    let now = ts("2024-06-01T00:00:00Z");
    let cutoff = threshold(30, now);
    assert_eq!(cutoff, now - 30 * 86_400);
    let old = GhcrVersion {
        id: 7,
        tags: vec!["nightly-2024-01-01".into(), "0.40.1".into(), "latest".into()],
        created_at: "2024-01-01T00:00:00Z".into(),
    };
    assert_eq!(
        tagged_version_purge(&old, now, cutoff, TagFilter::ContainsNightly),
        Some(vec!["nightly-2024-01-01".to_string()])
    );
    let young = GhcrVersion { created_at: "2024-05-30T00:00:00Z".into(), ..old };
    assert_eq!(tagged_version_purge(&young, now, cutoff, TagFilter::Any), None);
    assert_eq!(version_created("not a date", now), now);
    assert_eq!(version_created("2024-01-01T00:00:00Z", now), ts("2024-01-01T00:00:00Z"));
}

#[test]
fn untagged_versions_are_purged_when_old() {
    let now = ts("2024-06-01T00:00:00Z");
    let v = GhcrVersion { id: 1, tags: vec![], created_at: "2024-01-01T00:00:00Z".into() };
    assert!(untagged_version_due(&v, now, threshold(30, now)));
    let tagged = GhcrVersion { tags: vec!["x".into()], ..v };
    assert!(!untagged_version_due(&tagged, now, threshold(30, now)));
}

#[test]
fn dockerhub_tags_are_purged_when_old_and_taken() {
    let now = ts("2024-06-01T00:00:00Z");
    let cutoff = threshold(30, now);
    assert!(dockerhub_tag_due("nightly-x", "2024-01-01T00:00:00.000000Z", now, cutoff, TagFilter::StartsWithNightly));
    assert!(!dockerhub_tag_due("0.40.1", "2024-01-01T00:00:00Z", now, cutoff, TagFilter::Any));
    assert!(!dockerhub_tag_due("nightly-x", "2024-05-30T00:00:00Z", now, cutoff, TagFilter::Any));
    assert!(!dockerhub_tag_due("nightly-x", "garbage", now, cutoff, TagFilter::Any));
}

#[test]
fn github_versions_url_is_fixed() {
    assert_eq!(
        github_api_url(),
        "https://api.github.com/orgs/vectordotdev/packages/container/vector/versions"
    );
}

#[test]
fn old_prs_awaiting_their_author_are_closed() {
    let now = ts("2024-12-01T00:00:00Z");
    let prs = vec![
        OpenPr { number: 1, title: "old".into(), created_at: "2024-01-01T00:00:00Z".into(), labels: vec!["meta: awaiting author".into()] },
        OpenPr { number: 2, title: "old, no label".into(), created_at: "2024-01-01T00:00:00Z".into(), labels: vec![] },
        OpenPr { number: 3, title: "new".into(), created_at: "2024-11-01T00:00:00Z".into(), labels: vec!["meta: awaiting author".into()] },
        OpenPr { number: 4, title: "unreadable".into(), created_at: "?".into(), labels: vec!["meta: awaiting author".into()] },
    ];
    let m = stale_prs(&prs, now);
    assert_eq!(m, vec![(1, "old".to_string(), ts("2024-01-01T00:00:00Z"))]);
    assert_eq!(close_prompt(3), "Close 3 PR(s)?");
    assert!(close_comment().starts_with("Thank you for your contribution to Vector!"));
}

#[test]
fn branches_are_kept_skipped_or_deleted() {
    let now = ts("2024-12-01T00:00:00Z");
    let cutoff = stale_cutoff(now);
    assert_eq!(cutoff, now - 4 * 365 * 86_400);
    assert!(is_semver_branch("v0.40.1"));
    assert!(is_semver_branch("1.2.3"));
    assert!(!is_semver_branch("feature/x"));
    assert_eq!(branch_action("main", false, None, cutoff), BranchAction::Skip);
    assert_eq!(branch_action("x", true, None, cutoff), BranchAction::Skip);
    assert_eq!(branch_action("v1.0.0", false, Some(0), cutoff), BranchAction::Skip);
    assert_eq!(branch_action("x", false, Some(now), cutoff), BranchAction::Keep);
    assert_eq!(branch_action("x", false, Some(cutoff), cutoff), BranchAction::Delete);
    assert_eq!(branch_action("x", false, None, cutoff), BranchAction::Unknown);
    assert_eq!(commit_time(Some("2024-01-01T00:00:00Z")), Some(ts("2024-01-01T00:00:00Z")));
    assert_eq!(commit_time(Some("bad")), None);
    assert!(link_has_next(Some("<u>; rel=\"next\", <v>; rel=\"last\"")));
    assert!(!link_has_next(Some("<v>; rel=\"last\"")));
    assert!(!link_has_next(None));
}

#[test]
fn purges_never_take_release_tags() {
    let now = ts("2024-06-01T00:00:00Z");
    let v = GhcrVersion {
        id: 7,
        tags: vec![
            "0.39.0".to_string(),
            "nightly-2024-01-02".to_string(),
            "0.39.X-nightly".to_string(),
            "latest".to_string(),
        ],
        created_at: "2024-01-02T00:00:00Z".to_string(),
    };
    let cutoff = threshold(30, now);
    let taken = tagged_version_purge(&v, now, cutoff, TagFilter::Any).unwrap();
    assert_eq!(taken, vec!["nightly-2024-01-02".to_string(), "latest".to_string()]);
    assert!(taken.iter().all(|t| !is_blocked_tag(t)));
}

#[test]
fn special_branches_are_never_deleted() {
    let cutoff = stale_cutoff(ts("2024-06-01T00:00:00Z"));
    let ancient = Some(0);
    for (name, protected) in [("main", false), ("master", false), ("v0.40.1", false), ("0.40.1", false), ("feature", true)] {
        assert_eq!(branch_action(name, protected, ancient, cutoff), BranchAction::Skip);
    }
    assert_eq!(branch_action("feature", false, ancient, cutoff), BranchAction::Delete);
}
