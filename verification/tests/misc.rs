use github_tools::commands::build_db::{partition_items, RawItem, RawLabel};
use github_tools::commands::fetch_issues::{
    page_step, parse_since_at, rest_state, split_at_since, stable_id, year_bucket, PageStep,
    SinceError,
};
use github_tools::commands::fetch_labels::is_last_page;
use github_tools::config::{Config, Repo};
use github_tools::is_affirmative;
use std::hash::{DefaultHasher, Hash, Hasher};

#[test]
fn repositories_split_at_the_first_slash() {
    let r = Repo::parse("vectordotdev/vector").ok().unwrap();
    assert_eq!((r.org.as_str(), r.name.as_str()), ("vectordotdev", "vector"));
    let nested = Repo::parse("a/b/c").ok().unwrap();
    assert_eq!(nested.name, "b/c");
    let err = Repo::parse("novector").err().unwrap();
    assert_eq!(err.message(), "expected org/name, got \"novector\"");
    let quoted = Repo::parse("say \"hi\"").err().unwrap();
    assert_eq!(quoted.message(), "expected org/name, got \"say \\\"hi\\\"\"");
    let c = Config::with_token(&r, "t".to_string());
    assert_eq!(c.file_prefix(), "vectordotdev_vector");
}

#[test]
fn since_values_are_read_at_a_given_instant() {
    let now = chrono::DateTime::parse_from_rfc3339("2026-03-15T12:00:00Z").unwrap().timestamp();
    assert_eq!(parse_since_at("30d", now, 2026, 3).unwrap(), "2026-02-13T12:00:00Z");
    assert_eq!(parse_since_at("3m", now, 2026, 3).unwrap(), "2025-12-01T00:00:00Z");
    assert_eq!(parse_since_at("1y", now, 2026, 3).unwrap(), "2025-03-01T00:00:00Z");
    assert_eq!(parse_since_at("2026-01", now, 2026, 3).unwrap(), "2026-01-01T00:00:00Z");
    assert_eq!(parse_since_at("2026-01-02", now, 2026, 3).unwrap(), "2026-01-02T00:00:00Z");
    assert_eq!(parse_since_at("2026-01-02T03:04:05Z", now, 2026, 3).unwrap(), "2026-01-02T03:04:05Z");
    assert_eq!(parse_since_at("xd", now, 2026, 3).err(), Some(SinceError::InvalidNumber));
    assert_eq!(SinceError::InvalidNumber.message(), "Invalid number in relative date");
}

#[test]
fn year_buckets_take_the_first_four_bytes() {
    assert_eq!(year_bucket("2024-05-01T00:00:00Z"), "2024");
    assert_eq!(year_bucket("20"), "unknown");
    assert_eq!(year_bucket("ééé"), "éé");
    assert_eq!(year_bucket("aéé"), "unknown");
}

#[test]
fn graphql_states_become_rest_states() {
    assert_eq!(rest_state(Some("MERGED")), "closed");
    assert_eq!(rest_state(Some("OPEN")), "open");
    assert_eq!(rest_state(None), "open");
}

#[test]
fn stable_ids_hash_the_node_id() {
    let mut h = DefaultHasher::new();
    "MDU6SXNzdWUx".hash(&mut h);
    let expected = (h.finish() & 0x7FFF_FFFF_FFFF_FFFF) as i64;
    assert_eq!(stable_id("MDU6SXNzdWUx"), expected);
    assert!(stable_id("x") >= 0);
}

#[test]
fn pages_go_on_until_the_last_or_the_boundary() {
    assert_eq!(page_step(false, false, true, true, false), PageStep::StopOnFailedRequest);
    assert_eq!(page_step(true, true, true, true, false), PageStep::StopOnErrors);
    assert_eq!(page_step(true, false, false, true, false), PageStep::MissingNodes);
    assert_eq!(page_step(true, false, true, true, false), PageStep::Next);
    assert_eq!(page_step(true, false, true, true, true), PageStep::Done);
    assert_eq!(page_step(true, false, true, false, false), PageStep::Done);
    let (keep, hit) = split_at_since(&vec!["2024-02-01".into(), "2023-12-31".into()], "2024-01-01");
    assert_eq!(keep, vec![true, false]);
    assert!(hit);
    assert!(is_last_page(99, 100));
    assert!(!is_last_page(100, 100));
}

#[test]
fn confirmation_accepts_y_and_yes() {
    assert!(is_affirmative(" Y \n"));
    assert!(is_affirmative("yes"));
    assert!(is_affirmative("YES"));
    assert!(!is_affirmative("no"));
    assert!(!is_affirmative(""));
}

fn label(id: Option<i64>, name: &str) -> RawLabel {
    RawLabel { id, name: name.to_string(), color: "fff".to_string(), description: None }
}

fn item(id: i64, pr: bool, labels: Vec<RawLabel>) -> RawItem {
    RawItem {
        id,
        number: id,
        title: String::new(),
        state: "open".to_string(),
        created_at: String::new(),
        updated_at: String::new(),
        closed_at: None,
        user_login: None,
        issue_type: None,
        is_pull_request: pr,
        draft: false,
        labels,
    }
}

#[test]
fn items_are_partitioned_into_table_rows() {
    let items = vec![
        item(1, false, vec![label(Some(10), "bug"), label(None, "x")]),
        item(2, true, vec![label(Some(10), "bug"), label(Some(11), "docs")]),
        item(1, false, vec![label(Some(10), "bug again")]),
    ];
    let p = partition_items(&items);
    assert_eq!(p.issues, vec![0, 2]);
    assert_eq!(p.pull_requests, vec![1]);
    assert_eq!(p.labels, vec![(0, 0), (1, 1)]);
    assert_eq!(p.links, vec![(1, 10), (2, 10), (2, 11)]);
}
