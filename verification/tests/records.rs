use github_tools::commands::compact::{dedup_key_field, dedup_last_wins};
use github_tools::commands::{merge_records, upsert_json_record};
use github_tools::json::{json_equal, Json};
use std::collections::HashMap;

fn text(x: &str) -> Json {
    Json::Text(x.to_string())
}

fn num(x: &str) -> Json {
    Json::Number(x.to_string())
}

fn object(members: Vec<(&str, Json)>) -> Json {
    Json::Object(members.into_iter().map(|(k, v)| (k.to_string(), v)).collect())
}

fn keys(v: &Json) -> Vec<String> {
    match v {
        Json::Object(m) => m.iter().map(|(k, _)| k.clone()).collect(),
        _ => vec![],
    }
}

fn member<'a>(v: &'a Json, key: &str) -> Option<&'a Json> {
    match v {
        Json::Object(m) => m.iter().find(|(k, _)| k == key).map(|(_, v)| v),
        _ => None,
    }
}

#[test]
fn preserves_existing_key_order_for_equal_records() {
    let existing = object(vec![("title", text("same")), ("number", num("1"))]);
    let mut records = HashMap::from([(1, existing)]);

    let fresh = object(vec![("number", num("1")), ("title", text("same"))]);
    upsert_json_record(&mut records, 1, fresh);

    assert_eq!(keys(&records[&1]), ["title", "number"]);
}

#[test]
fn replaces_records_when_content_changed() {
    let old = object(vec![("number", num("1")), ("title", text("old"))]);
    let mut records = HashMap::from([(1, old)]);

    let fresh = object(vec![("number", num("1")), ("title", text("new"))]);
    upsert_json_record(&mut records, 1, fresh);

    assert!(matches!(member(&records[&1], "title"), Some(Json::Text(t)) if t == "new"));
}

#[test]
fn upsert_adds_a_new_record_and_keeps_the_others() {
    let mut records = HashMap::from([(1, object(vec![("number", num("1"))]))]);
    upsert_json_record(&mut records, 2, object(vec![("number", num("2"))]));
    assert_eq!(records.len(), 2);
    assert!(matches!(member(&records[&1], "number"), Some(Json::Number(n)) if n == "1"));
    assert!(matches!(member(&records[&2], "number"), Some(Json::Number(n)) if n == "2"));
}

#[test]
fn json_equality_ignores_member_order_only() {
    let a = object(vec![("a", Json::Array(vec![num("1"), Json::Null])), ("b", Json::Bool(true))]);
    let b = object(vec![("b", Json::Bool(true)), ("a", Json::Array(vec![num("1"), Json::Null]))]);
    let c = object(vec![("b", Json::Bool(true)), ("a", Json::Array(vec![Json::Null, num("1")]))]);
    assert!(json_equal(&a, &b));
    assert!(!json_equal(&a, &c));
    assert!(!json_equal(&num("1"), &text("1")));
}

#[test]
fn merge_prefers_fresh_records_and_sorts_by_number() {
    let existing = vec![(3u64, "c"), (1, "a"), (2, "b-old")];
    let fresh = vec![(2u64, "b-new"), (4, "d")];
    let merged = merge_records(existing, fresh);
    assert_eq!(merged, vec![(1, "a"), (2, "b-new"), (3, "c"), (4, "d")]);
}

#[test]
fn merge_keeps_the_last_of_repeated_stored_records() {
    let existing = vec![(1u64, "first"), (1, "second")];
    let merged = merge_records(existing, Vec::new());
    assert_eq!(merged, vec![(1, "second")]);
}

#[test]
fn dedup_keeps_the_last_record_of_each_key_in_first_position() {
    let items = vec![
        ("a".to_string(), 1),
        ("b".to_string(), 2),
        ("a".to_string(), 3),
    ];
    let out = dedup_last_wins(items);
    assert_eq!(out, vec![("a".to_string(), 3), ("b".to_string(), 2)]);
}

#[test]
fn dedup_key_is_number_for_discussions() {
    assert_eq!(dedup_key_field(true, false), "number");
    assert_eq!(dedup_key_field(true, true), "id");
    assert_eq!(dedup_key_field(false, false), "id");
}
