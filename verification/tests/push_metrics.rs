use github_tools::commands::push_metrics::{
    age_bucket, batch_ranges, collect_metrics, BATCH_SIZE, datadog_api_url, label_to_tag, metric_totals, sanitize_tag_value,
    validate_metric_prefix, ClosedDiscussion, ClosedItem, MetricRows, MetricSeries, MetricsError,
    OpenDiscussion, OpenItem,
};
use github_tools::commands::metric_history::{
    collect_history, history_midnights, select_rows, DiscussionRow, ItemRow, RepoRows,
};
use github_tools::config::Config;

fn s(x: &str) -> String {
    x.to_string()
}

fn item(id_labels: &[&str], state: &str, created: &str, closed: Option<&str>, ty: Option<&str>, draft: bool) -> ItemRow {
    ItemRow {
        state: s(state),
        is_draft: draft,
        created_at: s(created),
        closed_at: closed.map(s),
        issue_type: ty.map(s),
        labels: id_labels.iter().map(|l| s(l)).collect(),
    }
}

/// The rows of the test database: issues 1 and 2, pull requests 3 to 6 (6 a draft), two
/// discussions.
fn test_database() -> RepoRows {
    RepoRows {
        issues: vec![
            item(&["domain: API"], "open", "2026-08-29T00:00:00Z", None, Some("Bug"), false),
            item(&["good first issue"], "closed", "2026-07-01T00:00:00Z", Some("2026-08-25T00:00:00Z"), Some("Feature"), false),
        ],
        prs: vec![
            item(&[], "open", "2026-08-01T00:00:00Z", None, None, false),
            item(&["domain: API"], "closed", "2026-08-01T00:00:00Z", Some("2026-08-26T00:00:00Z"), None, false),
            item(&[], "closed", "2026-08-01T00:00:00Z", Some("2026-08-27T00:00:00Z"), None, false),
            item(&[], "open", "2026-08-01T00:00:00Z", None, None, true),
        ],
        discussions: vec![
            DiscussionRow { category: s("Q&A"), answered: false, created_at: s("2026-08-20T00:00:00Z"), closed_at: None, closed: false },
            DiscussionRow { category: s("Ideas"), answered: true, created_at: s("2026-08-01T00:00:00Z"), closed_at: Some(s("2026-08-24T00:00:00Z")), closed: true },
        ],
    }
}

fn test_rows() -> MetricRows {
    MetricRows {
        open_issues: vec![OpenItem {
            created_at: s("2026-08-29T00:00:00Z"),
            issue_type: Some(s("Bug")),
            labels: vec![s("domain: API")],
        }],
        open_prs: vec![OpenItem {
            created_at: s("2026-08-01T00:00:00Z"),
            issue_type: None,
            labels: vec![],
        }],
        open_discussions: vec![OpenDiscussion {
            category: s("Q&A"),
            answered: false,
            created_at: s("2026-08-20T00:00:00Z"),
        }],
        closed_issues: vec![ClosedItem {
            issue_type: Some(s("Feature")),
            labels: vec![s("good first issue")],
        }],
        closed_prs: vec![
            ClosedItem { issue_type: None, labels: vec![s("domain: API")] },
            ClosedItem { issue_type: None, labels: vec![] },
        ],
        closed_discussions: vec![ClosedDiscussion { category: s("Ideas"), answered: true }],
    }
}

#[test]
fn creates_gauge_snapshots_for_open_and_windowed_activity() {
    let config = Config {
        github_token: String::new(),
        org: s("Example-Org"),
        repo: s("Example-Repo"),
    };
    let now = chrono::DateTime::parse_from_rfc3339("2026-08-31T00:00:00Z")
        .unwrap()
        .timestamp();
    let rows = select_rows(&test_database(), "2026-08-01T00:00:00Z", None);
    let series = collect_metrics(&config, "test.github", "30d", now, &rows);

    assert!(series.iter().all(|metric| metric.metric_type == 3));
    assert!(series
        .iter()
        .all(|metric| metric.tags.contains(&"repo:example-org/example-repo".to_string())));
    assert!(series.iter().any(|metric| {
        metric.metric == "test.github.prs.closed" && metric.tags.contains(&"window:30d".to_string())
    }));
    assert!(!series
        .iter()
        .any(|metric| metric.metric == "test.github.prs" && metric.points[0].value > 1));
}

#[test]
fn normalizes_label_tags_and_age_buckets() {
    assert_eq!(label_to_tag("domain: API Platform"), "domain:api_platform");
    assert_eq!(label_to_tag("Good First Issue"), "label:good_first_issue");
    assert_eq!(age_bucket("2026-08-25T00:00:00Z", 1_788_134_400), "age:0_7d");
}

#[test]
fn validates_datadog_site_and_metric_prefix() {
    assert_eq!(
        datadog_api_url("datadoghq.eu").unwrap(),
        "https://api.datadoghq.eu/api/v2/series"
    );
    assert!(datadog_api_url("https://example.com").is_err());
    assert!(validate_metric_prefix("github.health").is_ok());
    assert!(validate_metric_prefix("github-health").is_err());
}

#[test]
fn age_buckets_cover_each_range() {
    let day = 86_400;
    let now = 1_788_134_400;
    assert_eq!(age_bucket("2026-08-31T00:00:00Z", now), "age:0_7d");
    let week_old = chrono::DateTime::from_timestamp(now - 7 * day, 0).unwrap().to_rfc3339();
    assert_eq!(age_bucket(&week_old, now), "age:7_30d");
    let month_old = chrono::DateTime::from_timestamp(now - 30 * day, 0).unwrap().to_rfc3339();
    assert_eq!(age_bucket(&month_old, now), "age:30_90d");
    let old = chrono::DateTime::from_timestamp(now - 90 * day, 0).unwrap().to_rfc3339();
    assert_eq!(age_bucket(&old, now), "age:90d_plus");
    assert_eq!(age_bucket("not a date", now), "age:0_7d");
}

#[test]
fn sanitizes_tag_values() {
    assert_eq!(sanitize_tag_value("Example-Org/Example-Repo"), "example-org/example-repo");
    assert_eq!(sanitize_tag_value("  A  B  "), "a_b");
}

#[test]
fn refuses_sites_with_paths_and_prefixes_with_dashes() {
    assert_eq!(datadog_api_url("datadoghq.eu/x"), Err(MetricsError::InvalidSite));
    assert_eq!(validate_metric_prefix("a-b"), Err(MetricsError::InvalidPrefix));
}

#[test]
fn dry_run_totals_group_series_by_metric() {
    let series = vec![
        MetricSeries::gauge(s("b.metric"), 4, 0, vec![s("x:1")]),
        MetricSeries::gauge(s("a.metric"), 2, 0, vec![]),
        MetricSeries::gauge(s("b.metric"), -1, 0, vec![s("x:2")]),
        MetricSeries::gauge(s("a.metric"), 7, 0, vec![s("y")]),
    ];
    let (total, per_metric) = metric_totals(&series);
    assert_eq!(total, 12);
    assert_eq!(per_metric, vec![(s("a.metric"), 2, 9), (s("b.metric"), 2, 3)]);
}

#[test]
fn dry_run_totals_of_collected_metrics() {
    let config = Config {
        github_token: String::new(),
        org: s("Example-Org"),
        repo: s("Example-Repo"),
    };
    let series = collect_metrics(&config, "test.github", "30d", 1_788_134_400, &test_rows());
    let (total, per_metric) = metric_totals(&series);
    let expected: i128 = series.iter().map(|m| m.points[0].value as i128).sum();
    assert_eq!(total, expected);
    let names: Vec<&str> = per_metric.iter().map(|(n, _, _)| n.as_str()).collect();
    let mut sorted = names.clone();
    sorted.sort();
    sorted.dedup();
    assert_eq!(names, sorted);
    assert_eq!(per_metric.iter().map(|(_, c, _)| *c).sum::<usize>(), series.len());
}

#[test]
fn series_of_a_metric_add_up_to_its_items() {
    let config = Config {
        github_token: String::new(),
        org: s("Example-Org"),
        repo: s("Example-Repo"),
    };
    let mut rows = test_rows();
    rows.closed_issues.push(ClosedItem { issue_type: Some(s("Feature")), labels: vec![] });
    rows.closed_issues.push(ClosedItem { issue_type: None, labels: vec![s("x")] });
    let series = collect_metrics(&config, "test.github", "30d", 1_788_134_400, &rows);
    let sum = |name: &str| -> i64 {
        series.iter().filter(|m| m.metric == name).map(|m| m.points[0].value).sum()
    };
    assert_eq!(sum("test.github.issues.closed"), rows.closed_issues.len() as i64);
    assert_eq!(sum("test.github.prs.closed"), rows.closed_prs.len() as i64);
    assert_eq!(sum("test.github.issues"), rows.open_issues.len() as i64);
    assert_eq!(sum("test.github.discussions"), rows.open_discussions.len() as i64);
}

#[test]
fn current_snapshot_selects_by_state_and_window() {
    let rows = select_rows(&test_database(), "2026-08-26T00:00:00Z", None);
    assert_eq!(rows.open_issues.len(), 1);
    assert_eq!(rows.open_prs.len(), 1);
    assert_eq!(rows.closed_issues.len(), 0);
    assert_eq!(rows.closed_prs.len(), 2);
    assert_eq!(rows.open_discussions.len(), 1);
    assert_eq!(rows.closed_discussions.len(), 0);
}

#[test]
fn past_snapshot_rebuilds_what_was_open() {
    let rows = select_rows(&test_database(), "2026-07-26T00:00:00Z", Some("2026-08-25T12:00:00Z"));
    // issue 1 was not yet created, issue 2 had just been closed
    assert_eq!(rows.open_issues.len(), 0);
    assert_eq!(rows.closed_issues.len(), 1);
    assert_eq!(rows.closed_issues[0].issue_type.as_deref(), Some("Feature"));
    // pull requests 3, 4 and 5 were open; the draft is left out
    assert_eq!(rows.open_prs.len(), 3);
    assert_eq!(rows.closed_prs.len(), 0);
    assert_eq!(rows.open_discussions.len(), 1);
    assert_eq!(rows.closed_discussions.len(), 1);
}

#[test]
fn midnights_cover_the_history() {
    let day = 86_400;
    assert_eq!(history_midnights(10, 3 * day), vec![day, 2 * day]);
    assert_eq!(history_midnights(day, 3 * day + 1), vec![day, 2 * day, 3 * day]);
    assert_eq!(history_midnights(-day - 5, 0), vec![-day]);
    assert!(history_midnights(5, 5).is_empty());
}

#[test]
fn history_has_a_snapshot_per_midnight_and_now() {
    let config = Config { github_token: String::new(), org: s("o"), repo: s("r") };
    let now = 1_788_134_400 + 3600; // 2026-08-31T01:00:00Z
    let snaps = collect_history(&test_database(), &config, "t", "30d", "2026-08-29", now, 2026, 8).unwrap();
    let times: Vec<i64> = snaps.iter().map(|sn| sn.at).collect();
    assert_eq!(times, vec![1_787_961_600, 1_788_048_000, 1_788_134_400, now]);
    for sn in &snaps {
        assert!(sn.series.iter().all(|m| m.points.len() == 1 && m.points[0].timestamp == sn.at));
    }
    assert!(collect_history(&test_database(), &config, "t", "xd", "2026-08-29", now, 2026, 8).is_err());
}

#[test]
fn ascii_labels_become_lowered_tags() {
    assert_eq!(label_to_tag("Area: Sources/Kafka"), "area:sources/kafka");
    assert_eq!(label_to_tag("::weird"), "label:weird");
}

#[test]
fn series_go_out_in_batches_of_five_hundred() {
    assert_eq!(batch_ranges(1201, BATCH_SIZE), vec![(0, 500), (500, 1000), (1000, 1201)]);
    assert_eq!(batch_ranges(500, BATCH_SIZE), vec![(0, 500)]);
    assert!(batch_ranges(0, BATCH_SIZE).is_empty());
}
