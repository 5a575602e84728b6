use github_tools::commands::generate_charts::contributors::{classify_contributors, yearly_stats};
use github_tools::commands::generate_charts::markup::{html_escape, inline_md_to_html};
use github_tools::commands::generate_charts::notes::{
    data_notes_html, months_back, replace_marked, yearly_md_table, yearly_table,
};
use github_tools::commands::generate_charts::page::{render_html, render_index_html, ChartEntry};
use github_tools::commands::generate_charts::palette::{is_bot, label_color, palette};
use github_tools::commands::generate_charts::series::{filter_by_start, resolve_type_overlays};
use github_tools::commands::generate_charts::{
    contributor_heatmap, discussion_trend, integration_trends, label_breakdown,
    label_counts_over_time, monthly_trend, open_closed_by_label, unique_contributors_monthly,
    unique_contributors_yearly,
};
use github_tools::table::{parse_i64, Row};

fn row(cells: &[(&str, &str)]) -> Row {
    Row {
        cells: cells
            .iter()
            .map(|(k, v)| (k.to_string(), v.to_string()))
            .collect(),
    }
}

fn djb2(name: &str) -> u64 {
    name.bytes()
        .fold(5381u64, |h, b| h.wrapping_mul(33).wrapping_add(b as u64))
}

#[test]
fn label_colors_are_fixed_or_hashed_into_the_palette() {
    assert_eq!(label_color("type: bug"), "#FF4C4C");
    assert_eq!(label_color("Feature"), "#4C9AFF");
    assert_eq!(label_color("domain: sinks"), "#ad4f47");
    let name = "source: kafka";
    assert_eq!(label_color(name), palette((djb2(name) as usize) % 15));
    assert_eq!(palette(0), "#4C9AFF");
    assert_eq!(palette(16), "#36B37E");
}

#[test]
fn bots_are_recognised() {
    assert!(is_bot("github-actions[bot]"));
    assert!(is_bot("dependabot"));
    assert!(!is_bot("alice"));
}

#[test]
fn cells_parse_around_white_space_or_count_as_zero() {
    assert_eq!(parse_i64(" 42 "), 42);
    assert_eq!(parse_i64("-7"), -7);
    assert_eq!(parse_i64("x"), 0);
    assert_eq!(parse_i64(""), 0);
}

#[test]
fn start_filter_keeps_months_from_the_start() {
    let rows = vec![
        row(&[("month", "2024-01")]),
        row(&[("month", "2024-03")]),
        row(&[("count", "1")]),
    ];
    let kept = filter_by_start(&rows, Some("2024-02"));
    assert_eq!(kept.len(), 1);
    assert_eq!(kept[0].get("month").unwrap(), "2024-03");
    assert_eq!(filter_by_start(&rows, None).len(), 3);
}

#[test]
fn monthly_trend_sums_issue_type_overlays() {
    let rows = vec![
        row(&[("month", "2024-01"), ("created_issues", "3"), ("closed_issues", "1"), ("type: bug", "2"), ("Bug", "1")]),
        row(&[("month", "2024-02"), ("created_issues", "5"), ("closed_issues", "x")]),
    ];
    let refs: Vec<&Row> = rows.iter().collect();
    let cols: Vec<String> = vec!["month".into(), "type: bug".into(), "Bug".into(), "Task".into()];
    let overlays = resolve_type_overlays(&cols);
    assert_eq!(overlays.len(), 2);
    assert_eq!(overlays[0].0, "type: bug");
    assert_eq!(overlays[0].1, vec!["type: bug".to_string(), "Bug".to_string()]);
    assert_eq!(overlays[1].0, "type: task");
    let chart = monthly_trend(&refs, "created_issues", "closed_issues", &overlays);
    assert_eq!(chart.categories, vec!["2024-01".to_string(), "2024-02".to_string()]);
    assert_eq!(chart.series.len(), 4);
    assert_eq!(chart.series[0].values, vec![3, 5]);
    assert_eq!(chart.series[1].values, vec![1, 0]);
    assert_eq!(chart.series[2].values, vec![3, 0]);
    assert!(chart.series[2].dashed);
    assert_eq!(chart.series[2].color, "#FF4C4C");
    assert_eq!(chart.series[3].values, vec![0, 0]);
}

#[test]
fn discussion_trend_has_three_series() {
    let rows = vec![row(&[("month", "2024-01"), ("created_discussions", "4"), ("closed_discussions", "2"), ("answered_discussions", "1")])];
    let refs: Vec<&Row> = rows.iter().collect();
    let chart = discussion_trend(&refs);
    assert_eq!(chart.series.len(), 3);
    assert_eq!(chart.series[2].name, "Answered");
    assert_eq!(chart.series[2].values, vec![1]);
}

#[test]
fn label_breakdown_takes_the_top_labels_stably() {
    let mut rows = vec![
        row(&[("label_name", "no-changelog"), ("count", "100")]),
        row(&[("label_name", "b"), ("count", "5")]),
        row(&[("label_name", "a"), ("count", "7")]),
        row(&[("label_name", "c"), ("count", "5")]),
    ];
    for k in 0..25 {
        rows.push(row(&[("label_name", &format!("x{k}")), ("count", "1")]));
    }
    let refs: Vec<&Row> = rows.iter().collect();
    let bars = label_breakdown(&refs);
    assert_eq!(bars.len(), 20);
    let names: Vec<&str> = bars.iter().take(4).map(|b| b.label.as_str()).collect();
    assert_eq!(names, ["a", "b", "c", "x0"]);
    assert_eq!(bars[0].count, 7);
    assert_eq!(bars[0].color, label_color("a"));
}

#[test]
fn open_closed_keeps_integrations_by_total() {
    let rows = vec![
        row(&[("label_name", "source: file"), ("open_count", "1"), ("closed_count", "1")]),
        row(&[("label_name", "sink: http"), ("open_count", "3"), ("closed_count", "4")]),
        row(&[("label_name", "domain: core"), ("open_count", "9"), ("closed_count", "9")]),
    ];
    let refs: Vec<&Row> = rows.iter().collect();
    let v = open_closed_by_label(&refs).unwrap();
    assert_eq!(v.len(), 2);
    assert_eq!(v[0].label, "sink: http");
    assert_eq!((v[0].open, v[0].closed), (3, 4));
    let none = vec![row(&[("label_name", "domain: core")])];
    let refs: Vec<&Row> = none.iter().collect();
    assert!(open_closed_by_label(&refs).is_none());
}

#[test]
fn label_counts_over_time_pivots_by_month() {
    let rows = vec![
        row(&[("month", "2024-02"), ("label_name", "a"), ("count", "1")]),
        row(&[("month", "2024-01"), ("label_name", "b"), ("count", "5")]),
        row(&[("month", "2024-02"), ("label_name", "a"), ("count", "2")]),
        row(&[("month", "2024-03"), ("label_name", "no-changelog"), ("count", "9")]),
    ];
    let refs: Vec<&Row> = rows.iter().collect();
    let chart = label_counts_over_time(&refs);
    assert_eq!(chart.categories, vec!["2024-01".to_string(), "2024-02".to_string()]);
    assert_eq!(chart.series.len(), 2);
    assert_eq!(chart.series[0].name, "b");
    assert_eq!(chart.series[0].values, vec![5, 0]);
    assert_eq!(chart.series[1].name, "a");
    assert_eq!(chart.series[1].values, vec![0, 3]);
}

#[test]
fn integration_trends_take_the_busiest_columns() {
    let rows = vec![
        row(&[("month", "2024-01"), ("source: a", "1"), ("sink: b", "4")]),
        row(&[("month", "2024-02"), ("source: a", "2"), ("sink: b", "0")]),
    ];
    let refs: Vec<&Row> = rows.iter().collect();
    let cols: Vec<String> = vec!["month".into(), "source: a".into(), "sink: b".into()];
    let chart = integration_trends(&refs, &cols).unwrap();
    assert_eq!(chart.series[0].name, "sink: b");
    assert_eq!(chart.series[0].color, palette(0));
    assert_eq!(chart.series[1].values, vec![1, 2]);
    assert!(integration_trends(&refs, &["month".to_string()]).is_none());
}

#[test]
fn contributors_are_classified_new_then_returning() {
    let rows = vec![
        row(&[("month", "2024-02"), ("user_login", "alice")]),
        row(&[("month", "2024-01"), ("user_login", "alice")]),
        row(&[("month", "2024-01"), ("user_login", "bob")]),
        row(&[("month", "2024-02"), ("user_login", "carol")]),
        row(&[("month", "2024-02"), ("user_login", "carol")]),
        row(&[("month", "2024-03")]),
    ];
    let refs: Vec<&Row> = rows.iter().collect();
    let c = classify_contributors(&refs);
    let got: Vec<(&str, i64, i64)> = c.iter().map(|p| (p.period.as_str(), p.new, p.returning)).collect();
    assert_eq!(got, [("2024-01", 2, 0), ("2024-02", 1, 2), ("2024-03", 0, 0)]);
    assert_eq!(unique_contributors_monthly(&refs).unwrap().len(), 3);
    let yearly = unique_contributors_yearly(&refs).unwrap();
    assert_eq!((yearly[0].period.as_str(), yearly[0].new, yearly[0].returning), ("2024", 3, 0));
    let stats = yearly_stats(&refs);
    assert_eq!((stats[0].period.as_str(), stats[0].new, stats[0].returning), ("2024", 3, 0));
    assert!(unique_contributors_monthly(&[]).is_none());
}

#[test]
fn heatmap_keeps_the_last_twelve_months_and_top_authors() {
    let mut rows = Vec::new();
    for m in 1..=13 {
        rows.push(row(&[("month", &format!("2024-{m:02}")), ("user_login", "alice"), ("count", "1")]));
    }
    rows.push(row(&[("month", "2024-13"), ("user_login", "bob"), ("count", "5")]));
    let refs: Vec<&Row> = rows.iter().collect();
    let h = contributor_heatmap(&refs).unwrap();
    assert_eq!(h.months.len(), 12);
    assert_eq!(h.months[0], "2024-02");
    assert_eq!(h.users, vec!["alice".to_string(), "bob".to_string()]);
    assert_eq!(h.max, 5);
    assert_eq!(h.cells.len(), 13);
    assert_eq!(h.cells[12], (11, 1, 5));
    assert!(contributor_heatmap(&[]).is_none());
}

#[test]
fn escapes_html_and_converts_inline_markdown() {
    assert_eq!(html_escape("a<b>&\"c\""), "a&lt;b&gt;&amp;&quot;c&quot;");
    assert_eq!(
        inline_md_to_html("**bold** and `x<y>` & *one*"),
        "<strong>bold</strong> and <code>x&lt;y&gt;</code> &amp; *one*"
    );
    assert_eq!(inline_md_to_html("**open"), "<strong>open</strong>");
}

#[test]
fn data_notes_become_a_list() {
    let text = "# Trends\n## Data notes\n- first **note**\n  - second\nplain\n- third\n## Next\n- not this";
    assert_eq!(
        data_notes_html(text).unwrap(),
        "<div class=\"notes\"><h3>Data notes</h3><ul><li>first <strong>note</strong></li><li>second</li></ul><ul><li>third</li></ul></div>"
    );
    assert!(data_notes_html("## Data notes\nnothing listed\n").is_none());
    assert!(data_notes_html("no section").is_none());
}

#[test]
fn marked_blocks_are_replaced() {
    assert_eq!(
        replace_marked("a<S>old<E>b", "<S>", "<E>", "new").unwrap(),
        "a<S>new<E>b"
    );
    assert!(replace_marked("a<S>old", "<S>", "<E>", "new").is_none());
}

#[test]
fn default_start_goes_back_whole_months() {
    assert_eq!(months_back(2026, 8, 25), "2024-08");
    assert_eq!(months_back(2026, 1, 13), "2025-01");
    assert_eq!(months_back(2026, 12, 1), "2026-12");
}

#[test]
fn yearly_tables_mark_the_current_year() {
    let rows = vec![
        row(&[("month", "2025-03"), ("user_login", "alice")]),
        row(&[("month", "2026-01"), ("user_login", "alice")]),
        row(&[("month", "2026-02"), ("user_login", "bob")]),
    ];
    let refs: Vec<&Row> = rows.iter().collect();
    let stats = yearly_stats(&refs);
    let md = yearly_md_table(&stats, 2026, 3);
    assert_eq!(
        md,
        "\n| Year | Unique | New | Returning |\n|------|--------|-----|----------|\n| 2025 | 1 | 1 | 0 |\n| 2026 (YTD, 2mo) | 2 | 1 | 1 |\n"
    );
    let html = yearly_table(&stats, 2026, 3);
    assert!(html.contains("<tr><td>2026 (YTD, 2mo)</td><td>2</td><td>1</td><td>1</td></tr>"));
    assert!(html.contains("<tr><td>2025</td><td>1</td><td>1</td><td>0</td></tr>"));
}

#[test]
fn pages_number_charts_across_sections() {
    let entry = |title: &str| ChartEntry {
        title: title.to_string(),
        note: Some("a <note>".to_string()),
        json: "{}".to_string(),
        height_px: 400,
        extra_html: None,
    };
    let sections = vec![
        ("Issues".to_string(), vec![entry("One"), entry("Two")]),
        ("Empty".to_string(), vec![]),
        ("PRs".to_string(), vec![entry("Three")]),
    ];
    let page = render_html("o/r", &sections, Some("<div>notes</div>"), "https://github.com/o/r");
    assert!(page.contains("<title>o/r — Trends</title>"));
    assert!(page.contains("<div id=\"c3\" data-chart style=\"height:400px;\"></div>"));
    assert!(page.contains("<p class=\"chart-note\">a &lt;note&gt;</p>"));
    assert!(page.contains("echarts.init(document.getElementById('c2')).setOption({});"));
    assert!(!page.contains("Empty"));
    assert!(page.contains("<div>notes</div>\n<div class=\"section-title\">Issues</div>"));
}

#[test]
fn index_lists_vectordotdev_first() {
    let repos = vec![
        ("zeta".to_string(), "z1".to_string()),
        ("alpha".to_string(), "a1".to_string()),
        ("vectordotdev".to_string(), "vector".to_string()),
        ("alpha".to_string(), "a2".to_string()),
    ];
    let page = render_index_html(&repos);
    let v = page.find("<h2>vectordotdev</h2>").unwrap();
    let a = page.find("<h2>alpha</h2>").unwrap();
    let z = page.find("<h2>zeta</h2>").unwrap();
    assert!(v < a && a < z);
    assert!(page.contains("<h2>alpha</h2><ul>\n<li><a href=\"a1/index.html\">a1</a></li>\n<li><a href=\"a2/index.html\">a2</a></li>\n</ul>\n"));
}

#[test]
fn every_contributor_is_new_once() {
    let rows = vec![
        row(&[("month", "2024-03"), ("user_login", "dave")]),
        row(&[("month", "2024-01"), ("user_login", "alice")]),
        row(&[("month", "2024-02"), ("user_login", "alice")]),
        row(&[("month", "2024-02"), ("user_login", "bob")]),
        row(&[("month", "2024-03"), ("user_login", "bob")]),
        row(&[("month", "2024-03"), ("user_login", "carol")]),
    ];
    let refs: Vec<&Row> = rows.iter().collect();
    let total_new: i64 = classify_contributors(&refs).iter().map(|p| p.new).sum();
    assert_eq!(total_new, 4);
    let yearly_new: i64 = yearly_stats(&refs).iter().map(|p| p.new).sum();
    assert_eq!(yearly_new, 4);
}

#[test]
fn escaped_text_holds_no_markup() {
    let escaped = html_escape("<a href=\"x\">Tom & Jerry</a>");
    assert!(!escaped.contains('<') && !escaped.contains('>') && !escaped.contains('"'));
    assert_eq!(html_escape("plain text, no markup"), "plain text, no markup");
}

#[test]
fn csv_text_becomes_rows_under_the_header() {
    let rows = github_tools::table::read_rows(b"month,count\n2024-01,3\n\"2024-02\",\"4\"\n").unwrap();
    assert_eq!(rows.len(), 2);
    assert_eq!(rows[1].get("month").map(|s| s.as_str()), Some("2024-02"));
    assert_eq!(rows[0].number("count"), 3);
    assert!(github_tools::table::read_rows(b"month,count\n2024-01\n").is_none());
    assert!(github_tools::table::read_rows(b"").unwrap().is_empty());
}
