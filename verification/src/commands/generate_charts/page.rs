//! The HTML pages: a repository's trend page and the overview of all repositories.
use super::markup::{html_escape, html_escape_spec, push_escaped};
use crate::sorting::{
    insert_sorted_unique, lemma_push_to_set, lemma_sorted_distinct, position_of, sorted_distinct,
    strictly_increasing, texts,
};
use crate::text::{chars_of, decimal, push_all, push_str, string_of, text_equal, u64_decimal};
use vstd::prelude::*;

verus! {

/// A chart on the page: its title, an optional note, its ECharts options as JSON, its
/// height, and optional HTML shown under it.
pub struct ChartEntry {
    pub title: String,
    pub note: Option<String>,
    pub json: String,
    pub height_px: u32,
    pub extra_html: Option<String>,
}

/// The text of an optional string.
pub open spec fn opt_string(o: Option<String>) -> Option<Seq<char>> {
    match o {
        Some(s) => Some(s@),
        None => None,
    }
}

/// The card of chart number `n`.
pub open spec fn entry_card(e: ChartEntry, n: nat) -> Seq<char> {
    "<div class=\"card\"><h3 class=\"chart-title\">"@ + html_escape_spec(e.title@)
        + "</h3><div id=\"c"@ + decimal(n) + "\" data-chart style=\"height:"@ + decimal(
        e.height_px as nat,
    ) + "px;\"></div>"@ + match opt_string(e.note) {
        Some(note) => "<p class=\"chart-note\">"@ + html_escape_spec(note) + "</p>"@,
        None => Seq::empty(),
    } + match opt_string(e.extra_html) {
        Some(extra) => extra,
        None => Seq::empty(),
    } + "</div>\n"@
}

/// The script line that draws chart number `n`.
pub open spec fn entry_init(e: ChartEntry, n: nat) -> Seq<char> {
    "echarts.init(document.getElementById('c"@ + decimal(n) + "')).setOption("@ + e.json@
        + ");\n"@
}

/// The cards of `es`, numbered from `base + 1`.
pub open spec fn cards(es: Seq<ChartEntry>, base: nat) -> Seq<char>
    decreases es.len(),
{
    if es.len() == 0 {
        Seq::empty()
    } else {
        cards(es.drop_last(), base) + entry_card(es.last(), base + es.len())
    }
}

/// The script lines of `es`, numbered from `base + 1`.
pub open spec fn inits(es: Seq<ChartEntry>, base: nat) -> Seq<char>
    decreases es.len(),
{
    if es.len() == 0 {
        Seq::empty()
    } else {
        inits(es.drop_last(), base) + entry_init(es.last(), base + es.len())
    }
}

/// The number of charts in `secs`.
pub open spec fn chart_count(secs: Seq<(String, Vec<ChartEntry>)>) -> nat
    decreases secs.len(),
{
    if secs.len() == 0 {
        0
    } else {
        chart_count(secs.drop_last()) + secs.last().1@.len()
    }
}

/// The sections as HTML: each with charts gets its title and the cards of its charts,
/// numbered on across sections.
pub open spec fn sections_body(secs: Seq<(String, Vec<ChartEntry>)>) -> Seq<char>
    decreases secs.len(),
{
    if secs.len() == 0 {
        Seq::empty()
    } else if secs.last().1@.len() == 0 {
        sections_body(secs.drop_last())
    } else {
        sections_body(secs.drop_last()) + "<div class=\"section-title\">"@ + html_escape_spec(
            secs.last().0@,
        ) + "</div>\n"@ + cards(secs.last().1@, chart_count(secs.drop_last()))
    }
}

/// The script lines that draw the charts of the sections.
pub open spec fn sections_inits(secs: Seq<(String, Vec<ChartEntry>)>) -> Seq<char>
    decreases secs.len(),
{
    if secs.len() == 0 {
        Seq::empty()
    } else {
        sections_inits(secs.drop_last()) + inits(secs.last().1@, chart_count(secs.drop_last()))
    }
}

/// The trend page of a repository.
pub open spec fn render_html_spec(
    repo_display: Seq<char>,
    secs: Seq<(String, Vec<ChartEntry>)>,
    notes: Option<Seq<char>>,
    github_url: Seq<char>,
) -> Seq<char> {
    let body = match notes {
        Some(n) => n + "\n"@,
        None => Seq::empty(),
    } + sections_body(secs);
    let inits = sections_inits(secs);
    "<!DOCTYPE html>\n<html lang=\"en\">\n<head>\n  <meta charset=\"utf-8\">\n  <meta name=\"viewport\" content=\"width=device-width, initial-scale=1\">\n  <title>"@ + html_escape_spec(repo_display) + " — Trends</title>\n  <script src=\"https://cdn.jsdelivr.net/npm/echarts@5.5.0/dist/echarts.min.js\"></script>\n  <style>\n    * { box-sizing: border-box; }\n    body { font-family: -apple-system, BlinkMacSystemFont, \"Segoe UI\", Helvetica, Arial, sans-serif; margin: 0; padding: 0; background: #f6f8fa; color: #24292f; }\n    .header { background: white; border-bottom: 1px solid #d0d7de; padding: 16px 24px; display: flex; align-items: baseline; gap: 16px; }\n    .header h1 { margin: 0; font-size: 1.5em; }\n    .header h1 a { color: #24292f; text-decoration: none; }\n    .header h1 a:hover { text-decoration: underline; }\n    .header a { color: #0969da; text-decoration: none; font-size: 0.9em; }\n    .content { max-width: 1200px; margin: 0 auto; padding: 24px; }\n    .section-title { font-size: 1.25em; font-weight: 600; border-bottom: 1px solid #d0d7de; padding-bottom: 8px; margin: 32px 0 16px 0; }\n    .card { background: white; border: 1px solid #d0d7de; border-radius: 6px; padding: 16px; margin-bottom: 16px; }\n    .chart-title { margin: 0 0 12px 0; font-size: 1em; font-weight: 600; color: #24292f; }\n    .chart-note { color: #656d76; font-size: 0.85em; margin: 8px 0 0 0; font-style: italic; }\n    .stats-meta { color: #656d76; font-size: 0.85em; margin: 16px 0 8px 0; }\n    .stats-table { border-collapse: collapse; font-size: 0.9em; margin-bottom: 16px; }\n    .stats-table th, .stats-table td { border: 1px solid #d0d7de; padding: 6px 12px; text-align: right; }\n    .stats-table th:first-child, .stats-table td:first-child { text-align: left; }\n    .stats-table thead { background: #f6f8fa; }\n    .stats-label { font-weight: 600; margin: 12px 0 4px 0; font-size: 0.9em; }\n    .notes { background: #f6f8fa; border: 1px solid #d0d7de; border-radius: 6px; padding: 16px; margin-bottom: 24px; font-size: 0.9em; }\n    .notes h3 { margin-top: 0; }\n  </style>\n</head>\n<body>\n  <div class=\"header\">\n    <a href=\"../index.html\">← overview</a>\n    <h1><a href=\""@ + github_url + "\">"@ + html_escape_spec(repo_display) + "</a> — Trends</h1>\n  </div>\n  <div class=\"content\">\n    "@ + body + "\n  </div>\n  <script>\n    "@ + inits + "\n    window.addEventListener('resize', function() {\n      document.querySelectorAll('[data-chart]').forEach(function(el) {\n        var inst = echarts.getInstanceByDom(el);\n        if (inst) inst.resize();\n      });\n    });\n  </script>\n</body>\n</html>"@
}

fn push_entry(body: &mut Vec<char>, scripts: &mut Vec<char>, e: &ChartEntry, n: usize)
    ensures
        final(body)@ == old(body)@ + entry_card(*e, n as nat),
        final(scripts)@ == old(scripts)@ + entry_init(*e, n as nat),
{
    let num = u64_decimal(n as u64);
    let title = chars_of(e.title.as_str());
    push_str(body, "<div class=\"card\"><h3 class=\"chart-title\">");
    push_escaped(body, &title, 0, title.len());
    assert(title@.subrange(0, title@.len() as int) == e.title@);
    push_str(body, "</h3><div id=\"c");
    push_all(body, &num);
    push_str(body, "\" data-chart style=\"height:");
    let h = u64_decimal(e.height_px as u64);
    push_all(body, &h);
    push_str(body, "px;\"></div>");
    match &e.note {
        Some(note) => {
            let nc = chars_of(note.as_str());
            push_str(body, "<p class=\"chart-note\">");
            push_escaped(body, &nc, 0, nc.len());
            assert(nc@.subrange(0, nc@.len() as int) == note@);
            push_str(body, "</p>");
        },
        None => {},
    }
    match &e.extra_html {
        Some(extra) => {
            push_str(body, extra.as_str());
        },
        None => {},
    }
    push_str(body, "</div>\n");
    push_str(scripts, "echarts.init(document.getElementById('c");
    push_all(scripts, &num);
    push_str(scripts, "')).setOption(");
    push_str(scripts, e.json.as_str());
    push_str(scripts, ");\n");
}

/// The trend page of a repository: its sections of charts, after the data notes if there
/// are any, linked to the repository on GitHub.
pub fn render_html(
    repo_display: &str,
    sections: &[(String, Vec<ChartEntry>)],
    notes_html: Option<&str>,
    github_url: &str,
) -> (r: String)
    requires
        chart_count(sections@) < usize::MAX,
    ensures
        r@ == render_html_spec(
            repo_display@,
            sections@,
            match notes_html {
                Some(n) => Some(n@),
                None => None,
            },
            github_url@,
        ),
{
    let mut body: Vec<char> = Vec::new();
    match notes_html {
        Some(n) => {
            push_str(&mut body, n);
            push_str(&mut body, "\n");
        },
        None => {},
    }
    let ghost head = body@;
    let mut scripts: Vec<char> = Vec::new();
    let mut n: usize = 0;
    let mut i: usize = 0;
    while i < sections.len()
        invariant
            i <= sections@.len(),
            chart_count(sections@) < usize::MAX,
            n == chart_count(sections@.take(i as int)),
            chart_count(sections@.take(i as int)) <= chart_count(sections@),
            body@ == head + sections_body(sections@.take(i as int)),
            scripts@ == sections_inits(sections@.take(i as int)),
        decreases sections.len() - i,
    {
        let (title, entries) = &sections[i];
        let ghost secs = sections@.take(i + 1);
        proof {
            assert(secs.drop_last() == sections@.take(i as int));
            assert(secs.last() == sections@[i as int]);
            lemma_chart_count_prefix(sections@, i + 1);
        }
        if entries.len() > 0 {
            push_str(&mut body, "<div class=\"section-title\">");
            let tc = chars_of(title.as_str());
            push_escaped(&mut body, &tc, 0, tc.len());
            assert(tc@.subrange(0, tc@.len() as int) == title@);
            push_str(&mut body, "</div>\n");
        }
        let ghost body0 = body@;
        let ghost scripts0 = scripts@;
        let ghost base = n as nat;
        let mut k: usize = 0;
        while k < entries.len()
            invariant
                k <= entries@.len(),
                n == base + k,
                base + entries@.len() <= chart_count(sections@) < usize::MAX,
                body@ == body0 + cards(entries@.take(k as int), base),
                scripts@ == scripts0 + inits(entries@.take(k as int), base),
            decreases entries.len() - k,
        {
            n += 1;
            push_entry(&mut body, &mut scripts, &entries[k], n);
            assert(entries@.take(k + 1).drop_last() == entries@.take(k as int));
            k += 1;
        }
        assert(entries@.take(entries@.len() as int) == entries@);
        i += 1;
    }
    assert(sections@.take(sections@.len() as int) == sections@);
    let repo = chars_of(html_escape(repo_display).as_str());
    let inits = scripts;
    let mut out: Vec<char> = Vec::new();
    push_str(&mut out, "<!DOCTYPE html>\n<html lang=\"en\">\n<head>\n  <meta charset=\"utf-8\">\n  <meta name=\"viewport\" content=\"width=device-width, initial-scale=1\">\n  <title>");
    push_all(&mut out, &repo);
    push_str(&mut out, " — Trends</title>\n  <script src=\"https://cdn.jsdelivr.net/npm/echarts@5.5.0/dist/echarts.min.js\"></script>\n  <style>\n    * { box-sizing: border-box; }\n    body { font-family: -apple-system, BlinkMacSystemFont, \"Segoe UI\", Helvetica, Arial, sans-serif; margin: 0; padding: 0; background: #f6f8fa; color: #24292f; }\n    .header { background: white; border-bottom: 1px solid #d0d7de; padding: 16px 24px; display: flex; align-items: baseline; gap: 16px; }\n    .header h1 { margin: 0; font-size: 1.5em; }\n    .header h1 a { color: #24292f; text-decoration: none; }\n    .header h1 a:hover { text-decoration: underline; }\n    .header a { color: #0969da; text-decoration: none; font-size: 0.9em; }\n    .content { max-width: 1200px; margin: 0 auto; padding: 24px; }\n    .section-title { font-size: 1.25em; font-weight: 600; border-bottom: 1px solid #d0d7de; padding-bottom: 8px; margin: 32px 0 16px 0; }\n    .card { background: white; border: 1px solid #d0d7de; border-radius: 6px; padding: 16px; margin-bottom: 16px; }\n    .chart-title { margin: 0 0 12px 0; font-size: 1em; font-weight: 600; color: #24292f; }\n    .chart-note { color: #656d76; font-size: 0.85em; margin: 8px 0 0 0; font-style: italic; }\n    .stats-meta { color: #656d76; font-size: 0.85em; margin: 16px 0 8px 0; }\n    .stats-table { border-collapse: collapse; font-size: 0.9em; margin-bottom: 16px; }\n    .stats-table th, .stats-table td { border: 1px solid #d0d7de; padding: 6px 12px; text-align: right; }\n    .stats-table th:first-child, .stats-table td:first-child { text-align: left; }\n    .stats-table thead { background: #f6f8fa; }\n    .stats-label { font-weight: 600; margin: 12px 0 4px 0; font-size: 0.9em; }\n    .notes { background: #f6f8fa; border: 1px solid #d0d7de; border-radius: 6px; padding: 16px; margin-bottom: 24px; font-size: 0.9em; }\n    .notes h3 { margin-top: 0; }\n  </style>\n</head>\n<body>\n  <div class=\"header\">\n    <a href=\"../index.html\">← overview</a>\n    <h1><a href=\"");
    push_str(&mut out, github_url);
    push_str(&mut out, "\">");
    push_all(&mut out, &repo);
    push_str(&mut out, "</a> — Trends</h1>\n  </div>\n  <div class=\"content\">\n    ");
    push_all(&mut out, &body);
    push_str(&mut out, "\n  </div>\n  <script>\n    ");
    push_all(&mut out, &inits);
    push_str(&mut out, "\n    window.addEventListener('resize', function() {\n      document.querySelectorAll('[data-chart]').forEach(function(el) {\n        var inst = echarts.getInstanceByDom(el);\n        if (inst) inst.resize();\n      });\n    });\n  </script>\n</body>\n</html>");
    string_of(&out)
}

proof fn lemma_chart_count_prefix(secs: Seq<(String, Vec<ChartEntry>)>, i: int)
    requires
        0 <= i <= secs.len(),
    ensures
        chart_count(secs.take(i)) <= chart_count(secs),
    decreases secs.len() - i,
{
    if i < secs.len() {
        lemma_chart_count_prefix(secs, i + 1);
        assert(secs.take(i + 1).drop_last() == secs.take(i));
    } else {
        assert(secs.take(i) == secs);
    }
}

/// The repositories as organisation and name.
pub open spec fn repos_text(repos: Seq<(String, String)>) -> Seq<(Seq<char>, Seq<char>)> {
    repos.map_values(|r: (String, String)| (r.0@, r.1@))
}

/// The organisations of the repositories, in order.
pub open spec fn repo_orgs(repos: Seq<(Seq<char>, Seq<char>)>) -> Seq<Seq<char>> {
    repos.map_values(|r: (Seq<char>, Seq<char>)| r.0)
}

/// The names of the repositories of organisation `org`, in order.
pub open spec fn org_names(repos: Seq<(Seq<char>, Seq<char>)>, org: Seq<char>) -> Seq<Seq<char>>
    decreases repos.len(),
{
    if repos.len() == 0 {
        Seq::empty()
    } else if repos.last().0 == org {
        org_names(repos.drop_last(), org).push(repos.last().1)
    } else {
        org_names(repos.drop_last(), org)
    }
}

/// `s` without `x`.
pub open spec fn without(s: Seq<Seq<char>>, x: Seq<char>) -> Seq<Seq<char>>
    decreases s.len(),
{
    if s.len() == 0 {
        Seq::empty()
    } else if s.last() == x {
        without(s.drop_last(), x)
    } else {
        without(s.drop_last(), x).push(s.last())
    }
}

/// The organisations in the order of the overview: `vectordotdev` first, then the others
/// alphabetically.
pub open spec fn org_order(repos: Seq<(Seq<char>, Seq<char>)>) -> Seq<Seq<char>> {
    let sd = sorted_distinct(repo_orgs(repos));
    if sd.contains("vectordotdev"@) {
        seq!["vectordotdev"@] + without(sd, "vectordotdev"@)
    } else {
        sd
    }
}

/// The list entries of repository names.
pub open spec fn name_items(names: Seq<Seq<char>>) -> Seq<char>
    decreases names.len(),
{
    if names.len() == 0 {
        Seq::empty()
    } else {
        name_items(names.drop_last()) + "<li><a href=\""@ + html_escape_spec(names.last())
            + "/index.html\">"@ + html_escape_spec(names.last()) + "</a></li>\n"@
    }
}

/// The blocks of the organisations `orgs`: a heading and the list of its repositories.
pub open spec fn org_blocks(repos: Seq<(Seq<char>, Seq<char>)>, orgs: Seq<Seq<char>>) -> Seq<char>
    decreases orgs.len(),
{
    if orgs.len() == 0 {
        Seq::empty()
    } else {
        org_blocks(repos, orgs.drop_last()) + "<h2>"@ + html_escape_spec(orgs.last())
            + "</h2><ul>\n"@ + name_items(org_names(repos, orgs.last())) + "</ul>\n"@
    }
}

/// The overview page of all repositories, grouped by organisation.
pub open spec fn render_index_spec(repos: Seq<(Seq<char>, Seq<char>)>) -> Seq<char> {
    let body = org_blocks(repos, org_order(repos));
    "<!DOCTYPE html>\n<html lang=\"en\">\n<head>\n  <meta charset=\"utf-8\">\n  <meta name=\"viewport\" content=\"width=device-width, initial-scale=1\">\n  <title>GitHub Tools — Dashboard</title>\n  <style>\n    body { font-family: -apple-system, BlinkMacSystemFont, \"Segoe UI\", Helvetica, Arial, sans-serif; margin: 0; padding: 24px; background: #f6f8fa; color: #24292f; }\n    h1 { font-size: 1.5em; }\n    h2 { font-size: 1.1em; color: #656d76; margin: 24px 0 8px 0; font-weight: 600; }\n    ul { list-style: none; padding: 0; margin: 0; }\n    li { margin: 6px 0; }\n    a { color: #0969da; text-decoration: none; font-size: 1.05em; }\n    a:hover { text-decoration: underline; }\n  </style>\n</head>\n<body>\n  <h1>Repository Dashboards</h1>\n  "@ + body + "\n</body>\n</html>"@
}

fn push_org_block(out: &mut Vec<char>, repos: &[(String, String)], org: &String)
    ensures
        final(out)@ == old(out)@ + "<h2>"@ + html_escape_spec(org@) + "</h2><ul>\n"@ + name_items(
            org_names(repos_text(repos@), org@),
        ) + "</ul>\n"@,
{
    let ghost rt = repos_text(repos@);
    push_str(out, "<h2>");
    let oc = chars_of(org.as_str());
    push_escaped(out, &oc, 0, oc.len());
    assert(oc@.subrange(0, oc@.len() as int) == org@);
    push_str(out, "</h2><ul>\n");
    let ghost start = out@;
    let mut i: usize = 0;
    while i < repos.len()
        invariant
            i <= repos@.len(),
            rt == repos_text(repos@),
            out@ == start + name_items(org_names(rt.take(i as int), org@)),
        decreases repos.len() - i,
    {
        proof {
            assert(rt.take(i + 1).drop_last() == rt.take(i as int));
            assert(rt.take(i + 1).last() == (repos@[i as int].0@, repos@[i as int].1@));
        }
        let ghost names_before = org_names(rt.take(i as int), org@);
        if text_equal(repos[i].0.as_str(), org.as_str()) {
            proof {
                assert(org_names(rt.take(i + 1), org@) == names_before.push(repos@[i as int].1@));
                assert(org_names(rt.take(i + 1), org@).drop_last() == names_before);
            }
            let nc = chars_of(repos[i].1.as_str());
            push_str(out, "<li><a href=\"");
            push_escaped(out, &nc, 0, nc.len());
            push_str(out, "/index.html\">");
            push_escaped(out, &nc, 0, nc.len());
            push_str(out, "</a></li>\n");
            assert(nc@.subrange(0, nc@.len() as int) == repos@[i as int].1@);
        } else {
            assert(org_names(rt.take(i + 1), org@) == names_before);
        }
        i += 1;
    }
    assert(rt.take(repos@.len() as int) == rt);
    push_str(out, "</ul>\n");
}

fn org_order_of(repos: &[(String, String)]) -> (r: Vec<String>)
    ensures
        texts(r@) == org_order(repos_text(repos@)),
{
    let ghost rt = repos_text(repos@);
    let mut sorted: Vec<String> = Vec::new();
    let mut i: usize = 0;
    while i < repos.len()
        invariant
            i <= repos@.len(),
            rt == repos_text(repos@),
            strictly_increasing(texts(sorted@)),
            texts(sorted@).to_set() == repo_orgs(rt.take(i as int)).to_set(),
        decreases repos.len() - i,
    {
        proof {
            assert(repo_orgs(rt.take(i + 1)) == repo_orgs(rt.take(i as int)).push(repos@[i as int].0@));
            lemma_push_to_set(repo_orgs(rt.take(i as int)), repos@[i as int].0@);
        }
        insert_sorted_unique(&mut sorted, repos[i].0.clone());
        i += 1;
    }
    proof {
        assert(rt.take(repos@.len() as int) == rt);
        lemma_sorted_distinct(texts(sorted@), repo_orgs(rt));
    }
    let ghost sd = texts(sorted@);
    let mut order: Vec<String> = Vec::new();
    let first = position_of(&sorted, "vectordotdev");
    if first.is_some() {
        order.push(String::from_str("vectordotdev"));
    }
    let ghost head = texts(order@);
    let mut k: usize = 0;
    while k < sorted.len()
        invariant
            k <= sorted@.len(),
            sd == texts(sorted@),
            texts(order@) == head + if first.is_some() {
                without(sd.take(k as int), "vectordotdev"@)
            } else {
                sd.take(k as int)
            },
        decreases sorted.len() - k,
    {
        proof {
            assert(sd.take(k + 1).drop_last() == sd.take(k as int));
        }
        let keep = first.is_none() || !text_equal(sorted[k].as_str(), "vectordotdev");
        if keep {
            let ghost prev = order@;
            order.push(sorted[k].clone());
            assert(texts(order@) =~= texts(prev).push(sd[k as int]));
        }
        k += 1;
    }
    proof {
        assert(sd.take(sd.len() as int) == sd);
        assert(texts(order@) =~= org_order(rt));
    }
    order
}

/// The overview page: the repositories grouped by organisation, `vectordotdev` first and
/// the others alphabetically, each group in the given order.
pub fn render_index_html(repos: &[(String, String)]) -> (r: String)
    ensures
        r@ == render_index_spec(repos_text(repos@)),
{
    let ghost rt = repos_text(repos@);
    let order = org_order_of(repos);
    let mut body: Vec<char> = Vec::new();
    let mut j: usize = 0;
    while j < order.len()
        invariant
            j <= order@.len(),
            rt == repos_text(repos@),
            body@ == org_blocks(rt, texts(order@).take(j as int)),
        decreases order.len() - j,
    {
        proof {
            assert(texts(order@).take(j + 1).drop_last() == texts(order@).take(j as int));
        }
        push_org_block(&mut body, repos, &order[j]);
        j += 1;
    }
    assert(texts(order@).take(order@.len() as int) == texts(order@));
    let mut out: Vec<char> = Vec::new();
    push_str(&mut out, "<!DOCTYPE html>\n<html lang=\"en\">\n<head>\n  <meta charset=\"utf-8\">\n  <meta name=\"viewport\" content=\"width=device-width, initial-scale=1\">\n  <title>GitHub Tools — Dashboard</title>\n  <style>\n    body { font-family: -apple-system, BlinkMacSystemFont, \"Segoe UI\", Helvetica, Arial, sans-serif; margin: 0; padding: 24px; background: #f6f8fa; color: #24292f; }\n    h1 { font-size: 1.5em; }\n    h2 { font-size: 1.1em; color: #656d76; margin: 24px 0 8px 0; font-weight: 600; }\n    ul { list-style: none; padding: 0; margin: 0; }\n    li { margin: 6px 0; }\n    a { color: #0969da; text-decoration: none; font-size: 1.05em; }\n    a:hover { text-decoration: underline; }\n  </style>\n</head>\n<body>\n  <h1>Repository Dashboards</h1>\n  ");
    push_all(&mut out, &body);
    push_str(&mut out, "\n</body>\n</html>");
    string_of(&out)
}

} // verus!
