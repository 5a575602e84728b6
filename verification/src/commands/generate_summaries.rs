//! The SQL queries behind the CSV summaries, and the files they are written to.
use crate::sorting::texts;
use crate::text::{chars_of, contains_seq, occurs_at, push_str, string_of, text_equal};
use vstd::prelude::*;

verus! {

/// The texts of `parts` with `sep` between each two.
pub open spec fn join_spec(parts: Seq<Seq<char>>, sep: Seq<char>) -> Seq<char>
    decreases parts.len(),
{
    if parts.len() == 0 {
        Seq::empty()
    } else if parts.len() == 1 {
        parts[0]
    } else {
        join_spec(parts.drop_last(), sep) + sep + parts.last()
    }
}

/// The strings of `parts` joined with `sep`, as `[String]::join` joins them.
pub fn join_strings(parts: &Vec<String>, sep: &str) -> (r: String)
    ensures
        r@ == join_spec(texts(parts@), sep@),
{
    let mut v: Vec<char> = Vec::new();
    let mut i: usize = 0;
    while i < parts.len()
        invariant
            i <= parts@.len(),
            v@ == join_spec(texts(parts@.subrange(0, i as int)), sep@),
        decreases parts.len() - i,
    {
        let ghost before = texts(parts@.subrange(0, i as int));
        if i > 0 {
            push_str(&mut v, sep);
        }
        push_str(&mut v, parts[i].as_str());
        proof {
            let after = texts(parts@.subrange(0, i + 1));
            assert(after.drop_last() == before);
            assert(after.last() == parts@[i as int]@);
            if i == 0 {
                assert(after.len() == 1);
            }
        }
        i += 1;
    }
    assert(parts@.subrange(0, parts@.len() as int) == parts@);
    string_of(&v)
}

/// The conditions that every query over `table` starts from: drafts are left out of
/// pull requests.
pub open spec fn base_conditions(table: Seq<char>) -> Seq<Seq<char>> {
    if table == "pull_requests"@ {
        seq!["is_draft = 0"@]
    } else {
        Seq::empty()
    }
}

/// A `WHERE` clause over `table` with the `extra` conditions: empty where there is no
/// condition at all, else `WHERE` and the conditions joined with `AND`.
pub open spec fn where_spec(table: Seq<char>, extra: Seq<Seq<char>>) -> Seq<char> {
    let parts = base_conditions(table) + extra;
    if parts.len() == 0 {
        Seq::empty()
    } else {
        "WHERE "@ + join_spec(parts, " AND "@)
    }
}

/// Every query over pull requests leaves drafts out: its `WHERE` clause starts with the
/// condition `is_draft = 0`, and the type-aware label queries add `AND is_draft = 0`;
/// queries over other tables have no such condition.
pub proof fn lemma_pull_request_queries_skip_drafts(table: Seq<char>, extra: Seq<Seq<char>>)
    ensures
        where_spec("pull_requests"@, extra) == "WHERE "@ + join_spec(
            seq!["is_draft = 0"@] + extra,
            " AND "@,
        ),
        draft_and_spec("pull_requests"@) == "AND is_draft = 0"@,
        table != "pull_requests"@ ==> where_spec(table, extra) == if extra.len() == 0 {
            Seq::<char>::empty()
        } else {
            "WHERE "@ + join_spec(extra, " AND "@)
        },
        table != "pull_requests"@ ==> draft_and_spec(table) == Seq::<char>::empty(),
{
    assert(Seq::<Seq<char>>::empty() + extra =~= extra);
}

/// The `WHERE` clause over `table` with the `extra` conditions.
pub fn build_where(table: &str, extra: &Vec<String>) -> (r: String)
    ensures
        r@ == where_spec(table@, texts(extra@)),
{
    let mut parts: Vec<String> = Vec::new();
    if text_equal(table, "pull_requests") {
        parts.push(String::from_str("is_draft = 0"));
    }
    let ghost base = texts(parts@);
    assert(base == base_conditions(table@));
    let mut i: usize = 0;
    while i < extra.len()
        invariant
            i <= extra@.len(),
            texts(parts@) == base + texts(extra@.subrange(0, i as int)),
        decreases extra.len() - i,
    {
        let ghost before = parts@;
        parts.push(extra[i].clone());
        proof {
            assert(texts(parts@) == texts(before).push(extra@[i as int]@));
            assert(texts(extra@.subrange(0, i + 1)) == texts(extra@.subrange(0, i as int)).push(
                extra@[i as int]@,
            ));
        }
        i += 1;
    }
    assert(extra@.subrange(0, extra@.len() as int) == extra@);
    if parts.len() == 0 {
        String::new()
    } else {
        let joined = join_strings(&parts, " AND ");
        let mut v = chars_of("WHERE ");
        push_str(&mut v, joined.as_str());
        string_of(&v)
    }
}

fn one_condition(c: &str) -> (r: Vec<String>)
    ensures
        texts(r@) == seq![c@],
{
    let mut r: Vec<String> = Vec::new();
    r.push(String::from_str(c));
    assert(texts(r@) =~= seq![c@]);
    r
}

/// A SQL expression that reads the label in `col` with the legacy `domain: deps` as
/// `dependencies`.
pub open spec fn normalize_label_sql_spec(col: Seq<char>) -> Seq<char> {
    "CASE "@ + col + " WHEN 'domain: deps' THEN 'dependencies' ELSE "@ + col + " END"@
}

/// The SQL expression that normalizes the label in `col`.
pub fn normalize_label_sql(col: &str) -> (r: String)
    ensures
        r@ == normalize_label_sql_spec(col@),
{
    let mut v = chars_of("CASE ");
    push_str(&mut v, col);
    push_str(&mut v, " WHEN 'domain: deps' THEN 'dependencies' ELSE ");
    push_str(&mut v, col);
    push_str(&mut v, " END");
    string_of(&v)
}

/// The name of a summary file: `owner_name_table.suffix.csv`.
pub open spec fn csv_file_name_spec(
    owner: Seq<char>,
    name: Seq<char>,
    table: Seq<char>,
    suffix: Seq<char>,
) -> Seq<char> {
    owner + seq!['_'] + name + seq!['_'] + table + seq!['.'] + suffix + ".csv"@
}

/// The name of the summary file of `table` with the given suffix.
pub fn csv_path(owner: &str, name: &str, table: &str, suffix: &str) -> (r: String)
    ensures
        r@ == csv_file_name_spec(owner@, name@, table@, suffix@),
{
    let mut v = chars_of(owner);
    v.push('_');
    push_str(&mut v, name);
    v.push('_');
    push_str(&mut v, table);
    v.push('.');
    push_str(&mut v, suffix);
    push_str(&mut v, ".csv");
    string_of(&v)
}

/// The query that tells whether `table` has an `issue_type` column: it fails where not.
pub open spec fn issue_type_probe_spec(table: Seq<char>) -> Seq<char> {
    "SELECT issue_type FROM "@ + table + " LIMIT 0"@
}

/// The query that probes `table` for an `issue_type` column.
pub fn issue_type_probe(table: &str) -> (r: String)
    ensures
        r@ == issue_type_probe_spec(table@),
{
    let mut v = chars_of("SELECT issue_type FROM ");
    push_str(&mut v, table);
    push_str(&mut v, " LIMIT 0");
    string_of(&v)
}

/// The condition that keeps a label which only repeats an item's issue type out of the
/// label counts.
pub open spec fn type_label_condition(table: Seq<char>) -> Seq<char> {
    "("@ + table + ".issue_type IS NULL OR (lower(labels.name) != lower("@ + table
        + ".issue_type) AND lower(labels.name) != 'type: ' || lower("@ + table + ".issue_type)))"@
}

/// The `WHERE` clause of label counts over `table`.
pub open spec fn label_filter_spec(table: Seq<char>, has_issue_type: bool) -> Seq<char> {
    if has_issue_type {
        where_spec(table, seq![type_label_condition(table)])
    } else {
        where_spec(table, Seq::empty())
    }
}

/// The `WHERE` clause of label counts over `table`.
pub fn label_filter(table: &str, has_issue_type: bool) -> (r: String)
    ensures
        r@ == label_filter_spec(table@, has_issue_type),
{
    if has_issue_type {
        let mut c = chars_of("(");
        push_str(&mut c, table);
        push_str(&mut c, ".issue_type IS NULL OR (lower(labels.name) != lower(");
        push_str(&mut c, table);
        push_str(&mut c, ".issue_type) AND lower(labels.name) != 'type: ' || lower(");
        push_str(&mut c, table);
        push_str(&mut c, ".issue_type)))");
        let cond = string_of(&c);
        build_where(table, &one_condition(cond.as_str()))
    } else {
        build_where(table, &Vec::new())
    }
}

/// `AND is_draft = 0` for pull requests, nothing for other tables.
pub open spec fn draft_and_spec(table: Seq<char>) -> Seq<char> {
    if table == "pull_requests"@ {
        "AND is_draft = 0"@
    } else {
        Seq::empty()
    }
}

fn draft_and(table: &str) -> (r: String)
    ensures
        r@ == draft_and_spec(table@),
{
    if text_equal(table, "pull_requests") {
        String::from_str("AND is_draft = 0")
    } else {
        String::new()
    }
}

/// The label columns of the monthly summary, each after a separator; nothing without
/// labels.
pub open spec fn label_columns_spec(labels: Seq<Seq<char>>) -> Seq<char> {
    if labels.len() == 0 {
        Seq::empty()
    } else {
        ",\n            "@ + join_spec(
            labels.map_values(|l: Seq<char>| label_column_spec(l)),
            ",\n        "@,
        )
    }
}

/// The issue-type columns of the monthly summary; nothing without types.
pub open spec fn type_columns_spec(types: Seq<Seq<char>>) -> Seq<char> {
    if types.len() == 0 {
        Seq::empty()
    } else {
        ",\n            "@ + join_spec(
            types.map_values(|t: Seq<char>| type_column_spec(t)),
            ",\n            "@,
        )
    }
}

/// The join that brings issue types into the monthly summary; nothing without types.
pub open spec fn type_join_spec(table: Seq<char>, types: Seq<Seq<char>>) -> Seq<char> {
    if types.len() == 0 {
        Seq::empty()
    } else {
        "\n        LEFT JOIN "@ + table + " it ON e.issue_id = it.id"@
    }
}

fn label_columns(labels: &Vec<String>) -> (r: String)
    ensures
        r@ == label_columns_spec(texts(labels@)),
{
    if labels.len() == 0 {
        return String::new();
    }
    let mut cols: Vec<String> = Vec::new();
    let mut i: usize = 0;
    while i < labels.len()
        invariant
            i <= labels@.len(),
            texts(cols@) == texts(labels@.subrange(0, i as int)).map_values(
                |l: Seq<char>| label_column_spec(l),
            ),
        decreases labels.len() - i,
    {
        let ghost before = cols@;
        cols.push(label_column(labels[i].as_str()));
        proof {
            assert(texts(cols@) == texts(before).push(label_column_spec(labels@[i as int]@)));
            assert(texts(labels@.subrange(0, i + 1)) == texts(labels@.subrange(0, i as int)).push(
                labels@[i as int]@,
            ));
        }
        i += 1;
    }
    assert(labels@.subrange(0, labels@.len() as int) == labels@);
    let joined = join_strings(&cols, ",\n        ");
    let mut v = chars_of(",\n            ");
    push_str(&mut v, joined.as_str());
    string_of(&v)
}

fn type_columns(types: &Vec<String>) -> (r: String)
    ensures
        r@ == type_columns_spec(texts(types@)),
{
    if types.len() == 0 {
        return String::new();
    }
    let mut cols: Vec<String> = Vec::new();
    let mut i: usize = 0;
    while i < types.len()
        invariant
            i <= types@.len(),
            texts(cols@) == texts(types@.subrange(0, i as int)).map_values(
                |t: Seq<char>| type_column_spec(t),
            ),
        decreases types.len() - i,
    {
        let ghost before = cols@;
        cols.push(type_column(types[i].as_str()));
        proof {
            assert(texts(cols@) == texts(before).push(type_column_spec(types@[i as int]@)));
            assert(texts(types@.subrange(0, i + 1)) == texts(types@.subrange(0, i as int)).push(
                types@[i as int]@,
            ));
        }
        i += 1;
    }
    assert(types@.subrange(0, types@.len() as int) == types@);
    let joined = join_strings(&cols, ",\n            ");
    let mut v = chars_of(",\n            ");
    push_str(&mut v, joined.as_str());
    string_of(&v)
}

fn type_join(table: &str, types: &Vec<String>) -> (r: String)
    ensures
        r@ == type_join_spec(table@, texts(types@)),
{
    if types.len() == 0 {
        String::new()
    } else {
        let mut v = chars_of("\n        LEFT JOIN ");
        push_str(&mut v, table);
        push_str(&mut v, " it ON e.issue_id = it.id");
        string_of(&v)
    }
}

/// The query of open and closed counts per label of `table`.
pub open spec fn open_by_label_query_spec(table: Seq<char>) -> Seq<char> {
    let norm = normalize_label_sql_spec("labels.name"@);
    let wc = where_spec(table, Seq::empty());
    "SELECT label_name,\n                SUM(open_count) AS open_count,\n                SUM(closed_count) AS closed_count\n         FROM (\n             SELECT DISTINCT "@ + table + ".id,\n                    "@ + norm + " AS label_name,\n                    CASE WHEN "@ + table + ".state = 'open' THEN 1 ELSE 0 END AS open_count,\n                    CASE WHEN "@ + table + ".state = 'closed' THEN 1 ELSE 0 END AS closed_count\n             FROM "@ + table + "\n             JOIN issue_labels ON "@ + table + ".id = issue_labels.issue_id\n             JOIN labels ON labels.id = issue_labels.label_id\n             "@ + wc + "\n         )\n         GROUP BY label_name\n         ORDER BY open_count DESC, closed_count DESC"@
}

/// The query of open and closed counts per label of `table`.
pub fn open_by_label_query(table: &str) -> (r: String)
    ensures
        r@ == open_by_label_query_spec(table@),
{
    let norm = normalize_label_sql("labels.name");
    let wc = build_where(table, &Vec::new());
    let mut v: Vec<char> = Vec::new();
    push_str(&mut v, "SELECT label_name,\n                SUM(open_count) AS open_count,\n                SUM(closed_count) AS closed_count\n         FROM (\n             SELECT DISTINCT ");
    push_str(&mut v, table);
    push_str(&mut v, ".id,\n                    ");
    push_str(&mut v, norm.as_str());
    push_str(&mut v, " AS label_name,\n                    CASE WHEN ");
    push_str(&mut v, table);
    push_str(&mut v, ".state = 'open' THEN 1 ELSE 0 END AS open_count,\n                    CASE WHEN ");
    push_str(&mut v, table);
    push_str(&mut v, ".state = 'closed' THEN 1 ELSE 0 END AS closed_count\n             FROM ");
    push_str(&mut v, table);
    push_str(&mut v, "\n             JOIN issue_labels ON ");
    push_str(&mut v, table);
    push_str(&mut v, ".id = issue_labels.issue_id\n             JOIN labels ON labels.id = issue_labels.label_id\n             ");
    push_str(&mut v, wc.as_str());
    push_str(&mut v, "\n         )\n         GROUP BY label_name\n         ORDER BY open_count DESC, closed_count DESC");
    string_of(&v)
}

/// The query of the total open and closed counts of `table`.
pub open spec fn overall_totals_query_spec(table: Seq<char>) -> Seq<char> {
    let wc = where_spec(table, Seq::empty());
    "SELECT\n            SUM(CASE WHEN state = 'open'   THEN 1 ELSE 0 END) AS total_open_"@ + table + ",\n            SUM(CASE WHEN state = 'closed' THEN 1 ELSE 0 END) AS total_closed_"@ + table + "\n         FROM "@ + table + " "@ + wc
}

/// The query of the total open and closed counts of `table`.
pub fn overall_totals_query(table: &str) -> (r: String)
    ensures
        r@ == overall_totals_query_spec(table@),
{
    let wc = build_where(table, &Vec::new());
    let mut v: Vec<char> = Vec::new();
    push_str(&mut v, "SELECT\n            SUM(CASE WHEN state = 'open'   THEN 1 ELSE 0 END) AS total_open_");
    push_str(&mut v, table);
    push_str(&mut v, ",\n            SUM(CASE WHEN state = 'closed' THEN 1 ELSE 0 END) AS total_closed_");
    push_str(&mut v, table);
    push_str(&mut v, "\n         FROM ");
    push_str(&mut v, table);
    push_str(&mut v, " ");
    push_str(&mut v, wc.as_str());
    string_of(&v)
}

proof fn lemma_occurs_between(x: Seq<char>, y: Seq<char>, z: Seq<char>)
    ensures
        contains_seq(x + y + z, y),
{
    assert((x + y + z).subrange(x.len() as int, (x.len() + y.len()) as int) =~= y);
    assert(occurs_at(x + y + z, y, x.len() as int));
}

/// The SQL flag, 1 or 0, of whether the row of `table` is in state `state`, named `alias`.
pub open spec fn state_flag(table: Seq<char>, state: Seq<char>, alias: Seq<char>) -> Seq<char> {
    "CASE WHEN "@ + table + ".state = '"@ + state + "' THEN 1 ELSE 0 END AS "@ + alias
}

/// The per-label query of `table` flags each row as `open_count` exactly when its state is
/// `open`, and as `closed_count` exactly when its state is `closed`.
pub proof fn lemma_open_by_label_flags(table: Seq<char>)
    ensures
        contains_seq(open_by_label_query_spec(table), state_flag(table, "open"@, "open_count"@)),
        contains_seq(
            open_by_label_query_spec(table),
            state_flag(table, "closed"@, "closed_count"@),
        ),
{
    let a = "SELECT label_name,\n                SUM(open_count) AS open_count,\n                SUM(closed_count) AS closed_count\n         FROM (\n             SELECT DISTINCT "@;
    let b = ".id,\n                    "@;
    let c = " AS label_name,\n                    CASE WHEN "@;
    let d = ".state = 'open' THEN 1 ELSE 0 END AS open_count,\n                    CASE WHEN "@;
    let e = ".state = 'closed' THEN 1 ELSE 0 END AS closed_count\n             FROM "@;
    let f = "\n             JOIN issue_labels ON "@;
    let g = ".id = issue_labels.issue_id\n             JOIN labels ON labels.id = issue_labels.label_id\n             "@;
    let h = "\n         )\n         GROUP BY label_name\n         ORDER BY open_count DESC, closed_count DESC"@;
    let norm = normalize_label_sql_spec("labels.name"@);
    let wc = where_spec(table, Seq::empty());
    let q = open_by_label_query_spec(table);
    assert(q == a + table + b + norm + c + table + d + table + e + table + f + table + g + wc + h);
    reveal_strlit(" AS label_name,\n                    CASE WHEN ");
    reveal_strlit(".state = 'open' THEN 1 ELSE 0 END AS open_count,\n                    CASE WHEN ");
    reveal_strlit(".state = 'closed' THEN 1 ELSE 0 END AS closed_count\n             FROM ");
    reveal_strlit(" AS label_name,\n                    ");
    reveal_strlit(",\n                    ");
    reveal_strlit("\n             FROM ");
    reveal_strlit("CASE WHEN ");
    reveal_strlit(".state = '");
    reveal_strlit("' THEN 1 ELSE 0 END AS ");
    reveal_strlit("open");
    reveal_strlit("closed");
    reveal_strlit("open_count");
    reveal_strlit("closed_count");
    let c1 = " AS label_name,\n                    "@;
    let d2 = ",\n                    "@;
    let e2 = "\n             FROM "@;
    assert(c =~= c1 + "CASE WHEN "@);
    assert(d =~= ".state = '"@ + "open"@ + "' THEN 1 ELSE 0 END AS "@ + "open_count"@ + d2 + "CASE WHEN "@);
    assert(e =~= ".state = '"@ + "closed"@ + "' THEN 1 ELSE 0 END AS "@ + "closed_count"@ + e2);
    let po = state_flag(table, "open"@, "open_count"@);
    let pc = state_flag(table, "closed"@, "closed_count"@);
    let tail = table + e + table + f + table + g + wc + h;
    assert(q =~= (a + table + b + norm + c1) + po + (d2 + "CASE WHEN "@ + tail));
    lemma_occurs_between(a + table + b + norm + c1, po, d2 + "CASE WHEN "@ + tail);
    let tail2 = table + f + table + g + wc + h;
    assert(q =~= (a + table + b + norm + c1 + po + d2) + pc + (e2 + tail2));
    lemma_occurs_between(a + table + b + norm + c1 + po + d2, pc, e2 + tail2);
}

/// The SQL sum that counts the rows whose `state` is `state` (`pad` only aligns the text).
pub open spec fn count_in_state(state: Seq<char>, pad: Seq<char>) -> Seq<char> {
    "SUM(CASE WHEN state = '"@ + state + "'"@ + pad + " THEN 1 ELSE 0 END)"@
}

/// The totals query of `table` selects, in this order, the count of its rows in state
/// `open` as `total_open_<table>` and the count of its rows in state `closed` as
/// `total_closed_<table>`, from `table`.
pub proof fn lemma_totals_query_columns(table: Seq<char>)
    ensures
        ("SELECT\n            "@ + count_in_state("open"@, "  "@) + " AS total_open_"@ + table
            + ",\n            "@ + count_in_state("closed"@, ""@) + " AS total_closed_"@ + table
            + "\n         FROM "@ + table).is_prefix_of(overall_totals_query_spec(table)),
{
    reveal_strlit("SELECT\n            SUM(CASE WHEN state = 'open'   THEN 1 ELSE 0 END) AS total_open_");
    reveal_strlit(",\n            SUM(CASE WHEN state = 'closed' THEN 1 ELSE 0 END) AS total_closed_");
    reveal_strlit("SELECT\n            ");
    reveal_strlit(",\n            ");
    reveal_strlit("SUM(CASE WHEN state = '");
    reveal_strlit("open");
    reveal_strlit("closed");
    reveal_strlit("'");
    reveal_strlit("  ");
    reveal_strlit("");
    reveal_strlit(" THEN 1 ELSE 0 END)");
    reveal_strlit(" AS total_open_");
    reveal_strlit(" AS total_closed_");
    let a2 = "SELECT\n            "@ + count_in_state("open"@, "  "@) + " AS total_open_"@;
    let b2 = ",\n            "@ + count_in_state("closed"@, ""@) + " AS total_closed_"@;
    let f = "\n         FROM "@;
    let cols = a2 + table + b2 + table + f + table;
    let q = overall_totals_query_spec(table);
    let rest = " "@ + where_spec(table, Seq::empty());
    assert(q =~= cols + rest);
    assert(cols =~= q.subrange(0, cols.len() as int));
}

/// The query of pull requests per author and month of `table`, before `current_month`.
pub open spec fn contributor_monthly_query_spec(table: Seq<char>, current_month: Seq<char>) -> Seq<char> {
    let wc = where_spec(table, seq!["user_login IS NOT NULL"@]);
    "SELECT substr("@ + table + ".created_at, 1, 7) AS month,\n                "@ + table + ".user_login AS user_login,\n                COUNT(*) AS count\n         FROM "@ + table + "\n         "@ + wc + "\n         GROUP BY month, user_login\n         HAVING month < '"@ + current_month + "'\n         ORDER BY month, count DESC"@
}

/// The query of pull requests per author and month of `table`, before `current_month`.
pub fn contributor_monthly_query(table: &str, current_month: &str) -> (r: String)
    ensures
        r@ == contributor_monthly_query_spec(table@, current_month@),
{
    let wc = build_where(table, &one_condition("user_login IS NOT NULL"));
    let mut v: Vec<char> = Vec::new();
    push_str(&mut v, "SELECT substr(");
    push_str(&mut v, table);
    push_str(&mut v, ".created_at, 1, 7) AS month,\n                ");
    push_str(&mut v, table);
    push_str(&mut v, ".user_login AS user_login,\n                COUNT(*) AS count\n         FROM ");
    push_str(&mut v, table);
    push_str(&mut v, "\n         ");
    push_str(&mut v, wc.as_str());
    push_str(&mut v, "\n         GROUP BY month, user_login\n         HAVING month < '");
    push_str(&mut v, current_month);
    push_str(&mut v, "'\n         ORDER BY month, count DESC");
    string_of(&v)
}

/// The query of discussions created, closed and answered per month, before `current_month`.
pub open spec fn discussion_monthly_query_spec(current_month: Seq<char>) -> Seq<char> {
    "SELECT\n            substr(created_at, 1, 7) AS month,\n            COUNT(*) AS created_discussions,\n            SUM(CASE WHEN closed THEN 1 ELSE 0 END) AS closed_discussions,\n            SUM(CASE WHEN is_answered THEN 1 ELSE 0 END) AS answered_discussions\n         FROM discussions\n         GROUP BY month\n         HAVING month < '"@ + current_month + "'\n         ORDER BY month"@
}

/// The SQL count of the rows for which `condition` holds, named `alias`.
pub open spec fn count_when(condition: Seq<char>, alias: Seq<char>) -> Seq<char> {
    "SUM(CASE WHEN "@ + condition + " THEN 1 ELSE 0 END) AS "@ + alias
}

proof fn lemma_discussion_columns_literal()
    ensures
        "SELECT\n            substr(created_at, 1, 7) AS month,\n            COUNT(*) AS created_discussions,\n            SUM(CASE WHEN closed THEN 1 ELSE 0 END) AS closed_discussions,\n            SUM(CASE WHEN is_answered THEN 1 ELSE 0 END) AS answered_discussions\n         FROM discussions\n         GROUP BY month\n         HAVING month < '"@ == "SELECT\n            substr(created_at, 1, 7) AS month,\n            COUNT(*) AS created_discussions,\n            "@ + count_when("closed"@, "closed_discussions"@) + ",\n            "@
            + count_when("is_answered"@, "answered_discussions"@) + "\n         FROM discussions\n         GROUP BY month\n         HAVING month < '"@,
{
    reveal_strlit("SELECT\n            substr(created_at, 1, 7) AS month,\n            COUNT(*) AS created_discussions,\n            SUM(CASE WHEN closed THEN 1 ELSE 0 END) AS closed_discussions,\n            SUM(CASE WHEN is_answered THEN 1 ELSE 0 END) AS answered_discussions\n         FROM discussions\n         GROUP BY month\n         HAVING month < '");
    reveal_strlit("SELECT\n            substr(created_at, 1, 7) AS month,\n            COUNT(*) AS created_discussions,\n            ");
    reveal_strlit(",\n            ");
    reveal_strlit("\n         FROM discussions\n         GROUP BY month\n         HAVING month < '");
    reveal_strlit("SUM(CASE WHEN ");
    reveal_strlit(" THEN 1 ELSE 0 END) AS ");
    reveal_strlit("closed");
    reveal_strlit("closed_discussions");
    reveal_strlit("is_answered");
    reveal_strlit("answered_discussions");
    assert("SELECT\n            substr(created_at, 1, 7) AS month,\n            COUNT(*) AS created_discussions,\n            SUM(CASE WHEN closed THEN 1 ELSE 0 END) AS closed_discussions,\n            SUM(CASE WHEN is_answered THEN 1 ELSE 0 END) AS answered_discussions\n         FROM discussions\n         GROUP BY month\n         HAVING month < '"@ =~= "SELECT\n            substr(created_at, 1, 7) AS month,\n            COUNT(*) AS created_discussions,\n            "@ + count_when("closed"@, "closed_discussions"@) + ",\n            "@
        + count_when("is_answered"@, "answered_discussions"@) + "\n         FROM discussions\n         GROUP BY month\n         HAVING month < '"@);
}

/// The monthly discussions query counts the closed discussions as `closed_discussions` and
/// the answered ones as `answered_discussions`.
pub proof fn lemma_discussion_monthly_columns(current_month: Seq<char>)
    ensures
        contains_seq(
            discussion_monthly_query_spec(current_month),
            count_when("closed"@, "closed_discussions"@),
        ),
        contains_seq(
            discussion_monthly_query_spec(current_month),
            count_when("is_answered"@, "answered_discussions"@),
        ),
{
    let pc = count_when("closed"@, "closed_discussions"@);
    let pa = count_when("is_answered"@, "answered_discussions"@);
    lemma_discussion_columns_literal();
    lemma_occurs_between("SELECT\n            substr(created_at, 1, 7) AS month,\n            COUNT(*) AS created_discussions,\n            "@, pc, ",\n            "@ + pa + "\n         FROM discussions\n         GROUP BY month\n         HAVING month < '"@);
    lemma_occurs_between("SELECT\n            substr(created_at, 1, 7) AS month,\n            COUNT(*) AS created_discussions,\n            "@ + pc + ",\n            "@, pa, "\n         FROM discussions\n         GROUP BY month\n         HAVING month < '"@);
    assert("SELECT\n            substr(created_at, 1, 7) AS month,\n            COUNT(*) AS created_discussions,\n            "@ + pc + (",\n            "@ + pa + "\n         FROM discussions\n         GROUP BY month\n         HAVING month < '"@) =~= "SELECT\n            substr(created_at, 1, 7) AS month,\n            COUNT(*) AS created_discussions,\n            "@ + pc + ",\n            "@ + pa + "\n         FROM discussions\n         GROUP BY month\n         HAVING month < '"@);
    lemma_contains_grows(pc);
    lemma_contains_grows(pa);
    assert(contains_seq(discussion_monthly_query_spec(current_month), pc));
    assert(contains_seq(discussion_monthly_query_spec(current_month), pa));
}

/// The query of discussions created, closed and answered per month, before `current_month`.
pub fn discussion_monthly_query(current_month: &str) -> (r: String)
    ensures
        r@ == discussion_monthly_query_spec(current_month@),
{
    let mut v: Vec<char> = Vec::new();
    push_str(&mut v, "SELECT\n            substr(created_at, 1, 7) AS month,\n            COUNT(*) AS created_discussions,\n            SUM(CASE WHEN closed THEN 1 ELSE 0 END) AS closed_discussions,\n            SUM(CASE WHEN is_answered THEN 1 ELSE 0 END) AS answered_discussions\n         FROM discussions\n         GROUP BY month\n         HAVING month < '");
    push_str(&mut v, current_month);
    push_str(&mut v, "'\n         ORDER BY month");
    string_of(&v)
}

/// The query of the distinct normalized label names of `table`.
pub open spec fn label_names_query_spec(table: Seq<char>, has_issue_type: bool) -> Seq<char> {
    let norm = normalize_label_sql_spec("labels.name"@);
    let wc_label = label_filter_spec(table, has_issue_type);
    "SELECT DISTINCT "@ + norm + " AS norm_name\n             FROM issue_labels\n             JOIN labels ON labels.id = issue_labels.label_id\n             JOIN "@ + table + " ON "@ + table + ".id = issue_labels.issue_id\n             "@ + wc_label + "\n             ORDER BY norm_name"@
}

/// The query of the distinct normalized label names of `table`.
pub fn label_names_query(table: &str, has_issue_type: bool) -> (r: String)
    ensures
        r@ == label_names_query_spec(table@, has_issue_type),
{
    let norm = normalize_label_sql("labels.name");
    let wc_label = label_filter(table, has_issue_type);
    let mut v: Vec<char> = Vec::new();
    push_str(&mut v, "SELECT DISTINCT ");
    push_str(&mut v, norm.as_str());
    push_str(&mut v, " AS norm_name\n             FROM issue_labels\n             JOIN labels ON labels.id = issue_labels.label_id\n             JOIN ");
    push_str(&mut v, table);
    push_str(&mut v, " ON ");
    push_str(&mut v, table);
    push_str(&mut v, ".id = issue_labels.issue_id\n             ");
    push_str(&mut v, wc_label.as_str());
    push_str(&mut v, "\n             ORDER BY norm_name");
    string_of(&v)
}

/// The query of the distinct issue types of `table`.
pub open spec fn type_names_query_spec(table: Seq<char>) -> Seq<char> {
    let type_wc = where_spec(table, seq!["issue_type IS NOT NULL"@]);
    "SELECT DISTINCT issue_type FROM "@ + table + " "@ + type_wc + " ORDER BY issue_type"@
}

/// The query of the distinct issue types of `table`.
pub fn type_names_query(table: &str) -> (r: String)
    ensures
        r@ == type_names_query_spec(table@),
{
    let type_wc = build_where(table, &one_condition("issue_type IS NOT NULL"));
    let mut v: Vec<char> = Vec::new();
    push_str(&mut v, "SELECT DISTINCT issue_type FROM ");
    push_str(&mut v, table);
    push_str(&mut v, " ");
    push_str(&mut v, type_wc.as_str());
    push_str(&mut v, " ORDER BY issue_type");
    string_of(&v)
}

/// The query of item counts per label of `table`; where items have an issue type, the type counts as a label and a label naming the type is not counted again.
pub open spec fn label_breakdown_query_spec(table: Seq<char>, has_issue_type: bool) -> Seq<char> {
    let norm = normalize_label_sql_spec("labels.name"@);
    if !has_issue_type {
        let wc = where_spec(table, Seq::empty());
        "SELECT label_name, COUNT(*) AS count FROM (\n                 SELECT DISTINCT issue_labels.issue_id, "@ + norm + " AS label_name\n                 FROM issue_labels\n                 JOIN labels ON labels.id = issue_labels.label_id\n                 JOIN "@ + table + " ON "@ + table + ".id = issue_labels.issue_id\n                 "@ + wc + "\n             )\n             GROUP BY label_name\n             ORDER BY count DESC"@
    } else {
        let draft_and = draft_and_spec(table);
        "SELECT label_name, SUM(count) AS count FROM (\n                 SELECT label_name, COUNT(*) AS count FROM (\n                     SELECT DISTINCT "@ + table + ".id, "@ + norm + " AS label_name\n                     FROM "@ + table + "\n                     JOIN issue_labels ON "@ + table + ".id = issue_labels.issue_id\n                     JOIN labels ON labels.id = issue_labels.label_id\n                     WHERE "@ + table + ".issue_type IS NULL "@ + draft_and + "\n                 ) GROUP BY label_name\n                 UNION ALL\n                 SELECT label_name, COUNT(*) AS count FROM (\n                     SELECT DISTINCT "@ + table + ".id, "@ + norm + " AS label_name\n                     FROM "@ + table + "\n                     JOIN issue_labels ON "@ + table + ".id = issue_labels.issue_id\n                     JOIN labels ON labels.id = issue_labels.label_id\n                     WHERE "@ + table + ".issue_type IS NOT NULL "@ + draft_and + "\n                     AND lower(labels.name) != lower("@ + table + ".issue_type)\n                     AND lower(labels.name) != 'type: ' || lower("@ + table + ".issue_type)\n                 ) GROUP BY label_name\n                 UNION ALL\n                 SELECT issue_type AS label_name, COUNT(*) AS count\n                 FROM "@ + table + "\n                 WHERE issue_type IS NOT NULL "@ + draft_and + "\n                 GROUP BY issue_type\n             )\n             GROUP BY label_name\n             ORDER BY count DESC"@
    }
}

/// The query of item counts per label of `table`; where items have an issue type, the type counts as a label and a label naming the type is not counted again.
pub fn label_breakdown_query(table: &str, has_issue_type: bool) -> (r: String)
    ensures
        r@ == label_breakdown_query_spec(table@, has_issue_type),
{
    let norm = normalize_label_sql("labels.name");
    let mut v: Vec<char> = Vec::new();
    if !has_issue_type {
        let wc = build_where(table, &Vec::new());
        push_str(&mut v, "SELECT label_name, COUNT(*) AS count FROM (\n                 SELECT DISTINCT issue_labels.issue_id, ");
        push_str(&mut v, norm.as_str());
        push_str(&mut v, " AS label_name\n                 FROM issue_labels\n                 JOIN labels ON labels.id = issue_labels.label_id\n                 JOIN ");
        push_str(&mut v, table);
        push_str(&mut v, " ON ");
        push_str(&mut v, table);
        push_str(&mut v, ".id = issue_labels.issue_id\n                 ");
        push_str(&mut v, wc.as_str());
        push_str(&mut v, "\n             )\n             GROUP BY label_name\n             ORDER BY count DESC");
    } else {
        let draft_and = draft_and(table);
        push_str(&mut v, "SELECT label_name, SUM(count) AS count FROM (\n                 SELECT label_name, COUNT(*) AS count FROM (\n                     SELECT DISTINCT ");
        push_str(&mut v, table);
        push_str(&mut v, ".id, ");
        push_str(&mut v, norm.as_str());
        push_str(&mut v, " AS label_name\n                     FROM ");
        push_str(&mut v, table);
        push_str(&mut v, "\n                     JOIN issue_labels ON ");
        push_str(&mut v, table);
        push_str(&mut v, ".id = issue_labels.issue_id\n                     JOIN labels ON labels.id = issue_labels.label_id\n                     WHERE ");
        push_str(&mut v, table);
        push_str(&mut v, ".issue_type IS NULL ");
        push_str(&mut v, draft_and.as_str());
        push_str(&mut v, "\n                 ) GROUP BY label_name\n                 UNION ALL\n                 SELECT label_name, COUNT(*) AS count FROM (\n                     SELECT DISTINCT ");
        push_str(&mut v, table);
        push_str(&mut v, ".id, ");
        push_str(&mut v, norm.as_str());
        push_str(&mut v, " AS label_name\n                     FROM ");
        push_str(&mut v, table);
        push_str(&mut v, "\n                     JOIN issue_labels ON ");
        push_str(&mut v, table);
        push_str(&mut v, ".id = issue_labels.issue_id\n                     JOIN labels ON labels.id = issue_labels.label_id\n                     WHERE ");
        push_str(&mut v, table);
        push_str(&mut v, ".issue_type IS NOT NULL ");
        push_str(&mut v, draft_and.as_str());
        push_str(&mut v, "\n                     AND lower(labels.name) != lower(");
        push_str(&mut v, table);
        push_str(&mut v, ".issue_type)\n                     AND lower(labels.name) != 'type: ' || lower(");
        push_str(&mut v, table);
        push_str(&mut v, ".issue_type)\n                 ) GROUP BY label_name\n                 UNION ALL\n                 SELECT issue_type AS label_name, COUNT(*) AS count\n                 FROM ");
        push_str(&mut v, table);
        push_str(&mut v, "\n                 WHERE issue_type IS NOT NULL ");
        push_str(&mut v, draft_and.as_str());
        push_str(&mut v, "\n                 GROUP BY issue_type\n             )\n             GROUP BY label_name\n             ORDER BY count DESC");
    }
    string_of(&v)
}

/// The query of item counts per month and label of `table`, counted as `label_breakdown_query` counts them.
pub open spec fn label_timeseries_query_spec(table: Seq<char>, has_issue_type: bool) -> Seq<char> {
    let norm = normalize_label_sql_spec("labels.name"@);
    if !has_issue_type {
        let wc = where_spec(table, Seq::empty());
        "SELECT month, label_name, COUNT(*) AS count FROM (\n                 SELECT DISTINCT substr("@ + table + ".created_at, 1, 7) AS month, "@ + table + ".id, "@ + norm + " AS label_name\n                 FROM "@ + table + "\n                 JOIN issue_labels ON "@ + table + ".id = issue_labels.issue_id\n                 JOIN labels ON labels.id = issue_labels.label_id\n                 "@ + wc + "\n             )\n             GROUP BY month, label_name\n             ORDER BY month, count DESC"@
    } else {
        let draft_and = draft_and_spec(table);
        "SELECT month, label_name, SUM(count) AS count FROM (\n                 SELECT month, label_name, COUNT(*) AS count FROM (\n                     SELECT DISTINCT substr("@ + table + ".created_at, 1, 7) AS month, "@ + table + ".id, "@ + norm + " AS label_name\n                     FROM "@ + table + "\n                     JOIN issue_labels ON "@ + table + ".id = issue_labels.issue_id\n                     JOIN labels ON labels.id = issue_labels.label_id\n                     WHERE "@ + table + ".issue_type IS NULL "@ + draft_and + "\n                 ) GROUP BY month, label_name\n                 UNION ALL\n                 SELECT month, label_name, COUNT(*) AS count FROM (\n                     SELECT DISTINCT substr("@ + table + ".created_at, 1, 7) AS month, "@ + table + ".id, "@ + norm + " AS label_name\n                     FROM "@ + table + "\n                     JOIN issue_labels ON "@ + table + ".id = issue_labels.issue_id\n                     JOIN labels ON labels.id = issue_labels.label_id\n                     WHERE "@ + table + ".issue_type IS NOT NULL "@ + draft_and + "\n                     AND lower(labels.name) != lower("@ + table + ".issue_type)\n                     AND lower(labels.name) != 'type: ' || lower("@ + table + ".issue_type)\n                 ) GROUP BY month, label_name\n                 UNION ALL\n                 SELECT substr(created_at, 1, 7) AS month, issue_type AS label_name, COUNT(*) AS count\n                 FROM "@ + table + "\n                 WHERE issue_type IS NOT NULL "@ + draft_and + "\n                 GROUP BY month, issue_type\n             )\n             GROUP BY month, label_name\n             ORDER BY month, count DESC"@
    }
}

/// The query of item counts per month and label of `table`, counted as `label_breakdown_query` counts them.
pub fn label_timeseries_query(table: &str, has_issue_type: bool) -> (r: String)
    ensures
        r@ == label_timeseries_query_spec(table@, has_issue_type),
{
    let norm = normalize_label_sql("labels.name");
    let mut v: Vec<char> = Vec::new();
    if !has_issue_type {
        let wc = build_where(table, &Vec::new());
        push_str(&mut v, "SELECT month, label_name, COUNT(*) AS count FROM (\n                 SELECT DISTINCT substr(");
        push_str(&mut v, table);
        push_str(&mut v, ".created_at, 1, 7) AS month, ");
        push_str(&mut v, table);
        push_str(&mut v, ".id, ");
        push_str(&mut v, norm.as_str());
        push_str(&mut v, " AS label_name\n                 FROM ");
        push_str(&mut v, table);
        push_str(&mut v, "\n                 JOIN issue_labels ON ");
        push_str(&mut v, table);
        push_str(&mut v, ".id = issue_labels.issue_id\n                 JOIN labels ON labels.id = issue_labels.label_id\n                 ");
        push_str(&mut v, wc.as_str());
        push_str(&mut v, "\n             )\n             GROUP BY month, label_name\n             ORDER BY month, count DESC");
    } else {
        let draft_and = draft_and(table);
        push_str(&mut v, "SELECT month, label_name, SUM(count) AS count FROM (\n                 SELECT month, label_name, COUNT(*) AS count FROM (\n                     SELECT DISTINCT substr(");
        push_str(&mut v, table);
        push_str(&mut v, ".created_at, 1, 7) AS month, ");
        push_str(&mut v, table);
        push_str(&mut v, ".id, ");
        push_str(&mut v, norm.as_str());
        push_str(&mut v, " AS label_name\n                     FROM ");
        push_str(&mut v, table);
        push_str(&mut v, "\n                     JOIN issue_labels ON ");
        push_str(&mut v, table);
        push_str(&mut v, ".id = issue_labels.issue_id\n                     JOIN labels ON labels.id = issue_labels.label_id\n                     WHERE ");
        push_str(&mut v, table);
        push_str(&mut v, ".issue_type IS NULL ");
        push_str(&mut v, draft_and.as_str());
        push_str(&mut v, "\n                 ) GROUP BY month, label_name\n                 UNION ALL\n                 SELECT month, label_name, COUNT(*) AS count FROM (\n                     SELECT DISTINCT substr(");
        push_str(&mut v, table);
        push_str(&mut v, ".created_at, 1, 7) AS month, ");
        push_str(&mut v, table);
        push_str(&mut v, ".id, ");
        push_str(&mut v, norm.as_str());
        push_str(&mut v, " AS label_name\n                     FROM ");
        push_str(&mut v, table);
        push_str(&mut v, "\n                     JOIN issue_labels ON ");
        push_str(&mut v, table);
        push_str(&mut v, ".id = issue_labels.issue_id\n                     JOIN labels ON labels.id = issue_labels.label_id\n                     WHERE ");
        push_str(&mut v, table);
        push_str(&mut v, ".issue_type IS NOT NULL ");
        push_str(&mut v, draft_and.as_str());
        push_str(&mut v, "\n                     AND lower(labels.name) != lower(");
        push_str(&mut v, table);
        push_str(&mut v, ".issue_type)\n                     AND lower(labels.name) != 'type: ' || lower(");
        push_str(&mut v, table);
        push_str(&mut v, ".issue_type)\n                 ) GROUP BY month, label_name\n                 UNION ALL\n                 SELECT substr(created_at, 1, 7) AS month, issue_type AS label_name, COUNT(*) AS count\n                 FROM ");
        push_str(&mut v, table);
        push_str(&mut v, "\n                 WHERE issue_type IS NOT NULL ");
        push_str(&mut v, draft_and.as_str());
        push_str(&mut v, "\n                 GROUP BY month, issue_type\n             )\n             GROUP BY month, label_name\n             ORDER BY month, count DESC");
    }
    string_of(&v)
}

/// The monthly summary query of `table`: created and closed counts per month before
/// `current_month`, one column per label and one per issue type.
pub open spec fn monthly_summary_query_spec(
    table: Seq<char>,
    has_issue_type: bool,
    label_names: Seq<Seq<char>>,
    type_names: Seq<Seq<char>>,
    current_month: Seq<char>,
) -> Seq<char> {
    let wc = where_spec(table, Seq::empty());
    let wc_closed = where_spec(table, seq!["closed_at IS NOT NULL"@]);
    let wc_label = label_filter_spec(table, has_issue_type);
    let norm = normalize_label_sql_spec("labels.name"@);
    let maybe_label_cols = label_columns_spec(label_names);
    let maybe_type_cols = type_columns_spec(type_names);
    let maybe_type_join = type_join_spec(table, type_names);
    "WITH events AS (\n            SELECT substr(created_at, 1, 7) AS month, id AS issue_id, 'created' AS event\n            FROM "@ + table + " "@ + wc + "\n            UNION ALL\n            SELECT substr(closed_at, 1, 7) AS month, id AS issue_id, 'closed' AS event\n            FROM "@ + table + " "@ + wc_closed + "\n        ),\n        label_counts AS (\n            SELECT DISTINCT issue_labels.issue_id, "@ + norm + " AS label_name\n            FROM issue_labels\n            JOIN labels ON labels.id = issue_labels.label_id\n            JOIN "@ + table + " ON "@ + table + ".id = issue_labels.issue_id\n            "@ + wc_label + "\n        )\n        SELECT\n            e.month,\n            SUM(CASE WHEN e.event = 'created' THEN 1 ELSE 0 END) AS created_"@ + table + ",\n            SUM(CASE WHEN e.event = 'closed' THEN 1 ELSE 0 END) AS closed_"@ + table + maybe_label_cols + maybe_type_cols + "\n        FROM events e\n        LEFT JOIN label_counts lc ON e.issue_id = lc.issue_id"@ + maybe_type_join + "\n        GROUP BY e.month\n        HAVING e.month < '"@ + current_month + "'\n        ORDER BY e.month"@
}

/// The monthly summary query of `table`.
pub fn monthly_summary_query(
    table: &str,
    has_issue_type: bool,
    label_names: &Vec<String>,
    type_names: &Vec<String>,
    current_month: &str,
) -> (r: String)
    ensures
        r@ == monthly_summary_query_spec(
            table@,
            has_issue_type,
            texts(label_names@),
            texts(type_names@),
            current_month@,
        ),
{
    let wc = build_where(table, &Vec::new());
    let wc_closed = build_where(table, &one_condition("closed_at IS NOT NULL"));
    let wc_label = label_filter(table, has_issue_type);
    let norm = normalize_label_sql("labels.name");
    let maybe_label_cols = label_columns(label_names);
    let maybe_type_cols = type_columns(type_names);
    let maybe_type_join = type_join(table, type_names);
    let mut v: Vec<char> = Vec::new();
    push_str(&mut v, "WITH events AS (\n            SELECT substr(created_at, 1, 7) AS month, id AS issue_id, 'created' AS event\n            FROM ");
    push_str(&mut v, table);
    push_str(&mut v, " ");
    push_str(&mut v, wc.as_str());
    push_str(&mut v, "\n            UNION ALL\n            SELECT substr(closed_at, 1, 7) AS month, id AS issue_id, 'closed' AS event\n            FROM ");
    push_str(&mut v, table);
    push_str(&mut v, " ");
    push_str(&mut v, wc_closed.as_str());
    push_str(&mut v, "\n        ),\n        label_counts AS (\n            SELECT DISTINCT issue_labels.issue_id, ");
    push_str(&mut v, norm.as_str());
    push_str(&mut v, " AS label_name\n            FROM issue_labels\n            JOIN labels ON labels.id = issue_labels.label_id\n            JOIN ");
    push_str(&mut v, table);
    push_str(&mut v, " ON ");
    push_str(&mut v, table);
    push_str(&mut v, ".id = issue_labels.issue_id\n            ");
    push_str(&mut v, wc_label.as_str());
    push_str(&mut v, "\n        )\n        SELECT\n            e.month,\n            SUM(CASE WHEN e.event = 'created' THEN 1 ELSE 0 END) AS created_");
    push_str(&mut v, table);
    push_str(&mut v, ",\n            SUM(CASE WHEN e.event = 'closed' THEN 1 ELSE 0 END) AS closed_");
    push_str(&mut v, table);
    push_str(&mut v, maybe_label_cols.as_str());
    push_str(&mut v, maybe_type_cols.as_str());
    push_str(&mut v, "\n        FROM events e\n        LEFT JOIN label_counts lc ON e.issue_id = lc.issue_id");
    push_str(&mut v, maybe_type_join.as_str());
    push_str(&mut v, "\n        GROUP BY e.month\n        HAVING e.month < '");
    push_str(&mut v, current_month);
    push_str(&mut v, "'\n        ORDER BY e.month");
    string_of(&v)
}

/// The SQL rows of one kind of event: the month of `column` of each row, tagged `event`.
pub open spec fn event_rows(column: Seq<char>, event: Seq<char>) -> Seq<char> {
    "SELECT substr("@ + column + ", 1, 7) AS month, id AS issue_id, '"@ + event + "' AS event"@
}

/// The SQL count of the events of kind `event`, named `<event>_<table>`.
pub open spec fn event_count(event: Seq<char>, table: Seq<char>) -> Seq<char> {
    "SUM(CASE WHEN e.event = '"@ + event + "' THEN 1 ELSE 0 END) AS "@ + event + "_"@ + table
}

proof fn lemma_contains_grows_one(s: Seq<char>, t: Seq<char>, p: Seq<char>)
    requires
        contains_seq(s, p),
    ensures
        contains_seq(s + t, p),
        contains_seq(t + s, p),
{
    let i = choose|i: int| occurs_at(s, p, i);
    assert((s + t).subrange(i, i + p.len()) =~= s.subrange(i, i + p.len()));
    assert(occurs_at(s + t, p, i));
    assert((t + s).subrange(t.len() + i, t.len() + i + p.len()) =~= s.subrange(i, i + p.len()));
    assert(occurs_at(t + s, p, t.len() + i));
}

/// A text that holds `p` still holds it with anything added before or after it.
proof fn lemma_contains_grows(p: Seq<char>)
    ensures
        forall|s: Seq<char>, t: Seq<char>|
            #![trigger s + t]
            contains_seq(s, p) ==> contains_seq(s + t, p),
        forall|s: Seq<char>, t: Seq<char>|
            #![trigger t + s]
            contains_seq(s, p) ==> contains_seq(t + s, p),
{
    assert forall|s: Seq<char>, t: Seq<char>| #![trigger s + t] contains_seq(s, p) implies contains_seq(s + t, p) by {
        lemma_contains_grows_one(s, t, p);
    }
    assert forall|s: Seq<char>, t: Seq<char>| #![trigger t + s] contains_seq(s, p) implies contains_seq(t + s, p) by {
        lemma_contains_grows_one(s, t, p);
    }
}

/// `c + t` occurs where `c` ends a text and `t` follows it.
proof fn lemma_occurs_across(x: Seq<char>, a: Seq<char>, c: Seq<char>, t: Seq<char>)
    ensures
        contains_seq((x + (a + c)) + t, c + t),
{
    let i: int = (x.len() + a.len()) as int;
    assert(((x + (a + c)) + t).subrange(i, i + (c + t).len()) =~= c + t);
    assert(occurs_at((x + (a + c)) + t, c + t, i));
}

proof fn lemma_created_rows_literal()
    ensures
        "WITH events AS (\n            SELECT substr(created_at, 1, 7) AS month, id AS issue_id, 'created' AS event\n            FROM "@
            == "WITH events AS (\n            "@ + event_rows("created_at"@, "created"@)
            + "\n            FROM "@,
{
    reveal_strlit("WITH events AS (\n            SELECT substr(created_at, 1, 7) AS month, id AS issue_id, 'created' AS event\n            FROM ");
    reveal_strlit("WITH events AS (\n            ");
    reveal_strlit("\n            FROM ");
    reveal_strlit("SELECT substr(");
    reveal_strlit(", 1, 7) AS month, id AS issue_id, '");
    reveal_strlit("' AS event");
    reveal_strlit("created_at");
    reveal_strlit("created");
    assert("WITH events AS (\n            SELECT substr(created_at, 1, 7) AS month, id AS issue_id, 'created' AS event\n            FROM "@
        =~= "WITH events AS (\n            "@ + event_rows("created_at"@, "created"@)
        + "\n            FROM "@);
}

proof fn lemma_closed_rows_literal()
    ensures
        "\n            UNION ALL\n            SELECT substr(closed_at, 1, 7) AS month, id AS issue_id, 'closed' AS event\n            FROM "@
            == "\n            UNION ALL\n            "@ + event_rows("closed_at"@, "closed"@)
            + "\n            FROM "@,
{
    reveal_strlit("\n            UNION ALL\n            SELECT substr(closed_at, 1, 7) AS month, id AS issue_id, 'closed' AS event\n            FROM ");
    reveal_strlit("\n            UNION ALL\n            ");
    reveal_strlit("\n            FROM ");
    reveal_strlit("SELECT substr(");
    reveal_strlit(", 1, 7) AS month, id AS issue_id, '");
    reveal_strlit("' AS event");
    reveal_strlit("closed_at");
    reveal_strlit("closed");
    assert("\n            UNION ALL\n            SELECT substr(closed_at, 1, 7) AS month, id AS issue_id, 'closed' AS event\n            FROM "@
        =~= "\n            UNION ALL\n            "@ + event_rows("closed_at"@, "closed"@)
        + "\n            FROM "@);
}

proof fn lemma_created_count_literal()
    ensures
        "\n        )\n        SELECT\n            e.month,\n            SUM(CASE WHEN e.event = 'created' THEN 1 ELSE 0 END) AS created_"@
            == "\n        )\n        SELECT\n            e.month,\n            "@ + ("SUM(CASE WHEN e.event = '"@
            + "created"@ + "' THEN 1 ELSE 0 END) AS "@ + "created"@ + "_"@),
{
    reveal_strlit("\n        )\n        SELECT\n            e.month,\n            SUM(CASE WHEN e.event = 'created' THEN 1 ELSE 0 END) AS created_");
    reveal_strlit("\n        )\n        SELECT\n            e.month,\n            ");
    reveal_strlit("SUM(CASE WHEN e.event = '");
    reveal_strlit("' THEN 1 ELSE 0 END) AS ");
    reveal_strlit("created");
    reveal_strlit("_");
    assert("\n        )\n        SELECT\n            e.month,\n            SUM(CASE WHEN e.event = 'created' THEN 1 ELSE 0 END) AS created_"@
        =~= "\n        )\n        SELECT\n            e.month,\n            "@ + ("SUM(CASE WHEN e.event = '"@
        + "created"@ + "' THEN 1 ELSE 0 END) AS "@ + "created"@ + "_"@));
}

proof fn lemma_closed_count_literal()
    ensures
        ",\n            SUM(CASE WHEN e.event = 'closed' THEN 1 ELSE 0 END) AS closed_"@
            == ",\n            "@ + ("SUM(CASE WHEN e.event = '"@ + "closed"@
            + "' THEN 1 ELSE 0 END) AS "@ + "closed"@ + "_"@),
{
    reveal_strlit(",\n            SUM(CASE WHEN e.event = 'closed' THEN 1 ELSE 0 END) AS closed_");
    reveal_strlit(",\n            ");
    reveal_strlit("SUM(CASE WHEN e.event = '");
    reveal_strlit("' THEN 1 ELSE 0 END) AS ");
    reveal_strlit("closed");
    reveal_strlit("_");
    assert(",\n            SUM(CASE WHEN e.event = 'closed' THEN 1 ELSE 0 END) AS closed_"@
        =~= ",\n            "@ + ("SUM(CASE WHEN e.event = '"@ + "closed"@
        + "' THEN 1 ELSE 0 END) AS "@ + "closed"@ + "_"@));
}

/// The monthly summary of `table` makes a `created` event in the month of each row's
/// `created_at` and a `closed` event in the month of each row's `closed_at`, and counts
/// the first as `created_<table>` and the second as `closed_<table>`.
pub proof fn lemma_monthly_summary_events(
    table: Seq<char>,
    has_issue_type: bool,
    label_names: Seq<Seq<char>>,
    type_names: Seq<Seq<char>>,
    current_month: Seq<char>,
)
    ensures
        contains_seq(
            monthly_summary_query_spec(table, has_issue_type, label_names, type_names, current_month),
            event_rows("created_at"@, "created"@),
        ),
        contains_seq(
            monthly_summary_query_spec(table, has_issue_type, label_names, type_names, current_month),
            event_rows("closed_at"@, "closed"@),
        ),
        contains_seq(
            monthly_summary_query_spec(table, has_issue_type, label_names, type_names, current_month),
            event_count("created"@, table),
        ),
        contains_seq(
            monthly_summary_query_spec(table, has_issue_type, label_names, type_names, current_month),
            event_count("closed"@, table),
        ),
{
    let q = monthly_summary_query_spec(table, has_issue_type, label_names, type_names, current_month);
    let p1 = event_rows("created_at"@, "created"@);
    let p2 = event_rows("closed_at"@, "closed"@);
    let p3 = event_count("created"@, table);
    let p4 = event_count("closed"@, table);
    lemma_created_rows_literal();
    lemma_closed_rows_literal();
    lemma_created_count_literal();
    lemma_closed_count_literal();
    lemma_occurs_between("WITH events AS (\n            "@, p1, "\n            FROM "@);
    lemma_occurs_between("\n            UNION ALL\n            "@, p2, "\n            FROM "@);
    lemma_contains_grows(p1);
    lemma_contains_grows(p2);
    lemma_contains_grows(p3);
    lemma_contains_grows(p4);
    let wc = where_spec(table, Seq::empty());
    let wc_closed = where_spec(table, seq!["closed_at IS NOT NULL"@]);
    let wc_label = label_filter_spec(table, has_issue_type);
    let norm = normalize_label_sql_spec("labels.name"@);
    let pre3 = "WITH events AS (\n            SELECT substr(created_at, 1, 7) AS month, id AS issue_id, 'created' AS event\n            FROM "@
        + table + " "@ + wc
        + "\n            UNION ALL\n            SELECT substr(closed_at, 1, 7) AS month, id AS issue_id, 'closed' AS event\n            FROM "@
        + table + " "@ + wc_closed
        + "\n        ),\n        label_counts AS (\n            SELECT DISTINCT issue_labels.issue_id, "@
        + norm
        + " AS label_name\n            FROM issue_labels\n            JOIN labels ON labels.id = issue_labels.label_id\n            JOIN "@
        + table + " ON "@ + table + ".id = issue_labels.issue_id\n            "@ + wc_label;
    lemma_occurs_across(
        pre3,
        "\n        )\n        SELECT\n            e.month,\n            "@,
        "SUM(CASE WHEN e.event = '"@ + "created"@ + "' THEN 1 ELSE 0 END) AS "@ + "created"@ + "_"@,
        table,
    );
    let pre4 = pre3
        + "\n        )\n        SELECT\n            e.month,\n            SUM(CASE WHEN e.event = 'created' THEN 1 ELSE 0 END) AS created_"@
        + table;
    lemma_occurs_across(
        pre4,
        ",\n            "@,
        "SUM(CASE WHEN e.event = '"@ + "closed"@ + "' THEN 1 ELSE 0 END) AS "@ + "closed"@ + "_"@,
        table,
    );
    assert(contains_seq(q, p1));
    assert(contains_seq(q, p2));
    assert(contains_seq(q, p3));
    assert(contains_seq(q, p4));
}

/// The column that counts one label in the monthly summary.
pub open spec fn label_column_spec(l: Seq<char>) -> Seq<char> {
    "SUM(CASE WHEN lc.label_name = '"@ + l + "' THEN 1 ELSE 0 END) AS \""@ + l + "\""@
}

/// The column that counts one issue type in the monthly summary.
pub open spec fn type_column_spec(t: Seq<char>) -> Seq<char> {
    "SUM(CASE WHEN it.issue_type = '"@ + t + "' AND e.event = 'created' THEN 1 ELSE 0 END) AS \""@ + t + "\""@
}

fn label_column(l: &str) -> (r: String)
    ensures
        r@ == label_column_spec(l@),
{
    let mut v: Vec<char> = Vec::new();
    push_str(&mut v, "SUM(CASE WHEN lc.label_name = '");
    push_str(&mut v, l);
    push_str(&mut v, "' THEN 1 ELSE 0 END) AS \"");
    push_str(&mut v, l);
    push_str(&mut v, "\"");
    string_of(&v)
}

fn type_column(t: &str) -> (r: String)
    ensures
        r@ == type_column_spec(t@),
{
    let mut v: Vec<char> = Vec::new();
    push_str(&mut v, "SUM(CASE WHEN it.issue_type = '");
    push_str(&mut v, t);
    push_str(&mut v, "' AND e.event = 'created' THEN 1 ELSE 0 END) AS \"");
    push_str(&mut v, t);
    push_str(&mut v, "\"");
    string_of(&v)
}

} // verus!
