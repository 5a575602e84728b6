//! The data notes of a trends file, the yearly contributor tables, and the marked block
//! of a trends file that the tables replace.
use super::contributors::PeriodCount;
use super::markup::{md_inline, inline_md_to_html};
use crate::text::{
    chars_of, find_seq, find_spec, i64_decimal, parse_i32_chars, parse_i32_spec, push_all,
    push_str, signed_decimal, slice_chars, starts_with_chars, starts_with_seq, string_of,
    trim_start, trim_start_chars, u64_decimal, decimal,
};
use vstd::prelude::*;

verus! {

/// The first place from `i` on of `c` in `s`, or the length of `s`.
pub open spec fn next_char(s: Seq<char>, i: int, c: char) -> int
    decreases s.len() - i,
{
    if i < 0 || i >= s.len() {
        s.len() as int
    } else if s[i] == c {
        i
    } else {
        next_char(s, i + 1, c)
    }
}

/// Where the next `c` lies: between `i` and the end of `s`.
pub proof fn lemma_next_char_bounds(s: Seq<char>, i: int, c: char)
    requires
        0 <= i <= s.len(),
    ensures
        i <= next_char(s, i, c) <= s.len(),
    decreases s.len() - i,
{
    if i < s.len() && s[i] != c {
        lemma_next_char_bounds(s, i + 1, c);
    }
}

/// A line without the `\r` of a `\r\n` ending.
pub open spec fn strip_cr(line: Seq<char>) -> Seq<char> {
    if line.len() > 0 && line.last() == '\r' {
        line.drop_last()
    } else {
        line
    }
}

/// The lines of `s` from place `i` on, as `str::lines` gives them: split at `\n`, a `\r`
/// before it dropped, no empty line after a final `\n`.
pub open spec fn lines_from(s: Seq<char>, i: int) -> Seq<Seq<char>>
    decreases s.len() - i,
{
    if i < 0 || i >= s.len() {
        Seq::empty()
    } else {
        let k = next_char(s, i, '\n');
        proof {
            lemma_next_char_bounds(s, i, '\n');
        }
        if k < s.len() {
            seq![strip_cr(s.subrange(i, k))] + lines_from(s, k + 1)
        } else {
            seq![s.subrange(i, s.len() as int)]
        }
    }
}

/// The list items among `lines` as HTML: runs of lines that start, after white space, with
/// `- ` become a list, their text converted from inline Markdown; other lines close it.
pub open spec fn notes_list(lines: Seq<Seq<char>>, in_list: bool) -> Seq<char>
    decreases lines.len(),
{
    if lines.len() == 0 {
        if in_list {
            "</ul>"@
        } else {
            Seq::empty()
        }
    } else {
        let t = trim_start(lines[0]);
        if starts_with_seq(t, "- "@) {
            (if in_list {
                Seq::empty()
            } else {
                "<ul>"@
            }) + "<li>"@ + md_inline(t.skip(2)) + "</li>"@ + notes_list(lines.drop_first(), true)
        } else {
            (if in_list {
                "</ul>"@
            } else {
                Seq::empty()
            }) + notes_list(lines.drop_first(), false)
        }
    }
}

/// The text of the `## Data notes` section: from after its heading up to and with the
/// line break before the next `## ` heading, or to the end.
pub open spec fn notes_section(text: Seq<char>) -> Option<Seq<char>> {
    match find_spec(text, "## Data notes"@) {
        Some(p) => {
            let sec = text.skip(p + 13);
            let end = match find_spec(sec, "\n## "@) {
                Some(e) => e + 1,
                None => sec.len() as int,
            };
            Some(sec.take(end))
        },
        None => None,
    }
}

/// The data notes of a trends file as an HTML block: the list items of its `## Data notes`
/// section; none if there is no such section or it holds no item.
pub open spec fn data_notes_spec(text: Seq<char>) -> Option<Seq<char>> {
    match notes_section(text) {
        Some(c) => {
            let h = notes_list(lines_from(c, 0), false);
            if h.len() == 0 {
                None
            } else {
                Some("<div class=\"notes\"><h3>Data notes</h3>"@ + h + "</div>"@)
            }
        },
        None => None,
    }
}

fn notes_list_html(c: &Vec<char>) -> (r: Vec<char>)
    ensures
        r@ == notes_list(lines_from(c@, 0), false),
{
    let n = c.len();
    let mut out: Vec<char> = Vec::new();
    let mut in_list = false;
    let mut i: usize = 0;
    let dash = chars_of("- ");
    proof {
        reveal_strlit("- ");
    }
    while i < n
        invariant
            n == c@.len(),
            i <= n,
            dash@ == "- "@,
            dash@.len() == 2,
            notes_list(lines_from(c@, 0), false) == out@ + notes_list(lines_from(c@, i as int), in_list),
        decreases n - i,
    {
        let mut k = i;
        while k < n && c[k] != '\n'
            invariant
                n == c@.len(),
                i <= k <= n,
                next_char(c@, k as int, '\n') == next_char(c@, i as int, '\n'),
            decreases n - k,
        {
            k += 1;
        }
        proof {
            lemma_next_char_bounds(c@, i as int, '\n');
        }
        let mut line = slice_chars(c, i, k);
        if k < n && line.len() > 0 && line[line.len() - 1] == '\r' {
            line.pop();
        }
        let next = if k < n {
            k + 1
        } else {
            n
        };
        proof {
            assert(line@ == if k < n {
                strip_cr(c@.subrange(i as int, k as int))
            } else {
                c@.subrange(i as int, n as int)
            });
            assert(lines_from(c@, i as int) == seq![line@] + lines_from(c@, next as int));
            assert((seq![line@] + lines_from(c@, next as int))[0] == line@);
            assert((seq![line@] + lines_from(c@, next as int)).drop_first() == lines_from(
                c@,
                next as int,
            ));
        }
        let t = trim_start_chars(&line);
        if starts_with_chars(&t, &dash) {
            if !in_list {
                push_str(&mut out, "<ul>");
                in_list = true;
            }
            let item = slice_chars(&t, 2, t.len());
            let item_text = string_of(&item);
            let html = inline_md_to_html(item_text.as_str());
            push_str(&mut out, "<li>");
            push_str(&mut out, html.as_str());
            push_str(&mut out, "</li>");
            assert(item@ == t@.skip(2));
        } else {
            if in_list {
                push_str(&mut out, "</ul>");
                in_list = false;
            }
        }
        i = next;
    }
    if in_list {
        push_str(&mut out, "</ul>");
    }
    out
}

/// The data notes of a trends file as an HTML block.
pub fn data_notes_html(text: &str) -> (r: Option<String>)
    ensures
        match r {
            Some(h) => data_notes_spec(text@) == Some(h@),
            None => data_notes_spec(text@) is None,
        },
{
    let t = chars_of(text);
    let marker = chars_of("## Data notes");
    proof {
        reveal_strlit("## Data notes");
    }
    let p = match find_seq(&t, &marker) {
        Some(p) => p,
        None => {
            return None;
        },
    };
    let tl = t.len();
    let sec = slice_chars(&t, p + marker.len(), tl);
    let next_heading = chars_of("\n## ");
    proof {
        reveal_strlit("\n## ");
    }
    let sl = sec.len();
    let end = match find_seq(&sec, &next_heading) {
        Some(e) => e + 1,
        None => sec.len(),
    };
    let content = slice_chars(&sec, 0, end);
    assert(content@ == notes_section(text@)->0);
    let h = notes_list_html(&content);
    if h.len() == 0 {
        return None;
    }
    let mut out = chars_of("<div class=\"notes\"><h3>Data notes</h3>");
    push_all(&mut out, &h);
    push_str(&mut out, "</div>");
    Some(string_of(&out))
}

/// `text` with what lies between the first `start` marker and the first `end` marker,
/// the markers included, replaced by `start`, `content` and `end`; none if a marker is
/// missing.
pub open spec fn replace_marked_spec(text: Seq<char>, start: Seq<char>, end: Seq<char>, content: Seq<char>) -> Option<Seq<char>> {
    match (find_spec(text, start), find_spec(text, end)) {
        (Some(s), Some(e)) => Some(text.take(s) + start + content + end + text.skip(e + end.len())),
        _ => None,
    }
}

/// Replaces the marked block of `text` by `content` between the markers.
pub fn replace_marked(text: &str, start: &str, end: &str, content: &str) -> (r: Option<String>)
    ensures
        match r {
            Some(x) => replace_marked_spec(text@, start@, end@, content@) == Some(x@),
            None => replace_marked_spec(text@, start@, end@, content@) is None,
        },
{
    let t = chars_of(text);
    let sc = chars_of(start);
    let ec = chars_of(end);
    let found_start = find_seq(&t, &sc);
    let found_end = find_seq(&t, &ec);
    if found_start.is_none() || found_end.is_none() {
        return None;
    }
    let s = found_start.unwrap();
    let e = found_end.unwrap();
    let mut out = slice_chars(&t, 0, s);
    push_str(&mut out, start);
    push_str(&mut out, content);
    push_str(&mut out, end);
    let tl = t.len();
    let tail = slice_chars(&t, e + ec.len(), tl);
    push_all(&mut out, &tail);
    proof {
        assert(t@.take(s as int) == t@.subrange(0, s as int));
        assert(t@.skip(e + end@.len()) == t@.subrange(e + ec@.len(), t@.len() as int));
    }
    Some(string_of(&out))
}

/// A number written with at least two digits, as `{:02}` writes it.
pub open spec fn pad2(v: int) -> Seq<char> {
    if 0 <= v < 10 {
        seq!['0'] + decimal(v as nat)
    } else {
        signed_decimal(v)
    }
}

/// Integer division rounding toward zero, as Rust's `/` on integers.
pub open spec fn div_trunc(a: int, b: int) -> int {
    if a >= 0 {
        a / b
    } else {
        -((-a) / b)
    }
}

/// The remainder of `div_trunc`, with the sign of `a`, as Rust's `%` on integers.
pub open spec fn rem_trunc(a: int, b: int) -> int {
    if a >= 0 {
        a % b
    } else {
        -((-a) % b)
    }
}

/// Whether `v` fits in an `i32`.
pub open spec fn fits_i32(v: int) -> bool {
    i32::MIN <= v <= i32::MAX
}

/// The month `back` months before month `month` of `year`, as `YYYY-MM`: the default start
/// of the charts.
pub open spec fn months_back_spec(year: i32, month: u32, back: i32) -> Seq<char> {
    let total = year * 12 + month - back;
    signed_decimal(div_trunc(total, 12)) + seq!['-'] + pad2(rem_trunc(total, 12) + 1)
}

/// The month `back` months before month `month` of `year`, as `YYYY-MM`.
pub fn months_back(year: i32, month: u32, back: i32) -> (r: String)
    requires
        month <= 12,
        fits_i32(year * 12),
        fits_i32(year * 12 + month),
        fits_i32(year * 12 + month - back),
    ensures
        r@ == months_back_spec(year, month, back),
{
    let total: i64 = (year as i64) * 12 + (month as i64) - (back as i64);
    let (q, m): (i64, i64) = if total >= 0 {
        (total / 12, total % 12)
    } else {
        (-((-total) / 12), -((-total) % 12))
    };
    let mut out = i64_decimal(q);
    out.push('-');
    let v = m + 1;
    if 0 <= v && v < 10 {
        out.push('0');
        let d = u64_decimal(v as u64);
        push_all(&mut out, &d);
    } else {
        let d = i64_decimal(v);
        push_all(&mut out, &d);
    }
    string_of(&out)
}

/// The label of a year: with the months so far for the current year.
pub open spec fn year_label(year: Seq<char>, current: bool, months_done: int) -> Seq<char> {
    if current {
        year + " (YTD, "@ + signed_decimal(months_done) + "mo)"@
    } else {
        year
    }
}

/// Whether the counts of a period and their sum fit in an `i64`.
pub open spec fn period_sum_fits(c: PeriodCount) -> bool {
    i64::MIN <= c.new + c.returning <= i64::MAX
}

/// One row of the yearly contributors table in the HTML page.
pub open spec fn yearly_html_row(c: PeriodCount, current_year: i32, current_month: u32) -> Seq<char> {
    let label = year_label(c.period@, c.period@ == signed_decimal(current_year as int), current_month - 1);
    "<tr><td>"@ + label + "</td><td>"@ + signed_decimal(c.new + c.returning) + "</td><td>"@
        + signed_decimal(c.new as int) + "</td><td>"@ + signed_decimal(c.returning as int)
        + "</td></tr>"@
}

/// The rows of the yearly contributors table in the HTML page.
pub open spec fn yearly_html_rows(stats: Seq<PeriodCount>, current_year: i32, current_month: u32) -> Seq<char>
    decreases stats.len(),
{
    if stats.len() == 0 {
        Seq::empty()
    } else {
        yearly_html_rows(stats.drop_last(), current_year, current_month) + yearly_html_row(
            stats.last(),
            current_year,
            current_month,
        )
    }
}

fn html_row(c: &PeriodCount, year_text: &Vec<char>, current_year: i32, current_month: u32) -> (r: Vec<char>)
    requires
        1 <= current_month,
        period_sum_fits(*c),
        year_text@ == signed_decimal(current_year as int),
    ensures
        r@ == yearly_html_row(*c, current_year, current_month),
{
    let pc = chars_of(c.period.as_str());
    let mut out = chars_of("<tr><td>");
    push_all(&mut out, &pc);
    if crate::text::text_equal(c.period.as_str(), string_of(year_text).as_str()) {
        push_str(&mut out, " (YTD, ");
        let d = i64_decimal((current_month - 1) as i64);
        push_all(&mut out, &d);
        push_str(&mut out, "mo)");
    }
    push_str(&mut out, "</td><td>");
    let u = i64_decimal(c.new + c.returning);
    push_all(&mut out, &u);
    push_str(&mut out, "</td><td>");
    let nw = i64_decimal(c.new);
    push_all(&mut out, &nw);
    push_str(&mut out, "</td><td>");
    let rt = i64_decimal(c.returning);
    push_all(&mut out, &rt);
    push_str(&mut out, "</td></tr>");
    out
}

/// The yearly contributors table of the HTML page.
pub open spec fn yearly_table_spec(stats: Seq<PeriodCount>, current_year: i32, current_month: u32) -> Seq<char> {
    "<p class=\"stats-label\">Unique PR contributors by year</p><table class=\"stats-table\"><thead><tr><th>Year</th><th>Unique</th><th>New</th><th>Returning</th></tr></thead><tbody>"@
        + yearly_html_rows(stats, current_year, current_month) + "</tbody></table>"@
}

/// The yearly contributors table of the HTML page; the current year is marked as the
/// year to date.
pub fn yearly_table(stats: &Vec<PeriodCount>, current_year: i32, current_month: u32) -> (r: String)
    requires
        1 <= current_month,
        forall|i: int| 0 <= i < stats@.len() ==> period_sum_fits(#[trigger] stats@[i]),
    ensures
        r@ == yearly_table_spec(stats@, current_year, current_month),
{
    let year_text = i64_decimal(current_year as i64);
    let mut out = chars_of(
        "<p class=\"stats-label\">Unique PR contributors by year</p><table class=\"stats-table\"><thead><tr><th>Year</th><th>Unique</th><th>New</th><th>Returning</th></tr></thead><tbody>",
    );
    let ghost head = out@;
    let mut i: usize = 0;
    while i < stats.len()
        invariant
            i <= stats@.len(),
            1 <= current_month,
            year_text@ == signed_decimal(current_year as int),
            forall|i: int| 0 <= i < stats@.len() ==> period_sum_fits(#[trigger] stats@[i]),
            out@ == head + yearly_html_rows(stats@.take(i as int), current_year, current_month),
        decreases stats.len() - i,
    {
        assert(period_sum_fits(stats@[i as int]));
        let row = html_row(&stats[i], &year_text, current_year, current_month);
        push_all(&mut out, &row);
        assert(stats@.take(i + 1).drop_last() == stats@.take(i as int));
        i += 1;
    }
    assert(stats@.take(stats@.len() as int) == stats@);
    push_str(&mut out, "</tbody></table>");
    string_of(&out)
}

/// One row of the yearly contributors table in the trends file.
pub open spec fn yearly_md_row(c: PeriodCount, current_year: i32, current_month: u32) -> Seq<char> {
    let label = year_label(c.period@, parse_i32_spec(c.period@) == Some(current_year), current_month - 1);
    "| "@ + label + " | "@ + signed_decimal(c.new + c.returning) + " | "@ + signed_decimal(
        c.new as int,
    ) + " | "@ + signed_decimal(c.returning as int) + " |\n"@
}

/// The rows of the yearly contributors table in the trends file.
pub open spec fn yearly_md_rows(stats: Seq<PeriodCount>, current_year: i32, current_month: u32) -> Seq<char>
    decreases stats.len(),
{
    if stats.len() == 0 {
        Seq::empty()
    } else {
        yearly_md_rows(stats.drop_last(), current_year, current_month) + yearly_md_row(
            stats.last(),
            current_year,
            current_month,
        )
    }
}

fn md_row(c: &PeriodCount, current_year: i32, current_month: u32) -> (r: Vec<char>)
    requires
        1 <= current_month,
        period_sum_fits(*c),
    ensures
        r@ == yearly_md_row(*c, current_year, current_month),
{
    let pc = chars_of(c.period.as_str());
    let mut out = chars_of("| ");
    push_all(&mut out, &pc);
    if parse_i32_chars(&pc) == Some(current_year) {
        push_str(&mut out, " (YTD, ");
        let d = i64_decimal((current_month - 1) as i64);
        push_all(&mut out, &d);
        push_str(&mut out, "mo)");
    }
    push_str(&mut out, " | ");
    let u = i64_decimal(c.new + c.returning);
    push_all(&mut out, &u);
    push_str(&mut out, " | ");
    let nw = i64_decimal(c.new);
    push_all(&mut out, &nw);
    push_str(&mut out, " | ");
    let rt = i64_decimal(c.returning);
    push_all(&mut out, &rt);
    push_str(&mut out, " |\n");
    out
}

/// The yearly contributors table of the trends file, between its markers.
pub open spec fn yearly_md_spec(stats: Seq<PeriodCount>, current_year: i32, current_month: u32) -> Seq<char> {
    "\n| Year | Unique | New | Returning |\n|------|--------|-----|----------|\n"@ + yearly_md_rows(
        stats,
        current_year,
        current_month,
    )
}

/// The yearly contributors table of the trends file; the current year is marked with the
/// months completed.
pub fn yearly_md_table(stats: &Vec<PeriodCount>, current_year: i32, current_month: u32) -> (r: String)
    requires
        1 <= current_month,
        forall|i: int| 0 <= i < stats@.len() ==> period_sum_fits(#[trigger] stats@[i]),
    ensures
        r@ == yearly_md_spec(stats@, current_year, current_month),
{
    let mut out = chars_of("\n| Year | Unique | New | Returning |\n|------|--------|-----|----------|\n");
    let ghost head = out@;
    let mut i: usize = 0;
    while i < stats.len()
        invariant
            i <= stats@.len(),
            1 <= current_month,
            forall|i: int| 0 <= i < stats@.len() ==> period_sum_fits(#[trigger] stats@[i]),
            out@ == head + yearly_md_rows(stats@.take(i as int), current_year, current_month),
        decreases stats.len() - i,
    {
        assert(period_sum_fits(stats@[i as int]));
        let row = md_row(&stats[i], current_year, current_month);
        push_all(&mut out, &row);
        assert(stats@.take(i + 1).drop_last() == stats@.take(i as int));
        i += 1;
    }
    assert(stats@.take(stats@.len() as int) == stats@);
    string_of(&out)
}

} // verus!
