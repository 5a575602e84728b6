//! Datadog gauges of a repository's health: tags, buckets and the series that carry them.
use crate::text::{
    ascii_alnum, chars_of, contains_chars, contains_seq, is_ascii_alnum, lowercase, push_all,
    lemma_seq_less_irreflexive, lemma_seq_less_transitive, push_str, seq_less, split_once_chars,
    split_once_seq, string_of, to_lowercase_chars, trim, trim_chars, trim_end_char,
    trim_end_matches_char, ascii_lower_char, is_ascii_seq, lemma_trim_keeps_ascii, first_index_of,
};
use crate::sorting::{
    count_in, count_same_texts, covers, group_counts, lemma_count_sorted_rows,
    lemma_texts_less_irreflexive, lemma_texts_less_transitive, rows_texts, sort_strings,
    sorted_distinct, string_less, texts, texts_less, texts_sorted,
};
use crate::time::{parse_rfc3339_seconds, rfc3339_seconds};
use crate::config::Config;
use vstd::prelude::*;

verus! {

/// The longest text, in characters, that a sanitized tag part is cut to.
pub const TAG_COMPONENT_LIMIT: usize = 200;

/// Characters that a tag part keeps: ASCII letters and digits, `_`, `-`, `.`, and `/` in
/// tag values.
pub open spec fn tag_char_allowed(c: char, allow_slash: bool) -> bool {
    is_ascii_alnum(c) || c == '_' || c == '-' || c == '.' || (allow_slash && c == '/')
}

/// The text built from the characters of `s` in turn, and whether its last character
/// stands for a run of refused characters: a kept character is copied, the first refused
/// character after kept text becomes one `_`, further refused ones are dropped, and once
/// the text is 200 characters long the rest of `s` is ignored.
pub open spec fn sanitize_scan(s: Seq<char>, allow_slash: bool) -> (Seq<char>, bool)
    decreases s.len(),
{
    if s.len() == 0 {
        (Seq::empty(), false)
    } else {
        let (acc, prev) = sanitize_scan(s.drop_last(), allow_slash);
        let c = s.last();
        if acc.len() >= 200 {
            (acc, prev)
        } else if tag_char_allowed(c, allow_slash) {
            (acc.push(c), false)
        } else if !prev && acc.len() > 0 {
            (acc.push('_'), true)
        } else {
            (acc, prev)
        }
    }
}

/// A tag part: `value` trimmed, lowered, scanned as `sanitize_scan` says, and stripped of
/// trailing `_`.
pub open spec fn sanitize_spec(value: Seq<char>, allow_slash: bool) -> Seq<char> {
    trim_end_char(sanitize_scan(lowercase(trim(value)), allow_slash).0, '_')
}

/// A tag part of ASCII text: as `sanitize_spec`, with ASCII letters lowered.
pub open spec fn sanitize_ascii(value: Seq<char>, allow_slash: bool) -> Seq<char> {
    trim_end_char(
        sanitize_scan(trim(value).map_values(|c: char| ascii_lower_char(c)), allow_slash).0,
        '_',
    )
}

proof fn lemma_scan_shape(s: Seq<char>, allow_slash: bool)
    ensures
        sanitize_scan(s, allow_slash).0.len() <= 200,
        forall|i: int|
            0 <= i < sanitize_scan(s, allow_slash).0.len() ==> tag_char_allowed(
                #[trigger] sanitize_scan(s, allow_slash).0[i],
                allow_slash,
            ),
    decreases s.len(),
{
    if s.len() > 0 {
        lemma_scan_shape(s.drop_last(), allow_slash);
    }
}

proof fn lemma_trim_end_char_prefix(s: Seq<char>, c: char)
    ensures
        trim_end_char(s, c).len() <= s.len(),
        forall|i: int| 0 <= i < trim_end_char(s, c).len() ==> trim_end_char(s, c)[i] == s[i],
        trim_end_char(s, c).len() > 0 ==> trim_end_char(s, c).last() != c,
    decreases s.len(),
{
    if s.len() > 0 && s.last() == c {
        lemma_trim_end_char_prefix(s.drop_last(), c);
        assert forall|i: int| 0 <= i < trim_end_char(s, c).len() implies trim_end_char(s, c)[i]
            == s[i] by {
            assert(s.drop_last()[i] == s[i]);
        }
    }
}

/// A tag part as Datadog accepts it: lowercase ASCII letters, digits, `_`, `-`, `.` (and
/// `/` where `allow_slash`), runs of anything else collapsed into one `_`, at most 200
/// characters, no `_` at the end.
pub fn sanitize_tag_component(value: &str, allow_slash: bool) -> (r: String)
    ensures
        r@ == sanitize_spec(value@, allow_slash),
        is_ascii_seq(value@) ==> r@ == sanitize_ascii(value@, allow_slash),
        r@.len() <= 200,
        forall|i: int| 0 <= i < r@.len() ==> tag_char_allowed(#[trigger] r@[i], allow_slash),
        r@.len() > 0 ==> r@.last() != '_',
{
    let raw = chars_of(value);
    let trimmed = trim_chars(&raw);
    proof {
        if is_ascii_seq(value@) {
            lemma_trim_keeps_ascii(value@);
        }
    }
    let lowered = to_lowercase_chars(&trimmed);
    let mut result: Vec<char> = Vec::new();
    let mut previous_was_separator = false;
    let mut i: usize = 0;
    while i < lowered.len()
        invariant
            i <= lowered@.len(),
            (result@, previous_was_separator) == sanitize_scan(
                lowered@.subrange(0, i as int),
                allow_slash,
            ),
        decreases lowered.len() - i,
    {
        let c = lowered[i];
        proof {
            let p = lowered@.subrange(0, i + 1);
            assert(p.drop_last() == lowered@.subrange(0, i as int));
            assert(p.last() == c);
        }
        if result.len() < TAG_COMPONENT_LIMIT {
            let allowed = ascii_alnum(c) || c == '_' || c == '-' || c == '.' || (allow_slash
                && c == '/');
            if allowed {
                result.push(c);
                previous_was_separator = false;
            } else if !previous_was_separator && result.len() > 0 {
                result.push('_');
                previous_was_separator = true;
            }
        }
        i += 1;
    }
    assert(lowered@.subrange(0, lowered@.len() as int) == lowered@);
    proof {
        lemma_scan_shape(lowered@, allow_slash);
        lemma_trim_end_char_prefix(result@, '_');
    }
    let out = trim_end_matches_char(&result, '_');
    assert forall|i: int| 0 <= i < out@.len() implies tag_char_allowed(#[trigger] out@[i], allow_slash) by {
        assert(out@[i] == result@[i]);
        assert(tag_char_allowed(result@[i], allow_slash));
    }
    string_of(&out)
}

/// A tag key: a tag part without `/`.
pub fn sanitize_tag_key(value: &str) -> (r: String)
    ensures
        r@ == sanitize_spec(value@, false),
        is_ascii_seq(value@) ==> r@ == sanitize_ascii(value@, false),
{
    sanitize_tag_component(value, false)
}

/// A tag value: a tag part that may hold `/`.
pub fn sanitize_tag_value(value: &str) -> (r: String)
    ensures
        r@ == sanitize_spec(value@, true),
        is_ascii_seq(value@) ==> r@ == sanitize_ascii(value@, true),
{
    sanitize_tag_component(value, true)
}

/// The tag for a label: `key:value` where the label has a `:` and its part before the
/// first `:` sanitizes to something, else `label:` and the whole label as a value.
/// The tag of an ASCII label: as `label_tag_spec`, with ASCII letters lowered.
pub open spec fn label_tag_ascii(label: Seq<char>) -> Seq<char> {
    match split_once_seq(label, ':') {
        Some((key, value)) => if sanitize_ascii(key, false).len() > 0 {
            sanitize_ascii(key, false) + seq![':'] + sanitize_ascii(value, true)
        } else {
            "label:"@ + sanitize_ascii(label, true)
        },
        None => "label:"@ + sanitize_ascii(label, true),
    }
}

pub open spec fn label_tag_spec(label: Seq<char>) -> Seq<char> {
    match split_once_seq(label, ':') {
        Some((key, value)) => if sanitize_spec(key, false).len() > 0 {
            sanitize_spec(key, false) + seq![':'] + sanitize_spec(value, true)
        } else {
            "label:"@ + sanitize_spec(label, true)
        },
        None => "label:"@ + sanitize_spec(label, true),
    }
}

/// The Datadog tag that stands for a GitHub label.
pub fn label_to_tag(label: &str) -> (r: String)
    ensures
        r@ == label_tag_spec(label@),
        is_ascii_seq(label@) ==> r@ == label_tag_ascii(label@),
{
    let chars = chars_of(label);
    if let Some((key, value)) = split_once_chars(&chars, ':') {
        proof {
            if is_ascii_seq(label@) {
                assert(chars@ == label@);
                assert(split_once_seq(label@, ':') is Some);
                crate::text::lemma_first_index_in_range(label@, ':');
                let i = first_index_of(label@, ':')->0;
                assert(0 <= i < label@.len());
                assert(key@ == label@.subrange(0, i));
                assert(value@ == label@.subrange(i + 1, label@.len() as int));
                assert forall|k: int| 0 <= k < key@.len() implies (key@[k] as u32) < 128 by {
                    assert(key@[k] == label@[k]);
                }
                assert forall|k: int| 0 <= k < value@.len() implies (value@[k] as u32) < 128 by {
                    assert(value@[k] == label@[k + i + 1]);
                }
            }
        }
        let key_text = string_of(&key);
        let value_text = string_of(&value);
        let k = sanitize_tag_key(key_text.as_str());
        let kc = chars_of(k.as_str());
        if kc.len() > 0 {
            let v = sanitize_tag_value(value_text.as_str());
            let mut out = kc;
            out.push(':');
            push_str(&mut out, v.as_str());
            return string_of(&out);
        }
    }
    let mut out = chars_of("label:");
    let v = sanitize_tag_value(label);
    push_str(&mut out, v.as_str());
    string_of(&out)
}

/// Whole days from `created` to `now`, none if `created` is later or was not read.
pub open spec fn age_days_spec(created: Option<i64>, now: i64) -> int {
    match created {
        Some(t) => if now - t > 0 {
            (now - t) / 86400
        } else {
            0
        },
        None => 0,
    }
}

/// The age tag of an item created at `created` (seconds since the epoch, if it was read),
/// seen at `now`.
pub open spec fn age_bucket_spec(created: Option<i64>, now: i64) -> Seq<char> {
    let days = age_days_spec(created, now);
    if days <= 6 {
        "age:0_7d"@
    } else if days <= 29 {
        "age:7_30d"@
    } else if days <= 89 {
        "age:30_90d"@
    } else {
        "age:90d_plus"@
    }
}

/// An item created at `t` and seen at `now` is tagged `age:0_7d` when it is less than
/// seven days old (or from the future), `age:7_30d` from seven days to less than 30,
/// `age:30_90d` from 30 days to less than 90, and `age:90d_plus` from 90 days on; an item
/// whose creation time was not read counts as new.
pub proof fn lemma_age_buckets(t: i64, now: i64)
    ensures
        age_bucket_spec(Some(t), now) == "age:0_7d"@ <==> now - t < 7 * 86400,
        age_bucket_spec(Some(t), now) == "age:7_30d"@ <==> 7 * 86400 <= now - t < 30 * 86400,
        age_bucket_spec(Some(t), now) == "age:30_90d"@ <==> 30 * 86400 <= now - t < 90 * 86400,
        age_bucket_spec(Some(t), now) == "age:90d_plus"@ <==> 90 * 86400 <= now - t,
        age_bucket_spec(None, now) == "age:0_7d"@,
{
    reveal_strlit("age:0_7d");
    reveal_strlit("age:7_30d");
    reveal_strlit("age:30_90d");
    reveal_strlit("age:90d_plus");
    let d = now - t;
    assert("age:0_7d"@.len() == 8 && "age:7_30d"@.len() == 9 && "age:30_90d"@.len() == 10
        && "age:90d_plus"@.len() == 12);
    if d > 0 {
        assert(d / 86400 <= 6 <==> d < 7 * 86400);
        assert(d / 86400 <= 29 <==> d < 30 * 86400);
        assert(d / 86400 <= 89 <==> d < 90 * 86400);
    }
}

/// The age tag for an item created at `created`, seen at `now`: under a week, under 30
/// days, under 90 days, or older. An unread date counts as new.
pub fn age_bucket_from(created: Option<i64>, now: i64) -> (r: String)
    ensures
        r@ == age_bucket_spec(created, now),
{
    let days: i128 = match created {
        Some(t) => {
            let d: i128 = (now as i128) - (t as i128);
            if d > 0 {
                d / 86400
            } else {
                0
            }
        },
        None => 0,
    };
    if days <= 6 {
        String::from_str("age:0_7d")
    } else if days <= 29 {
        String::from_str("age:7_30d")
    } else if days <= 89 {
        String::from_str("age:30_90d")
    } else {
        String::from_str("age:90d_plus")
    }
}

/// The age tag for an item whose RFC 3339 creation time is `created_at`, seen at `now`.
pub fn age_bucket(created_at: &str, now: i64) -> (r: String)
    ensures
        r@ == age_bucket_spec(rfc3339_seconds(created_at@), now),
{
    age_bucket_from(parse_rfc3339_seconds(created_at), now)
}

/// Why a Datadog setting was refused.
#[derive(Clone, Copy, PartialEq, Eq, Debug)]
pub enum MetricsError {
    /// The metric prefix holds something but letters, digits, `_` and `.`.
    InvalidPrefix,
    /// The Datadog site is not a bare host name.
    InvalidSite,
}

impl MetricsError {
    /// The message the command line shows for this error.
    pub open spec fn message_spec(&self) -> Seq<char> {
        match self {
            MetricsError::InvalidPrefix => "metric prefix must contain only letters, numbers, underscores, and dots"@,
            MetricsError::InvalidSite => "DD_SITE must be a hostname such as datadoghq.com or datadoghq.eu"@,
        }
    }

    /// The message the command line shows for this error.
    pub fn message(&self) -> (r: String)
        ensures
            r@ == self.message_spec(),
    {
        match self {
            MetricsError::InvalidPrefix => String::from_str(
                "metric prefix must contain only letters, numbers, underscores, and dots",
            ),
            MetricsError::InvalidSite => String::from_str(
                "DD_SITE must be a hostname such as datadoghq.com or datadoghq.eu",
            ),
        }
    }
}

pub open spec fn prefix_char_ok(c: char) -> bool {
    is_ascii_alnum(c) || c == '_' || c == '.'
}

/// A metric prefix is accepted when it is not empty and holds only ASCII letters, digits,
/// `_` and `.`.
pub fn validate_metric_prefix(prefix: &str) -> (r: Result<(), MetricsError>)
    ensures
        r is Ok <==> (prefix@.len() > 0 && forall|i: int|
            0 <= i < prefix@.len() ==> prefix_char_ok(#[trigger] prefix@[i])),
        r matches Err(e) ==> e == MetricsError::InvalidPrefix,
{
    let chars = chars_of(prefix);
    if chars.len() == 0 {
        return Err(MetricsError::InvalidPrefix);
    }
    let mut i: usize = 0;
    while i < chars.len()
        invariant
            i <= chars@.len(),
            chars@ == prefix@,
            forall|k: int| 0 <= k < i ==> prefix_char_ok(#[trigger] chars@[k]),
        decreases chars.len() - i,
    {
        let c = chars[i];
        if !(ascii_alnum(c) || c == '_' || c == '.') {
            return Err(MetricsError::InvalidPrefix);
        }
        i += 1;
    }
    Ok(())
}

pub open spec fn site_char_ok(c: char) -> bool {
    is_ascii_alnum(c) || c == '.' || c == '-'
}

/// The host of a Datadog site setting: trimmed, without trailing `/`.
pub open spec fn site_host(site: Seq<char>) -> Seq<char> {
    trim_end_char(trim(site), '/')
}

/// Whether a site host is accepted: not empty, no `://`, no `/`, only ASCII letters,
/// digits, `.` and `-`.
pub open spec fn site_host_ok(h: Seq<char>) -> bool {
    h.len() > 0 && !contains_seq(h, "://"@) && !contains_seq(h, seq!['/']) && forall|i: int|
        0 <= i < h.len() ==> site_char_ok(#[trigger] h[i])
}

/// The Datadog series endpoint of a site such as `datadoghq.eu`.
pub fn datadog_api_url(site: &str) -> (r: Result<String, MetricsError>)
    ensures
        site_host_ok(site_host(site@)) ==> (r matches Ok(url) && url@ == "https://api."@
            + site_host(site@) + "/api/v2/series"@),
        !site_host_ok(site_host(site@)) ==> r == Err::<String, MetricsError>(
            MetricsError::InvalidSite,
        ),
{
    let raw = chars_of(site);
    let trimmed = trim_chars(&raw);
    let host = trim_end_matches_char(&trimmed, '/');
    let sep = chars_of("://");
    let mut slash: Vec<char> = Vec::new();
    slash.push('/');
    assert(slash@ == seq!['/']);
    assert(host@ == site_host(site@));
    if host.len() == 0 || contains_chars(&host, &sep) || contains_chars(&host, &slash) {
        assert(!site_host_ok(host@));
        return Err(MetricsError::InvalidSite);
    }
    let mut i: usize = 0;
    while i < host.len()
        invariant
            i <= host@.len(),
            host@ == site_host(site@),
            forall|k: int| 0 <= k < i ==> site_char_ok(#[trigger] host@[k]),
        decreases host.len() - i,
    {
        let c = host[i];
        if !(ascii_alnum(c) || c == '.' || c == '-') {
            assert(!site_char_ok(host@[i as int]));
            return Err(MetricsError::InvalidSite);
        }
        i += 1;
    }
    let mut out = chars_of("https://api.");
    push_all(&mut out, &host);
    push_str(&mut out, "/api/v2/series");
    Ok(string_of(&out))
}

/// One reading of a metric.
pub struct MetricPoint {
    pub timestamp: i64,
    pub value: i64,
}

/// A Datadog series: a metric name, its type, its points and its tags.
pub struct MetricSeries {
    pub metric: String,
    pub metric_type: u8,
    pub points: Vec<MetricPoint>,
    pub tags: Vec<String>,
}

/// Datadog's number for the gauge metric type.
pub const GAUGE: u8 = 3;

impl MetricSeries {
    /// A gauge with the single point `value` at `timestamp`.
    pub fn gauge(metric: String, value: i64, timestamp: i64, tags: Vec<String>) -> (s: Self)
        ensures
            s.metric == metric,
            s.metric_type == GAUGE,
            s.points@.len() == 1,
            s.points@[0].timestamp == timestamp,
            s.points@[0].value == value,
            s.tags == tags,
    {
        let mut points: Vec<MetricPoint> = Vec::new();
        points.push(MetricPoint { timestamp, value });
        MetricSeries { metric, metric_type: GAUGE, points, tags }
    }
}

/// The issue-type tag, if there is a type, then one tag per label.
pub open spec fn type_and_label_tags(issue_type: Option<String>, labels: Seq<String>) -> Seq<
    Seq<char>,
> {
    (match issue_type {
        Some(t) => seq!["issue_type:"@ + sanitize_spec(t@, true)],
        None => Seq::empty(),
    }) + texts(labels).map_values(|l: Seq<char>| label_tag_spec(l))
}

/// Appends the tag of the issue type, if any, then the tags of the labels, if any.
pub fn add_issue_type_and_labels(
    tags: &mut Vec<String>,
    issue_type: Option<&str>,
    labels: Option<&Vec<String>>,
)
    ensures
        texts(final(tags)@) == texts(old(tags)@) + (match issue_type {
            Some(t) => seq!["issue_type:"@ + sanitize_spec(t@, true)],
            None => Seq::empty(),
        }) + (match labels {
            Some(l) => texts(l@).map_values(|x: Seq<char>| label_tag_spec(x)),
            None => Seq::empty(),
        }),
{
    let ghost start = texts(tags@);
    if let Some(t) = issue_type {
        let mut v = chars_of("issue_type:");
        let value = sanitize_tag_value(t);
        push_str(&mut v, value.as_str());
        tags.push(string_of(&v));
    }
    let ghost mid = texts(tags@);
    assert(mid == start + (match issue_type {
        Some(t) => seq!["issue_type:"@ + sanitize_spec(t@, true)],
        None => Seq::<Seq<char>>::empty(),
    }));
    if let Some(l) = labels {
        let mut i: usize = 0;
        while i < l.len()
            invariant
                i <= l@.len(),
                texts(tags@) == mid + texts(l@.subrange(0, i as int)).map_values(
                    |x: Seq<char>| label_tag_spec(x),
                ),
            decreases l.len() - i,
        {
            let tag = label_to_tag(l[i].as_str());
            let ghost prev = tags@;
            tags.push(tag);
            assert(texts(tags@) == texts(prev).push(label_tag_spec(l@[i as int]@)));
            i += 1;
            assert(texts(l@.subrange(0, i as int)).map_values(|x: Seq<char>| label_tag_spec(x))
                == texts(l@.subrange(0, i - 1)).map_values(|x: Seq<char>| label_tag_spec(x)).push(
                label_tag_spec(l@[i - 1]@),
            ));
        }
        assert(l@.subrange(0, l@.len() as int) == l@);
    } else {
        assert(texts(tags@) == mid + Seq::<Seq<char>>::empty());
    }
}

/// Whether some series has the tags `tags`, in any order.
pub open spec fn series_hold(series: Seq<MetricSeries>, tags: Seq<Seq<char>>) -> bool {
    exists|i: int|
        0 <= i < series.len() && (#[trigger] texts(series[i].tags@)).to_multiset()
            == tags.to_multiset()
}

/// What a series counting `rows` under the metric `name` holds: one point at `now`, tags
/// in ascending order, and as value the number of `rows` that hold exactly these tags.
pub open spec fn series_counts(
    s: MetricSeries,
    name: Seq<char>,
    rows: Seq<Seq<Seq<char>>>,
    now: i64,
) -> bool {
    &&& s.metric@ == name
    &&& s.metric_type == GAUGE
    &&& s.points@.len() == 1
    &&& s.points@[0].timestamp == now
    &&& s.points@[0].value == count_same_texts(rows, texts(s.tags@))
    &&& s.points@[0].value > 0
    &&& texts_sorted(texts(s.tags@))
}

/// What a gauge list over `rows` holds: every series counts `rows` as `series_counts`
/// says, every row is counted by one series, and no two series have the same tags.
pub open spec fn counts_rows(
    series: Seq<MetricSeries>,
    name: Seq<char>,
    rows: Seq<Seq<Seq<char>>>,
    now: i64,
) -> bool {
    &&& forall|i: int| 0 <= i < series.len() ==> series_counts(#[trigger] series[i], name, rows, now)
    &&& forall|k: int| 0 <= k < rows.len() ==> series_hold(series, #[trigger] rows[k])
    &&& forall|i: int, j: int|
        0 <= i < j < series.len() ==> texts(series[i].tags@) != texts(series[j].tags@)
}

/// The values of the series, added up.
pub open spec fn values_total(series: Seq<MetricSeries>) -> int
    decreases series.len(),
{
    if series.len() == 0 {
        0
    } else {
        values_total(series.drop_last()) + series.last().points@[0].value
    }
}

/// How many of the tag lists `ts` hold the same tags as `r`.
pub open spec fn match_count(r: Seq<Seq<char>>, ts: Seq<Seq<Seq<char>>>) -> int
    decreases ts.len(),
{
    if ts.len() == 0 {
        0
    } else {
        match_count(r, ts.drop_last()) + if ts.last().to_multiset() == r.to_multiset() {
            1int
        } else {
            0int
        }
    }
}

/// For each tag list of `ts`, how many of `rows` hold the same tags, added up.
pub open spec fn same_total(rows: Seq<Seq<Seq<char>>>, ts: Seq<Seq<Seq<char>>>) -> int
    decreases ts.len(),
{
    if ts.len() == 0 {
        0
    } else {
        same_total(rows, ts.drop_last()) + count_same_texts(rows, ts.last())
    }
}

proof fn lemma_same_total_push(rows: Seq<Seq<Seq<char>>>, r: Seq<Seq<char>>, ts: Seq<Seq<Seq<char>>>)
    ensures
        same_total(rows.push(r), ts) == same_total(rows, ts) + match_count(r, ts),
    decreases ts.len(),
{
    if ts.len() > 0 {
        lemma_same_total_push(rows, r, ts.drop_last());
        assert(rows.push(r).drop_last() == rows);
    }
}

proof fn lemma_match_once(r: Seq<Seq<char>>, ts: Seq<Seq<Seq<char>>>, i: int)
    requires
        0 <= i < ts.len(),
        ts[i].to_multiset() == r.to_multiset(),
        forall|a: int, b: int|
            0 <= a < b < ts.len() ==> (#[trigger] ts[a]).to_multiset() != (#[trigger] ts[b]).to_multiset(),
    ensures
        match_count(r, ts) == 1,
    decreases ts.len(),
{
    let init = ts.drop_last();
    if i < ts.len() - 1 {
        assert(init[i] == ts[i]);
        lemma_match_once(r, init, i);
        assert(ts[ts.len() - 1] == ts.last());
    } else {
        lemma_match_none(r, init);
    }
}

proof fn lemma_match_none(r: Seq<Seq<char>>, ts: Seq<Seq<Seq<char>>>)
    requires
        forall|a: int| 0 <= a < ts.len() ==> (#[trigger] ts[a]).to_multiset() != r.to_multiset(),
    ensures
        match_count(r, ts) == 0,
    decreases ts.len(),
{
    if ts.len() > 0 {
        lemma_match_none(r, ts.drop_last());
        assert(ts[ts.len() - 1] == ts.last());
    }
}

/// Whether one of the tag lists `ts` holds the same tags as `r`.
pub open spec fn matched(ts: Seq<Seq<Seq<char>>>, r: Seq<Seq<char>>) -> bool {
    exists|i: int| 0 <= i < ts.len() && (#[trigger] ts[i]).to_multiset() == r.to_multiset()
}

proof fn lemma_rows_counted_once(rows: Seq<Seq<Seq<char>>>, ts: Seq<Seq<Seq<char>>>)
    requires
        forall|a: int, b: int|
            0 <= a < b < ts.len() ==> (#[trigger] ts[a]).to_multiset() != (#[trigger] ts[b]).to_multiset(),
        forall|k: int| 0 <= k < rows.len() ==> #[trigger] matched(ts, rows[k]),
    ensures
        same_total(rows, ts) == rows.len(),
    decreases rows.len(),
{
    if rows.len() == 0 {
        lemma_same_total_empty(ts);
        assert(rows =~= Seq::<Seq<Seq<char>>>::empty());
    } else {
        let init = rows.drop_last();
        assert forall|k: int| 0 <= k < init.len() implies #[trigger] matched(ts, init[k]) by {
            assert(rows[k] == init[k]);
            assert(matched(ts, rows[k]));
        }
        lemma_rows_counted_once(init, ts);
        let r = rows.last();
        assert(rows[rows.len() - 1] == r);
        assert(matched(ts, rows[rows.len() - 1]));
        let i = choose|i: int| 0 <= i < ts.len() && (#[trigger] ts[i]).to_multiset() == r.to_multiset();
        lemma_match_once(r, ts, i);
        lemma_same_total_push(init, r, ts);
        assert(init.push(r) =~= rows);
        assert(same_total(rows, ts) == same_total(init, ts) + match_count(r, ts));
    }
}

proof fn lemma_same_total_empty(ts: Seq<Seq<Seq<char>>>)
    ensures
        same_total(Seq::empty(), ts) == 0,
    decreases ts.len(),
{
    if ts.len() > 0 {
        lemma_same_total_empty(ts.drop_last());
    }
}

proof fn lemma_values_are_counts(series: Seq<MetricSeries>, name: Seq<char>, rows: Seq<Seq<Seq<char>>>, now: i64)
    requires
        forall|i: int| 0 <= i < series.len() ==> series_counts(#[trigger] series[i], name, rows, now),
    ensures
        values_total(series) == same_total(
            rows,
            series.map_values(|s: MetricSeries| texts(s.tags@)),
        ),
    decreases series.len(),
{
    if series.len() > 0 {
        let init = series.drop_last();
        assert forall|i: int| 0 <= i < init.len() implies series_counts(#[trigger] init[i], name, rows, now) by {
            assert(series[i] == init[i]);
        }
        lemma_values_are_counts(init, name, rows, now);
        assert(series.map_values(|s: MetricSeries| texts(s.tags@)).drop_last() == init.map_values(
            |s: MetricSeries| texts(s.tags@),
        ));
        assert(series_counts(series[series.len() - 1], name, rows, now));
    }
}

/// The series of a gauge add up to the number of rows it counts: each row is counted by
/// exactly one series, so a dashboard that sums a metric's series gets the total.
pub proof fn lemma_gauge_values_sum_to_rows(
    series: Seq<MetricSeries>,
    name: Seq<char>,
    rows: Seq<Seq<Seq<char>>>,
    now: i64,
)
    requires
        counts_rows(series, name, rows, now),
    ensures
        values_total(series) == rows.len(),
{
    let ts = series.map_values(|s: MetricSeries| texts(s.tags@));
    lemma_values_are_counts(series, name, rows, now);
    assert forall|a: int, b: int| 0 <= a < b < ts.len() implies (#[trigger] ts[a]).to_multiset()
        != (#[trigger] ts[b]).to_multiset() by {
        assert(series_counts(series[a], name, rows, now));
        assert(series_counts(series[b], name, rows, now));
        if ts[a].to_multiset() == ts[b].to_multiset() {
            crate::sorting::lemma_sorted_texts_unique(ts[a], ts[b]);
        }
    }
    assert forall|k: int| 0 <= k < rows.len() implies #[trigger] matched(ts, rows[k]) by {
        assert(series_hold(series, rows[k]));
        let i = choose|i: int|
            0 <= i < series.len() && (#[trigger] texts(series[i].tags@)).to_multiset()
                == rows[k].to_multiset();
        assert(ts[i] == texts(series[i].tags@));
    }
    lemma_rows_counted_once(rows, ts);
}

/// The gauges `name` that count the tag lists `rows`: one series per distinct set of tags.
pub fn gauges_for_rows(name: &String, rows: Vec<Vec<String>>, now: i64) -> (out: Vec<
    MetricSeries,
>)
    requires
        rows@.len() <= i64::MAX,
    ensures
        counts_rows(out@, name@, rows_texts(rows@), now),
{
    let mut sorted: Vec<Vec<String>> = Vec::new();
    let mut k: usize = 0;
    while k < rows.len()
        invariant
            k <= rows@.len(),
            sorted@.len() == k,
            forall|m: int|
                0 <= m < k ==> texts_sorted(#[trigger] texts(sorted@[m]@)) && texts(
                    sorted@[m]@,
                ).to_multiset() == texts(rows@[m]@).to_multiset(),
        decreases rows.len() - k,
    {
        let row = rows[k].clone();
        proof {
            assert(texts(row@) == texts(rows@[k as int]@)) by {
                assert(row@ =~= rows@[k as int]@);
            }
        }
        sorted.push(sort_strings(row));
        k += 1;
    }
    let groups = group_counts(&sorted);
    let ghost rt = rows_texts(rows@);
    let ghost st = rows_texts(sorted@);
    proof {
        assert forall|m: int|
            0 <= m < rt.len() implies texts_sorted(#[trigger] st[m]) && st[m].to_multiset()
            == rt[m].to_multiset() by {
            assert(st[m] == texts(sorted@[m]@));
        }
    }
    let mut out: Vec<MetricSeries> = Vec::new();
    let mut g: usize = 0;
    while g < groups.len()
        invariant
            g <= groups@.len(),
            out@.len() == g,
            rt == rows_texts(rows@),
            st == rows_texts(sorted@),
            rt.len() == st.len(),
            forall|m: int|
                0 <= m < rt.len() ==> texts_sorted(#[trigger] st[m]) && st[m].to_multiset()
                    == rt[m].to_multiset(),
            forall|i: int|
                0 <= i < groups@.len() ==> #[trigger] groups@[i].count == count_in(
                    st,
                    texts(groups@[i].tags@),
                ) && groups@[i].count > 0,
            forall|i: int|
                0 <= i < g ==> {
                    let s = #[trigger] out@[i];
                    &&& s.metric@ == name@
                    &&& s.metric_type == GAUGE
                    &&& s.points@.len() == 1
                    &&& s.points@[0].timestamp == now
                    &&& s.points@[0].value == count_same_texts(rt, texts(s.tags@))
                    &&& s.points@[0].value > 0
                    &&& texts_sorted(texts(s.tags@))
                    &&& texts(s.tags@) == texts(groups@[i].tags@)
                },
        decreases groups.len() - g,
    {
        let tags = groups[g].tags.clone();
        proof {
            assert(texts(tags@) == texts(groups@[g as int].tags@)) by {
                assert(tags@ =~= groups@[g as int].tags@);
            }
            let t = texts(tags@);
            // the group's tags are one of the sorted rows
            let c = groups@[g as int].count;
            assert(count_in(st, t) > 0);
            lemma_count_positive_member(st, t);
            let m = choose|m: int| 0 <= m < st.len() && st[m] == t;
            assert(texts_sorted(st[m]));
            lemma_count_sorted_rows(rt, st, t);
        }
        let series = MetricSeries::gauge(name.clone(), groups[g].count, now, tags);
        out.push(series);
        g += 1;
    }
    proof {
        assert forall|k: int| 0 <= k < rt.len() implies series_hold(out@, #[trigger] rt[k]) by {
            assert(covers(groups@, texts(sorted@[k]@)));
            let i = choose|i: int|
                0 <= i < groups@.len() && #[trigger] texts(groups@[i].tags@) == texts(
                    sorted@[k]@,
                );
            assert(st[k] == texts(sorted@[k]@));
            assert(texts(out@[i].tags@) == st[k]);
            assert(texts_sorted(st[k]));
            assert(texts(out@[i].tags@).to_multiset() == rt[k].to_multiset());
        }
        assert forall|i: int, j: int| 0 <= i < j < out@.len() implies texts(out@[i].tags@)
            != texts(out@[j].tags@) by {
            assert(texts(out@[i].tags@) == texts(groups@[i].tags@));
            assert(texts(out@[j].tags@) == texts(groups@[j].tags@));
        }
        assert(g == groups@.len());
        assert forall|i: int|
            0 <= i < out@.len() implies series_counts(#[trigger] out@[i], name@, rt, now) by {
            assert(i < g);
        }
        assert(counts_rows(out@, name@, rt, now));
    }
    out
}

proof fn lemma_count_positive_member(rows: Seq<Seq<Seq<char>>>, t: Seq<Seq<char>>)
    requires
        count_in(rows, t) > 0,
    ensures
        exists|m: int| 0 <= m < rows.len() && rows[m] == t,
    decreases rows.len(),
{
    if rows.last() != t {
        lemma_count_positive_member(rows.drop_last(), t);
        let m = choose|m: int| 0 <= m < rows.drop_last().len() && rows.drop_last()[m] == t;
        assert(rows[m] == t);
    } else {
        assert(rows[rows.len() - 1] == t);
    }
}

/// The tags that every series of a repository carries.
pub open spec fn base_tags_spec(org: Seq<char>, repo: Seq<char>) -> Seq<Seq<char>> {
    seq![
        "repo:"@ + sanitize_spec(org + seq!['/'] + repo, true),
        "owner:"@ + sanitize_spec(org, true),
        "repository:"@ + sanitize_spec(repo, true),
    ]
}

fn prefixed(prefix: &str, value: &str) -> (r: String)
    ensures
        r@ == prefix@ + value@,
{
    let mut v = chars_of(prefix);
    push_str(&mut v, value);
    string_of(&v)
}

/// `repo:owner/name`, `owner:owner` and `repository:name`, each value sanitized.
pub fn base_tags(org: &str, repo: &str) -> (r: Vec<String>)
    ensures
        texts(r@) == base_tags_spec(org@, repo@),
{
    let mut full = chars_of(org);
    full.push('/');
    push_str(&mut full, repo);
    let full_text = string_of(&full);
    let mut r: Vec<String> = Vec::new();
    let a = sanitize_tag_value(full_text.as_str());
    r.push(prefixed("repo:", a.as_str()));
    let b = sanitize_tag_value(org);
    r.push(prefixed("owner:", b.as_str()));
    let c = sanitize_tag_value(repo);
    r.push(prefixed("repository:", c.as_str()));
    assert(full_text@ == org@ + seq!['/'] + repo@);
    assert(texts(r@) =~= base_tags_spec(org@, repo@));
    r
}

/// An open issue or pull request as the gauges see it.
pub struct OpenItem {
    pub created_at: String,
    pub issue_type: Option<String>,
    pub labels: Vec<String>,
}

/// An issue or pull request closed within the activity window.
pub struct ClosedItem {
    pub issue_type: Option<String>,
    pub labels: Vec<String>,
}

/// An open discussion.
pub struct OpenDiscussion {
    pub category: String,
    pub answered: bool,
    pub created_at: String,
}

/// A discussion closed within the activity window.
pub struct ClosedDiscussion {
    pub category: String,
    pub answered: bool,
}

pub open spec fn answered_tag(answered: bool) -> Seq<char> {
    if answered {
        "answered:true"@
    } else {
        "answered:false"@
    }
}

pub open spec fn window_tag(lookback: Seq<char>) -> Seq<char> {
    "window:"@ + sanitize_spec(lookback, true)
}

/// The tags of an open item, before sorting.
pub open spec fn open_item_tags(base: Seq<Seq<char>>, row: OpenItem, now: i64) -> Seq<
    Seq<char>,
> {
    base + seq!["state:open"@, age_bucket_spec(rfc3339_seconds(row.created_at@), now)]
        + type_and_label_tags(row.issue_type, row.labels@)
}

/// The tags of a closed item, before sorting.
pub open spec fn closed_item_tags(base: Seq<Seq<char>>, row: ClosedItem, lookback: Seq<char>) -> Seq<
    Seq<char>,
> {
    base + seq!["state:closed"@, window_tag(lookback)] + type_and_label_tags(
        row.issue_type,
        row.labels@,
    )
}

/// The tags of an open discussion, before sorting.
pub open spec fn open_discussion_tags(base: Seq<Seq<char>>, row: OpenDiscussion, now: i64) -> Seq<
    Seq<char>,
> {
    base + seq![
        "category:"@ + sanitize_spec(row.category@, true),
        "state:open"@,
        answered_tag(row.answered),
        age_bucket_spec(rfc3339_seconds(row.created_at@), now),
    ]
}

/// The tags of a closed discussion, before sorting.
pub open spec fn closed_discussion_tags(
    base: Seq<Seq<char>>,
    row: ClosedDiscussion,
    lookback: Seq<char>,
) -> Seq<Seq<char>> {
    base + seq![
        "category:"@ + sanitize_spec(row.category@, true),
        "state:closed"@,
        answered_tag(row.answered),
        window_tag(lookback),
    ]
}

fn answered_text(answered: bool) -> (r: String)
    ensures
        r@ == answered_tag(answered),
{
    if answered {
        String::from_str("answered:true")
    } else {
        String::from_str("answered:false")
    }
}

/// A tag whose first two characters are not `an` is no answered tag.
proof fn lemma_not_answered_tag(t: Seq<char>)
    requires
        t.len() >= 2,
        t[0] != 'a' || t[1] != 'n',
    ensures
        t != "answered:true"@,
        t != "answered:false"@,
{
    reveal_strlit("answered:true");
    reveal_strlit("answered:false");
    if t == "answered:true"@ {
        assert(t[0] == 'a' && t[1] == 'n');
    }
    if t == "answered:false"@ {
        assert(t[0] == 'a' && t[1] == 'n');
    }
}

/// The first two characters of `p + v`, for a prefix `p` of at least two characters.
proof fn lemma_prefix_start(p: Seq<char>, v: Seq<char>)
    requires
        p.len() >= 2,
    ensures
        (p + v).len() >= 2,
        (p + v)[0] == p[0],
        (p + v)[1] == p[1],
{
}

/// The repository tags and an age or window tag are no answered tags.
proof fn lemma_other_tags_not_answered(org: Seq<char>, repo: Seq<char>, category: Seq<char>, created: Option<i64>, now: i64, lookback: Seq<char>)
    ensures
        forall|i: int| 0 <= i < 3 ==> #[trigger] base_tags_spec(org, repo)[i] != "answered:true"@
            && base_tags_spec(org, repo)[i] != "answered:false"@,
        "category:"@ + sanitize_spec(category, true) != "answered:true"@,
        "category:"@ + sanitize_spec(category, true) != "answered:false"@,
        "state:open"@ != "answered:true"@,
        "state:open"@ != "answered:false"@,
        "state:closed"@ != "answered:true"@,
        "state:closed"@ != "answered:false"@,
        age_bucket_spec(created, now) != "answered:true"@,
        age_bucket_spec(created, now) != "answered:false"@,
        window_tag(lookback) != "answered:true"@,
        window_tag(lookback) != "answered:false"@,
{
    reveal_strlit("repo:");
    reveal_strlit("owner:");
    reveal_strlit("repository:");
    reveal_strlit("category:");
    reveal_strlit("state:open");
    reveal_strlit("state:closed");
    reveal_strlit("window:");
    reveal_strlit("age:0_7d");
    reveal_strlit("age:7_30d");
    reveal_strlit("age:30_90d");
    reveal_strlit("age:90d_plus");
    let b = base_tags_spec(org, repo);
    lemma_prefix_start("repo:"@, sanitize_spec(org + seq!['/'] + repo, true));
    lemma_prefix_start("owner:"@, sanitize_spec(org, true));
    lemma_prefix_start("repository:"@, sanitize_spec(repo, true));
    lemma_not_answered_tag(b[0]);
    lemma_not_answered_tag(b[1]);
    lemma_not_answered_tag(b[2]);
    lemma_prefix_start("category:"@, sanitize_spec(category, true));
    lemma_not_answered_tag("category:"@ + sanitize_spec(category, true));
    lemma_not_answered_tag("state:open"@);
    lemma_not_answered_tag("state:closed"@);
    lemma_not_answered_tag(age_bucket_spec(created, now));
    lemma_prefix_start("window:"@, sanitize_spec(lookback, true));
    lemma_not_answered_tag(window_tag(lookback));
}

/// The series of a discussion, open or closed in the window, carries the tag
/// `answered:true` exactly when the discussion is answered, and `answered:false` exactly
/// when it is not.
pub proof fn lemma_answered_tag_matches(
    org: Seq<char>,
    repo: Seq<char>,
    open: OpenDiscussion,
    closed: ClosedDiscussion,
    now: i64,
    lookback: Seq<char>,
)
    ensures
        open_discussion_tags(base_tags_spec(org, repo), open, now).contains("answered:true"@)
            <==> open.answered,
        open_discussion_tags(base_tags_spec(org, repo), open, now).contains("answered:false"@)
            <==> !open.answered,
        closed_discussion_tags(base_tags_spec(org, repo), closed, lookback).contains(
            "answered:true"@,
        ) <==> closed.answered,
        closed_discussion_tags(base_tags_spec(org, repo), closed, lookback).contains(
            "answered:false"@,
        ) <==> !closed.answered,
{
    reveal_strlit("answered:true");
    reveal_strlit("answered:false");
    let b = base_tags_spec(org, repo);
    let created = rfc3339_seconds(open.created_at@);
    lemma_other_tags_not_answered(org, repo, open.category@, created, now, lookback);
    lemma_other_tags_not_answered(org, repo, closed.category@, created, now, lookback);
    assert("answered:true"@ != "answered:false"@) by {
        assert("answered:true"@.len() != "answered:false"@.len());
    }
    let so = open_discussion_tags(b, open, now);
    let sc = closed_discussion_tags(b, closed, lookback);
    assert(so.len() == 7 && sc.len() == 7);
    assert(so[5] == answered_tag(open.answered));
    assert(sc[5] == answered_tag(closed.answered));
    assert forall|i: int| 0 <= i < 7 && i != 5 implies so[i] != "answered:true"@ && so[i]
        != "answered:false"@ by {
        if i < 3 {
            assert(so[i] == b[i]);
        }
    }
    assert forall|i: int| 0 <= i < 7 && i != 5 implies sc[i] != "answered:true"@ && sc[i]
        != "answered:false"@ by {
        if i < 3 {
            assert(sc[i] == b[i]);
        }
    }
}

/// The series of an open issue or pull request carries its age tag, and that of one
/// closed in the window the tag `window:<lookback>`; both carry `issue_type:<type>` where
/// the item has a type, and the tag of each of its labels. A discussion's series carries
/// `category:<category>` and, open, its age tag or, closed, the window tag.
pub proof fn lemma_dimension_tags(
    base: Seq<Seq<char>>,
    open_item: OpenItem,
    closed_item: ClosedItem,
    open: OpenDiscussion,
    closed: ClosedDiscussion,
    now: i64,
    lookback: Seq<char>,
)
    ensures
        open_item_tags(base, open_item, now).contains(
            age_bucket_spec(rfc3339_seconds(open_item.created_at@), now),
        ),
        closed_item_tags(base, closed_item, lookback).contains(
            "window:"@ + sanitize_spec(lookback, true),
        ),
        open_item.issue_type matches Some(t) ==> open_item_tags(base, open_item, now).contains(
            "issue_type:"@ + sanitize_spec(t@, true),
        ),
        closed_item.issue_type matches Some(t) ==> closed_item_tags(
            base,
            closed_item,
            lookback,
        ).contains("issue_type:"@ + sanitize_spec(t@, true)),
        forall|k: int|
            0 <= k < open_item.labels@.len() ==> open_item_tags(base, open_item, now).contains(
                label_tag_spec(#[trigger] open_item.labels@[k]@),
            ),
        forall|k: int|
            0 <= k < closed_item.labels@.len() ==> closed_item_tags(
                base,
                closed_item,
                lookback,
            ).contains(label_tag_spec(#[trigger] closed_item.labels@[k]@)),
        open_discussion_tags(base, open, now).contains("category:"@ + sanitize_spec(open.category@, true)),
        open_discussion_tags(base, open, now).contains(
            age_bucket_spec(rfc3339_seconds(open.created_at@), now),
        ),
        closed_discussion_tags(base, closed, lookback).contains(
            "category:"@ + sanitize_spec(closed.category@, true),
        ),
        closed_discussion_tags(base, closed, lookback).contains(
            "window:"@ + sanitize_spec(lookback, true),
        ),
{
    let n: int = base.len() as int;
    let oi = open_item_tags(base, open_item, now);
    let ci = closed_item_tags(base, closed_item, lookback);
    assert(oi[n + 1] == age_bucket_spec(rfc3339_seconds(open_item.created_at@), now));
    assert(ci[n + 1] == window_tag(lookback));
    let ot = type_and_label_tags(open_item.issue_type, open_item.labels@);
    let ct = type_and_label_tags(closed_item.issue_type, closed_item.labels@);
    assert(oi == base + seq!["state:open"@, age_bucket_spec(rfc3339_seconds(open_item.created_at@), now)] + ot);
    assert(ci == base + seq!["state:closed"@, window_tag(lookback)] + ct);
    if let Some(t) = open_item.issue_type {
        assert(oi[n + 2] == ot[0]);
    }
    if let Some(t) = closed_item.issue_type {
        assert(ci[n + 2] == ct[0]);
    }
    let oh: int = if open_item.issue_type is Some { 1 } else { 0 };
    let ch: int = if closed_item.issue_type is Some { 1 } else { 0 };
    assert forall|k: int| 0 <= k < open_item.labels@.len() implies oi.contains(
        label_tag_spec(#[trigger] open_item.labels@[k]@),
    ) by {
        assert(texts(open_item.labels@)[k] == open_item.labels@[k]@);
        assert(ot[oh + k] == label_tag_spec(open_item.labels@[k]@));
        assert(oi[n + 2 + oh + k] == ot[oh + k]);
    }
    assert forall|k: int| 0 <= k < closed_item.labels@.len() implies ci.contains(
        label_tag_spec(#[trigger] closed_item.labels@[k]@),
    ) by {
        assert(texts(closed_item.labels@)[k] == closed_item.labels@[k]@);
        assert(ct[ch + k] == label_tag_spec(closed_item.labels@[k]@));
        assert(ci[n + 2 + ch + k] == ct[ch + k]);
    }
    let so = open_discussion_tags(base, open, now);
    let sc = closed_discussion_tags(base, closed, lookback);
    assert(so[n] == "category:"@ + sanitize_spec(open.category@, true));
    assert(so[n + 3] == age_bucket_spec(rfc3339_seconds(open.created_at@), now));
    assert(sc[n] == "category:"@ + sanitize_spec(closed.category@, true));
    assert(sc[n + 3] == window_tag(lookback));
}

/// A tag that does not start with `s` is no state tag.
proof fn lemma_not_state_tag(t: Seq<char>)
    requires
        t.len() >= 1,
        t[0] != 's',
    ensures
        t != "state:open"@,
        t != "state:closed"@,
{
    reveal_strlit("state:open");
    reveal_strlit("state:closed");
    if t == "state:open"@ || t == "state:closed"@ {
        assert(t[0] == 's');
    }
}

/// The series of an open issue or pull request carries `state:open`, and that of one
/// closed in the window `state:closed`. The series of a discussion carries its own state
/// tag and not the other one.
pub proof fn lemma_state_tags(
    org: Seq<char>,
    repo: Seq<char>,
    open_item: OpenItem,
    closed_item: ClosedItem,
    open: OpenDiscussion,
    closed: ClosedDiscussion,
    now: i64,
    lookback: Seq<char>,
)
    ensures
        open_item_tags(base_tags_spec(org, repo), open_item, now).contains("state:open"@),
        closed_item_tags(base_tags_spec(org, repo), closed_item, lookback).contains(
            "state:closed"@,
        ),
        open_discussion_tags(base_tags_spec(org, repo), open, now).contains("state:open"@),
        !open_discussion_tags(base_tags_spec(org, repo), open, now).contains("state:closed"@),
        closed_discussion_tags(base_tags_spec(org, repo), closed, lookback).contains(
            "state:closed"@,
        ),
        !closed_discussion_tags(base_tags_spec(org, repo), closed, lookback).contains(
            "state:open"@,
        ),
{
    reveal_strlit("state:open");
    reveal_strlit("state:closed");
    reveal_strlit("repo:");
    reveal_strlit("owner:");
    reveal_strlit("repository:");
    reveal_strlit("category:");
    reveal_strlit("window:");
    reveal_strlit("answered:true");
    reveal_strlit("answered:false");
    reveal_strlit("age:0_7d");
    reveal_strlit("age:7_30d");
    reveal_strlit("age:30_90d");
    reveal_strlit("age:90d_plus");
    let b = base_tags_spec(org, repo);
    let oi = open_item_tags(b, open_item, now);
    let ci = closed_item_tags(b, closed_item, lookback);
    assert(oi[3] == "state:open"@);
    assert(ci[3] == "state:closed"@);
    lemma_prefix_start("repo:"@, sanitize_spec(org + seq!['/'] + repo, true));
    lemma_prefix_start("owner:"@, sanitize_spec(org, true));
    lemma_prefix_start("repository:"@, sanitize_spec(repo, true));
    lemma_not_state_tag(b[0]);
    lemma_not_state_tag(b[1]);
    lemma_not_state_tag(b[2]);
    let so = open_discussion_tags(b, open, now);
    let sc = closed_discussion_tags(b, closed, lookback);
    assert(so[4] == "state:open"@);
    assert(sc[4] == "state:closed"@);
    lemma_prefix_start("category:"@, sanitize_spec(open.category@, true));
    lemma_prefix_start("category:"@, sanitize_spec(closed.category@, true));
    lemma_not_state_tag(so[3]);
    lemma_not_state_tag(sc[3]);
    lemma_not_state_tag(answered_tag(open.answered));
    lemma_not_state_tag(answered_tag(closed.answered));
    lemma_not_state_tag(age_bucket_spec(rfc3339_seconds(open.created_at@), now));
    lemma_prefix_start("window:"@, sanitize_spec(lookback, true));
    lemma_not_state_tag(window_tag(lookback));
    assert("state:open"@ != "state:closed"@) by {
        assert("state:open"@.len() != "state:closed"@.len());
    }
    assert forall|i: int| 0 <= i < 7 && i != 4 implies so[i] != "state:closed"@ by {
        if i < 3 {
            assert(so[i] == b[i]);
        }
    }
    assert forall|i: int| 0 <= i < 7 && i != 4 implies sc[i] != "state:open"@ by {
        if i < 3 {
            assert(sc[i] == b[i]);
        }
    }
}

fn clone_strings(v: &Vec<String>) -> (r: Vec<String>)
    ensures
        texts(r@) == texts(v@),
{
    let r = v.clone();
    assert(r@ =~= v@);
    r
}

/// The gauge `metric` over open items: one series per tag set, counting the items.
pub fn open_items_gauge(metric: &String, base: &Vec<String>, rows: &Vec<OpenItem>, now: i64) -> (out:
    Vec<MetricSeries>)
    requires
        rows@.len() <= i64::MAX,
    ensures
        counts_rows(
            out@,
            metric@,
            Seq::new(rows@.len(), |k: int| open_item_tags(texts(base@), rows@[k], now)),
            now,
        ),
{
    let mut tag_rows: Vec<Vec<String>> = Vec::new();
    let mut k: usize = 0;
    while k < rows.len()
        invariant
            k <= rows@.len(),
            tag_rows@.len() == k,
            forall|m: int|
                0 <= m < k ==> texts(#[trigger] tag_rows@[m]@) == open_item_tags(
                    texts(base@),
                    rows@[m],
                    now,
                ),
        decreases rows.len() - k,
    {
        let row = &rows[k];
        let mut tags = clone_strings(base);
        tags.push(String::from_str("state:open"));
        tags.push(age_bucket(row.created_at.as_str(), now));
        let it: Option<&str> = match &row.issue_type {
            Some(t) => Some(t.as_str()),
            None => None,
        };
        add_issue_type_and_labels(&mut tags, it, Some(&row.labels));
        proof {
            assert(texts(tags@) == open_item_tags(texts(base@), rows@[k as int], now));
        }
        tag_rows.push(tags);
        k += 1;
    }
    proof {
        assert(rows_texts(tag_rows@) == Seq::new(
            rows@.len(),
            |k: int| open_item_tags(texts(base@), rows@[k], now),
        ));
    }
    gauges_for_rows(metric, tag_rows, now)
}

/// The gauge `metric` over items closed within the window `lookback`.
pub fn closed_items_gauge(
    metric: &String,
    base: &Vec<String>,
    rows: &Vec<ClosedItem>,
    lookback: &str,
    now: i64,
) -> (out: Vec<MetricSeries>)
    requires
        rows@.len() <= i64::MAX,
    ensures
        counts_rows(
            out@,
            metric@,
            Seq::new(rows@.len(), |k: int| closed_item_tags(texts(base@), rows@[k], lookback@)),
            now,
        ),
{
    let window = prefixed("window:", sanitize_tag_value(lookback).as_str());
    let mut tag_rows: Vec<Vec<String>> = Vec::new();
    let mut k: usize = 0;
    while k < rows.len()
        invariant
            k <= rows@.len(),
            tag_rows@.len() == k,
            window@ == window_tag(lookback@),
            forall|m: int|
                0 <= m < k ==> texts(#[trigger] tag_rows@[m]@) == closed_item_tags(
                    texts(base@),
                    rows@[m],
                    lookback@,
                ),
        decreases rows.len() - k,
    {
        let row = &rows[k];
        let mut tags = clone_strings(base);
        tags.push(String::from_str("state:closed"));
        tags.push(window.clone());
        let it: Option<&str> = match &row.issue_type {
            Some(t) => Some(t.as_str()),
            None => None,
        };
        add_issue_type_and_labels(&mut tags, it, Some(&row.labels));
        proof {
            assert(texts(tags@) == closed_item_tags(texts(base@), rows@[k as int], lookback@));
        }
        tag_rows.push(tags);
        k += 1;
    }
    proof {
        assert(rows_texts(tag_rows@) == Seq::new(
            rows@.len(),
            |k: int| closed_item_tags(texts(base@), rows@[k], lookback@),
        ));
    }
    gauges_for_rows(metric, tag_rows, now)
}

/// The gauge `metric` over open discussions.
pub fn open_discussions_gauge(
    metric: &String,
    base: &Vec<String>,
    rows: &Vec<OpenDiscussion>,
    now: i64,
) -> (out: Vec<MetricSeries>)
    requires
        rows@.len() <= i64::MAX,
    ensures
        counts_rows(
            out@,
            metric@,
            Seq::new(rows@.len(), |k: int| open_discussion_tags(texts(base@), rows@[k], now)),
            now,
        ),
{
    let mut tag_rows: Vec<Vec<String>> = Vec::new();
    let mut k: usize = 0;
    while k < rows.len()
        invariant
            k <= rows@.len(),
            tag_rows@.len() == k,
            forall|m: int|
                0 <= m < k ==> texts(#[trigger] tag_rows@[m]@) == open_discussion_tags(
                    texts(base@),
                    rows@[m],
                    now,
                ),
        decreases rows.len() - k,
    {
        let row = &rows[k];
        let mut tags = clone_strings(base);
        tags.push(prefixed("category:", sanitize_tag_value(row.category.as_str()).as_str()));
        tags.push(String::from_str("state:open"));
        tags.push(answered_text(row.answered));
        tags.push(age_bucket(row.created_at.as_str(), now));
        proof {
            assert(texts(tags@) == open_discussion_tags(texts(base@), rows@[k as int], now));
        }
        tag_rows.push(tags);
        k += 1;
    }
    proof {
        assert(rows_texts(tag_rows@) == Seq::new(
            rows@.len(),
            |k: int| open_discussion_tags(texts(base@), rows@[k], now),
        ));
    }
    gauges_for_rows(metric, tag_rows, now)
}

/// The gauge `metric` over discussions closed within the window `lookback`.
pub fn closed_discussions_gauge(
    metric: &String,
    base: &Vec<String>,
    rows: &Vec<ClosedDiscussion>,
    lookback: &str,
    now: i64,
) -> (out: Vec<MetricSeries>)
    requires
        rows@.len() <= i64::MAX,
    ensures
        counts_rows(
            out@,
            metric@,
            Seq::new(
                rows@.len(),
                |k: int| closed_discussion_tags(texts(base@), rows@[k], lookback@),
            ),
            now,
        ),
{
    let window = prefixed("window:", sanitize_tag_value(lookback).as_str());
    let mut tag_rows: Vec<Vec<String>> = Vec::new();
    let mut k: usize = 0;
    while k < rows.len()
        invariant
            k <= rows@.len(),
            tag_rows@.len() == k,
            window@ == window_tag(lookback@),
            forall|m: int|
                0 <= m < k ==> texts(#[trigger] tag_rows@[m]@) == closed_discussion_tags(
                    texts(base@),
                    rows@[m],
                    lookback@,
                ),
        decreases rows.len() - k,
    {
        let row = &rows[k];
        let mut tags = clone_strings(base);
        tags.push(prefixed("category:", sanitize_tag_value(row.category.as_str()).as_str()));
        tags.push(String::from_str("state:closed"));
        tags.push(answered_text(row.answered));
        tags.push(window.clone());
        proof {
            assert(texts(tags@) == closed_discussion_tags(
                texts(base@),
                rows@[k as int],
                lookback@,
            ));
        }
        tag_rows.push(tags);
        k += 1;
    }
    proof {
        assert(rows_texts(tag_rows@) == Seq::new(
            rows@.len(),
            |k: int| closed_discussion_tags(texts(base@), rows@[k], lookback@),
        ));
    }
    gauges_for_rows(metric, tag_rows, now)
}

/// The order of series: by metric name, then by tags, as `collect_metrics` sorts them.
pub open spec fn series_less(a: MetricSeries, b: MetricSeries) -> bool {
    seq_less(a.metric@, b.metric@) || (a.metric@ == b.metric@ && texts_less(
        texts(a.tags@),
        texts(b.tags@),
    ))
}

proof fn lemma_series_less_transitive(a: MetricSeries, b: MetricSeries, c: MetricSeries)
    requires
        series_less(a, b),
        series_less(b, c),
    ensures
        series_less(a, c),
{
    if seq_less(a.metric@, b.metric@) && seq_less(b.metric@, c.metric@) {
        lemma_seq_less_transitive(a.metric@, b.metric@, c.metric@);
    } else if seq_less(a.metric@, b.metric@) {
    } else if seq_less(b.metric@, c.metric@) {
    } else {
        lemma_texts_less_transitive(texts(a.tags@), texts(b.tags@), texts(c.tags@));
    }
}

proof fn lemma_series_less_irreflexive(a: MetricSeries)
    ensures
        !series_less(a, a),
{
    lemma_seq_less_irreflexive(a.metric@);
    lemma_texts_less_irreflexive(texts(a.tags@));
}

/// Whether `a` sorts before `b` by metric name, then tags.
pub fn strings_less(a: &Vec<String>, b: &Vec<String>) -> (r: bool)
    ensures
        r == texts_less(texts(a@), texts(b@)),
{
    let mut i: usize = 0;
    assert(texts(a@).skip(0) == texts(a@));
    assert(texts(b@).skip(0) == texts(b@));
    while i < a.len() && i < b.len() && a[i] == b[i]
        invariant
            i <= a@.len(),
            i <= b@.len(),
            texts_less(texts(a@), texts(b@)) == texts_less(
                texts(a@).skip(i as int),
                texts(b@).skip(i as int),
            ),
        decreases a.len() - i,
    {
        proof {
            let x = texts(a@).skip(i as int);
            let y = texts(b@).skip(i as int);
            assert(x.drop_first() == texts(a@).skip(i + 1));
            assert(y.drop_first() == texts(b@).skip(i + 1));
            assert(x[0] == a@[i as int]@);
            assert(y[0] == b@[i as int]@);
        }
        i += 1;
    }
    if i == a.len() {
        i < b.len()
    } else if i == b.len() {
        false
    } else {
        proof {
            assert(texts(a@).skip(i as int)[0] == a@[i as int]@);
            assert(texts(b@).skip(i as int)[0] == b@[i as int]@);
        }
        string_less(&a[i], &b[i])
    }
}

fn series_before(a: &MetricSeries, b: &MetricSeries) -> (r: bool)
    ensures
        r == series_less(*a, *b),
{
    if string_less(&a.metric, &b.metric) {
        true
    } else if a.metric == b.metric {
        strings_less(&a.tags, &b.tags)
    } else {
        false
    }
}

/// Whether series come in `series_less` order.
pub open spec fn series_sorted(s: Seq<MetricSeries>) -> bool {
    forall|i: int, j: int| 0 <= i < j < s.len() ==> !series_less(#[trigger] s[j], #[trigger] s[i])
}

/// The series of `v` in ascending order of metric name, then tags.
pub fn sort_series(v: Vec<MetricSeries>) -> (r: Vec<MetricSeries>)
    ensures
        series_sorted(r@),
        r@.to_multiset() == v@.to_multiset(),
{
    let mut src = v;
    let mut r: Vec<MetricSeries> = Vec::new();
    proof {
        broadcast use vstd::seq_lib::group_to_multiset_ensures;
        broadcast use vstd::multiset::group_multiset_axioms;

        assert(r@.to_multiset().len() == 0);
        assert(r@.to_multiset() =~= vstd::multiset::Multiset::empty());
        assert(r@.to_multiset().add(src@.to_multiset()) =~= v@.to_multiset());
    }
    while src.len() > 0
        invariant
            series_sorted(r@),
            r@.to_multiset().add(src@.to_multiset()) == v@.to_multiset(),
        decreases src@.len(),
    {
        let ghost before_src = src@;
        let x = src.pop().unwrap();
        proof {
            assert(before_src == src@.push(x));
        }
        let mut p: usize = 0;
        while p < r.len() && !series_before(&x, &r[p])
            invariant
                p <= r@.len(),
                forall|k: int| 0 <= k < p ==> !series_less(x, #[trigger] r@[k]),
            decreases r.len() - p,
        {
            p += 1;
        }
        let ghost old_r = r@;
        r.insert(p, x);
        proof {
            let t = r@;
            assert forall|a: int, b: int| 0 <= a < b < t.len() implies !series_less(
                #[trigger] t[b],
                #[trigger] t[a],
            ) by {
                if a < p && b < p {
                    assert(t[a] == old_r[a] && t[b] == old_r[b]);
                } else if a < p && b == p {
                } else if a < p && b > p {
                    assert(t[a] == old_r[a] && t[b] == old_r[b - 1]);
                } else if a == p {
                    assert(series_less(x, old_r[p as int]));
                    assert(t[b] == old_r[b - 1]);
                    if series_less(t[b], x) {
                        if b - 1 == p {
                            lemma_series_less_transitive(t[b], x, t[b]);
                            lemma_series_less_irreflexive(t[b]);
                        } else {
                            assert(!series_less(old_r[b - 1], old_r[p as int]));
                            lemma_series_less_transitive(t[b], x, old_r[p as int]);
                        }
                    }
                } else {
                    assert(t[a] == old_r[a - 1] && t[b] == old_r[b - 1]);
                }
            }
            vstd::seq_lib::to_multiset_insert(old_r, p as int, x);
            vstd::seq_lib::to_multiset_build(src@, x);
            assert(r@.to_multiset() == old_r.to_multiset().insert(x));
            assert(before_src.to_multiset() == src@.to_multiset().insert(x));
            assert(r@.to_multiset().add(src@.to_multiset()) =~= old_r.to_multiset().add(
                before_src.to_multiset(),
            ));
        }
    }
    proof {
        broadcast use vstd::seq_lib::group_to_multiset_ensures;
        broadcast use vstd::multiset::group_multiset_axioms;

        assert(src@.to_multiset().len() == 0);
        assert(src@.to_multiset() =~= vstd::multiset::Multiset::empty());
        assert(r@.to_multiset().add(src@.to_multiset()) =~= r@.to_multiset());
    }
    r
}

/// What the database holds for the gauges of one repository.
pub struct MetricRows {
    pub open_issues: Vec<OpenItem>,
    pub open_prs: Vec<OpenItem>,
    pub open_discussions: Vec<OpenDiscussion>,
    pub closed_issues: Vec<ClosedItem>,
    pub closed_prs: Vec<ClosedItem>,
    pub closed_discussions: Vec<ClosedDiscussion>,
}

/// The six gauges of a repository: each metric name with the tag lists of the rows it
/// counts.
pub open spec fn metric_kinds(
    org: Seq<char>,
    repo: Seq<char>,
    prefix: Seq<char>,
    lookback: Seq<char>,
    now: i64,
    rows: MetricRows,
) -> Seq<(Seq<char>, Seq<Seq<Seq<char>>>)> {
    let base = base_tags_spec(org, repo);
    seq![
        (
            prefix + ".issues"@,
            Seq::new(
                rows.open_issues@.len(),
                |k: int| open_item_tags(base, rows.open_issues@[k], now),
            ),
        ),
        (
            prefix + ".prs"@,
            Seq::new(rows.open_prs@.len(), |k: int| open_item_tags(base, rows.open_prs@[k], now)),
        ),
        (
            prefix + ".discussions"@,
            Seq::new(
                rows.open_discussions@.len(),
                |k: int| open_discussion_tags(base, rows.open_discussions@[k], now),
            ),
        ),
        (
            prefix + ".issues.closed"@,
            Seq::new(
                rows.closed_issues@.len(),
                |k: int| closed_item_tags(base, rows.closed_issues@[k], lookback),
            ),
        ),
        (
            prefix + ".prs.closed"@,
            Seq::new(
                rows.closed_prs@.len(),
                |k: int| closed_item_tags(base, rows.closed_prs@[k], lookback),
            ),
        ),
        (
            prefix + ".discussions.closed"@,
            Seq::new(
                rows.closed_discussions@.len(),
                |k: int| closed_discussion_tags(base, rows.closed_discussions@[k], lookback),
            ),
        ),
    ]
}

/// Whether some series is named `name` and has the tags `tags`, in any order.
pub open spec fn series_hold_named(
    series: Seq<MetricSeries>,
    name: Seq<char>,
    tags: Seq<Seq<char>>,
) -> bool {
    exists|i: int|
        0 <= i < series.len() && series[i].metric@ == name && (#[trigger] texts(
            series[i].tags@,
        )).to_multiset() == tags.to_multiset()
}

/// What the series of a repository hold: each counts the rows of one of the six gauges as
/// `series_counts` says, every row of every gauge is counted, and they come in ascending
/// order of metric name, then tags.
pub open spec fn metrics_spec(
    series: Seq<MetricSeries>,
    kinds: Seq<(Seq<char>, Seq<Seq<Seq<char>>>)>,
    now: i64,
) -> bool {
    &&& series_sorted(series)
    &&& forall|i: int|
        0 <= i < series.len() ==> exists|k: int|
            0 <= k < kinds.len() && series_counts(#[trigger] series[i], kinds[k].0, kinds[k].1, now)
    &&& forall|k: int, m: int|
        0 <= k < kinds.len() && 0 <= m < kinds[k].1.len() ==> series_hold_named(
            series,
            kinds[k].0,
            #[trigger] kinds[k].1[m],
        )
    &&& tags_distinct_per_metric(series)
}

/// No two series of one metric have the same tags.
pub open spec fn tags_distinct_per_metric(series: Seq<MetricSeries>) -> bool {
    forall|i: int, j: int|
        0 <= i < series.len() && 0 <= j < series.len() && i != j && #[trigger] series[i].metric@
            == #[trigger] series[j].metric@ ==> texts(series[i].tags@) != texts(series[j].tags@)
}

/// Whether the gauges have distinct metric names.
pub open spec fn kind_names_distinct(kinds: Seq<(Seq<char>, Seq<Seq<Seq<char>>>)>) -> bool {
    forall|a: int, b: int| 0 <= a < kinds.len() && 0 <= b < kinds.len() && a != b ==> #[trigger] kinds[a].0 != #[trigger] kinds[b].0
}

/// The series of the metric `name`, in order.
pub open spec fn of_metric(s: Seq<MetricSeries>, name: Seq<char>) -> Seq<MetricSeries>
    decreases s.len(),
{
    if s.len() == 0 {
        Seq::empty()
    } else if s.last().metric@ == name {
        of_metric(s.drop_last(), name).push(s.last())
    } else {
        of_metric(s.drop_last(), name)
    }
}

/// Where the `i`-th series of the metric `name` stands among all of `s`.
pub open spec fn of_metric_index(s: Seq<MetricSeries>, name: Seq<char>, i: int) -> int
    decreases s.len(),
{
    if s.len() == 0 {
        0
    } else if s.last().metric@ == name && i == of_metric(s.drop_last(), name).len() {
        s.len() - 1
    } else {
        of_metric_index(s.drop_last(), name, i)
    }
}

proof fn lemma_of_metric_index(s: Seq<MetricSeries>, name: Seq<char>)
    ensures
        forall|i: int|
            0 <= i < of_metric(s, name).len() ==> {
                let a = #[trigger] of_metric_index(s, name, i);
                &&& 0 <= a < s.len()
                &&& s[a] == of_metric(s, name)[i]
                &&& s[a].metric@ == name
            },
        forall|i: int, j: int|
            0 <= i < j < of_metric(s, name).len() ==> #[trigger] of_metric_index(s, name, i)
                < #[trigger] of_metric_index(s, name, j),
        forall|a: int|
            0 <= a < s.len() && (#[trigger] s[a]).metric@ == name ==> of_metric(s, name).contains(s[a]),
    decreases s.len(),
{
    if s.len() > 0 {
        let init = s.drop_last();
        lemma_of_metric_index(init, name);
        let fi = of_metric(init, name);
        assert forall|i: int| 0 <= i < of_metric(s, name).len() implies {
            let a = #[trigger] of_metric_index(s, name, i);
            &&& 0 <= a < s.len()
            &&& s[a] == of_metric(s, name)[i]
            &&& s[a].metric@ == name
        } by {
            if i < fi.len() {
                assert(of_metric_index(s, name, i) == of_metric_index(init, name, i));
                assert(init[of_metric_index(init, name, i)] == s[of_metric_index(init, name, i)]);
            }
        }
        assert forall|i: int, j: int| 0 <= i < j < of_metric(s, name).len() implies #[trigger] of_metric_index(s, name, i)
            < #[trigger] of_metric_index(s, name, j) by {
            assert(of_metric_index(s, name, i) == of_metric_index(init, name, i));
            if j < fi.len() {
                assert(of_metric_index(s, name, j) == of_metric_index(init, name, j));
            }
        }
        assert forall|a: int| 0 <= a < s.len() && (#[trigger] s[a]).metric@ == name implies of_metric(s, name).contains(s[a]) by {
            if a < init.len() {
                assert(init[a] == s[a]);
                let k = choose|k: int| 0 <= k < fi.len() && fi[k] == init[a];
                assert(of_metric(s, name)[k] == s[a]);
            } else {
                assert(of_metric(s, name)[of_metric(s, name).len() - 1] == s[a]);
            }
        }
    }
}

/// A dashboard that sums a metric's series gets the whole count: for each of the six
/// gauges of a repository, the values of its series add up to the number of items it
/// counts.
pub proof fn lemma_metric_totals_match_rows(
    series: Seq<MetricSeries>,
    org: Seq<char>,
    repo: Seq<char>,
    prefix: Seq<char>,
    lookback: Seq<char>,
    now: i64,
    rows: MetricRows,
    k: int,
)
    requires
        metrics_spec(series, metric_kinds(org, repo, prefix, lookback, now, rows), now),
        0 <= k < 6,
    ensures
        values_total(of_metric(series, metric_kinds(org, repo, prefix, lookback, now, rows)[k].0))
            == metric_kinds(org, repo, prefix, lookback, now, rows)[k].1.len(),
{
    let kinds = metric_kinds(org, repo, prefix, lookback, now, rows);
    lemma_metric_kind_names_distinct(org, repo, prefix, lookback, now, rows);
    let name = kinds[k].0;
    let f = of_metric(series, name);
    lemma_of_metric_index(series, name);
    assert forall|i: int| 0 <= i < f.len() implies series_counts(#[trigger] f[i], name, kinds[k].1, now) by {
        let a = of_metric_index(series, name, i);
        let q = choose|q: int| 0 <= q < kinds.len() && series_counts(#[trigger] series[a], kinds[q].0, kinds[q].1, now);
        assert(kinds[q].0 == name);
        if q != k {
            assert(kinds[q].0 != kinds[k].0);
        }
    }
    assert forall|m: int| 0 <= m < kinds[k].1.len() implies series_hold(f, #[trigger] kinds[k].1[m]) by {
        assert(series_hold_named(series, name, kinds[k].1[m]));
        let a = choose|a: int|
            0 <= a < series.len() && series[a].metric@ == name && (#[trigger] texts(
                series[a].tags@,
            )).to_multiset() == kinds[k].1[m].to_multiset();
        assert(f.contains(series[a]));
        let i = choose|i: int| 0 <= i < f.len() && f[i] == series[a];
        assert(texts(f[i].tags@) == texts(series[a].tags@));
    }
    assert forall|i: int, j: int| 0 <= i < j < f.len() implies texts(f[i].tags@) != texts(f[j].tags@) by {
        let a = of_metric_index(series, name, i);
        let b = of_metric_index(series, name, j);
        assert(series[a].metric@ == series[b].metric@);
    }
    assert(counts_rows(f, name, kinds[k].1, now));
    lemma_gauge_values_sum_to_rows(f, name, kinds[k].1, now);
}

/// The values of each metric sum to what it counts: `<prefix>.issues` to the open issues,
/// `<prefix>.prs` to the open pull requests, `<prefix>.discussions` to the open
/// discussions, and the `.closed` metrics to the issues, pull requests and discussions
/// closed in the window.
pub proof fn lemma_metric_totals_by_name(
    series: Seq<MetricSeries>,
    org: Seq<char>,
    repo: Seq<char>,
    prefix: Seq<char>,
    lookback: Seq<char>,
    now: i64,
    rows: MetricRows,
)
    requires
        metrics_spec(series, metric_kinds(org, repo, prefix, lookback, now, rows), now),
    ensures
        values_total(of_metric(series, prefix + ".issues"@)) == rows.open_issues@.len(),
        values_total(of_metric(series, prefix + ".prs"@)) == rows.open_prs@.len(),
        values_total(of_metric(series, prefix + ".discussions"@)) == rows.open_discussions@.len(),
        values_total(of_metric(series, prefix + ".issues.closed"@)) == rows.closed_issues@.len(),
        values_total(of_metric(series, prefix + ".prs.closed"@)) == rows.closed_prs@.len(),
        values_total(of_metric(series, prefix + ".discussions.closed"@))
            == rows.closed_discussions@.len(),
{
    let kinds = metric_kinds(org, repo, prefix, lookback, now, rows);
    lemma_metric_totals_match_rows(series, org, repo, prefix, lookback, now, rows, 0);
    lemma_metric_totals_match_rows(series, org, repo, prefix, lookback, now, rows, 1);
    lemma_metric_totals_match_rows(series, org, repo, prefix, lookback, now, rows, 2);
    lemma_metric_totals_match_rows(series, org, repo, prefix, lookback, now, rows, 3);
    lemma_metric_totals_match_rows(series, org, repo, prefix, lookback, now, rows, 4);
    lemma_metric_totals_match_rows(series, org, repo, prefix, lookback, now, rows, 5);
    assert(kinds[0].0 == prefix + ".issues"@ && kinds[0].1.len() == rows.open_issues@.len());
    assert(kinds[1].0 == prefix + ".prs"@ && kinds[1].1.len() == rows.open_prs@.len());
    assert(kinds[2].0 == prefix + ".discussions"@ && kinds[2].1.len()
        == rows.open_discussions@.len());
    assert(kinds[3].0 == prefix + ".issues.closed"@ && kinds[3].1.len()
        == rows.closed_issues@.len());
    assert(kinds[4].0 == prefix + ".prs.closed"@ && kinds[4].1.len() == rows.closed_prs@.len());
    assert(kinds[5].0 == prefix + ".discussions.closed"@ && kinds[5].1.len()
        == rows.closed_discussions@.len());
}

/// Every series sent is a gauge (Datadog type 3) with one positive point at the snapshot
/// time, named after one of the six metrics under `prefix`.
pub proof fn lemma_series_are_gauges(
    series: Seq<MetricSeries>,
    org: Seq<char>,
    repo: Seq<char>,
    prefix: Seq<char>,
    lookback: Seq<char>,
    now: i64,
    rows: MetricRows,
)
    requires
        metrics_spec(series, metric_kinds(org, repo, prefix, lookback, now, rows), now),
    ensures
        forall|i: int|
            0 <= i < series.len() ==> (#[trigger] series[i]).metric_type == 3 && series[i].points@.len()
                == 1 && series[i].points@[0].timestamp == now && series[i].points@[0].value > 0,
        forall|i: int|
            0 <= i < series.len() ==> {
                let m = (#[trigger] series[i]).metric@;
                ||| m == prefix + ".issues"@
                ||| m == prefix + ".prs"@
                ||| m == prefix + ".discussions"@
                ||| m == prefix + ".issues.closed"@
                ||| m == prefix + ".prs.closed"@
                ||| m == prefix + ".discussions.closed"@
            },
{
    let kinds = metric_kinds(org, repo, prefix, lookback, now, rows);
    assert forall|i: int| 0 <= i < series.len() implies (#[trigger] series[i]).metric_type == 3
        && series[i].points@.len() == 1 && series[i].points@[0].timestamp == now
        && series[i].points@[0].value > 0 && {
        let m = series[i].metric@;
        ||| m == prefix + ".issues"@
        ||| m == prefix + ".prs"@
        ||| m == prefix + ".discussions"@
        ||| m == prefix + ".issues.closed"@
        ||| m == prefix + ".prs.closed"@
        ||| m == prefix + ".discussions.closed"@
    } by {
        let k = choose|k: int|
            0 <= k < kinds.len() && series_counts(#[trigger] series[i], kinds[k].0, kinds[k].1, now);
        assert(series_counts(series[i], kinds[k].0, kinds[k].1, now));
    }
}

proof fn lemma_values_at_least_len(f: Seq<MetricSeries>)
    requires
        forall|i: int| 0 <= i < f.len() ==> (#[trigger] f[i]).points@.len() >= 1 && f[i].points@[0].value > 0,
    ensures
        values_total(f) >= f.len(),
    decreases f.len(),
{
    if f.len() > 0 {
        let init = f.drop_last();
        assert forall|i: int| 0 <= i < init.len() implies (#[trigger] init[i]).points@.len() >= 1 && init[i].points@[0].value > 0 by {
            assert(init[i] == f[i]);
        }
        lemma_values_at_least_len(init);
        assert(f[f.len() - 1] == f.last());
    }
}

/// A gauge with nothing to count is not emitted: when none of the items of one of the six
/// gauges is there, no series of its metric is sent.
pub proof fn lemma_empty_gauge_not_emitted(
    series: Seq<MetricSeries>,
    org: Seq<char>,
    repo: Seq<char>,
    prefix: Seq<char>,
    lookback: Seq<char>,
    now: i64,
    rows: MetricRows,
    k: int,
)
    requires
        metrics_spec(series, metric_kinds(org, repo, prefix, lookback, now, rows), now),
        0 <= k < 6,
        metric_kinds(org, repo, prefix, lookback, now, rows)[k].1.len() == 0,
    ensures
        of_metric(series, metric_kinds(org, repo, prefix, lookback, now, rows)[k].0).len() == 0,
{
    let kinds = metric_kinds(org, repo, prefix, lookback, now, rows);
    let name = kinds[k].0;
    let f = of_metric(series, name);
    lemma_metric_totals_match_rows(series, org, repo, prefix, lookback, now, rows, k);
    lemma_of_metric_index(series, name);
    assert forall|i: int| 0 <= i < f.len() implies (#[trigger] f[i]).points@.len() >= 1 && f[i].points@[0].value > 0 by {
        let a = of_metric_index(series, name, i);
        let q = choose|q: int| 0 <= q < kinds.len() && series_counts(#[trigger] series[a], kinds[q].0, kinds[q].1, now);
    }
    lemma_values_at_least_len(f);
}

/// The six gauges of a repository have distinct metric names.
pub proof fn lemma_metric_kind_names_distinct(
    org: Seq<char>,
    repo: Seq<char>,
    prefix: Seq<char>,
    lookback: Seq<char>,
    now: i64,
    rows: MetricRows,
)
    ensures
        metric_kinds(org, repo, prefix, lookback, now, rows).len() == 6,
        kind_names_distinct(metric_kinds(org, repo, prefix, lookback, now, rows)),
{
    reveal_strlit(".issues");
    reveal_strlit(".prs");
    reveal_strlit(".discussions");
    reveal_strlit(".issues.closed");
    reveal_strlit(".prs.closed");
    reveal_strlit(".discussions.closed");
    let kinds = metric_kinds(org, repo, prefix, lookback, now, rows);
    assert forall|a: int, b: int| 0 <= a < kinds.len() && 0 <= b < kinds.len() && a != b implies #[trigger] kinds[a].0 != #[trigger] kinds[b].0 by {
        assert(kinds[a].0.len() != kinds[b].0.len());
    }
}

proof fn lemma_count_two(s: Seq<MetricSeries>, x: MetricSeries) -> (ab: (int, int))
    requires
        s.to_multiset().count(x) >= 2,
    ensures
        0 <= ab.0 < ab.1 < s.len(),
        s[ab.0] == x,
        s[ab.1] == x,
    decreases s.len(),
{
    broadcast use vstd::seq_lib::group_to_multiset_ensures;
    let init = s.drop_last();
    assert(init.push(s.last()) == s);
    if s.last() == x {
        assert(init.to_multiset().count(x) >= 1);
        assert(init.contains(x));
        let a = choose|a: int| 0 <= a < init.len() && init[a] == x;
        (a, s.len() - 1)
    } else {
        let (a, b) = lemma_count_two(init, x);
        (a, b)
    }
}

proof fn lemma_two_count(s: Seq<MetricSeries>, a: int, b: int)
    requires
        0 <= a < b < s.len(),
        s[a] == s[b],
    ensures
        s.to_multiset().count(s[a]) >= 2,
    decreases s.len(),
{
    broadcast use vstd::seq_lib::group_to_multiset_ensures;
    let init = s.drop_last();
    assert(init.push(s.last()) == s);
    if b == s.len() - 1 {
        assert(init[a] == s[a]);
        assert(init.contains(s[a]));
    } else {
        assert(init[a] == s[a] && init[b] == s[b]);
        lemma_two_count(init, a, b);
    }
}

/// Reordering the series keeps the tags of each metric distinct.
proof fn lemma_permuted_tags_distinct(r: Seq<MetricSeries>, v: Seq<MetricSeries>)
    requires
        r.to_multiset() == v.to_multiset(),
        tags_distinct_per_metric(v),
    ensures
        tags_distinct_per_metric(r),
{
    broadcast use vstd::seq_lib::group_to_multiset_ensures;
    assert forall|i: int, j: int|
        0 <= i < r.len() && 0 <= j < r.len() && i != j && #[trigger] r[i].metric@
            == #[trigger] r[j].metric@ implies texts(r[i].tags@) != texts(r[j].tags@) by {
        if texts(r[i].tags@) == texts(r[j].tags@) {
            if r[i] == r[j] {
                let (lo, hi) = if i < j { (i, j) } else { (j, i) };
                lemma_two_count(r, lo, hi);
                let (a, b) = lemma_count_two(v, r[i]);
                assert(v[a].metric@ == v[b].metric@);
            } else {
                assert(r.to_multiset().count(r[i]) > 0);
                assert(r.to_multiset().count(r[j]) > 0);
                assert(v.contains(r[i]));
                assert(v.contains(r[j]));
                let a = choose|a: int| 0 <= a < v.len() && v[a] == r[i];
                let b = choose|b: int| 0 <= b < v.len() && v[b] == r[j];
                assert(v[a].metric@ == v[b].metric@);
            }
        }
    }
}

fn metric_name(prefix: &str, suffix: &str) -> (r: String)
    ensures
        r@ == prefix@ + suffix@,
{
    prefixed(prefix, suffix)
}

/// Appends `part` to `all`.
fn append_series(all: &mut Vec<MetricSeries>, part: Vec<MetricSeries>)
    ensures
        final(all)@ == old(all)@ + part@,
{
    let mut part = part;
    let ghost p = part@;
    let mut rest: Vec<MetricSeries> = Vec::new();
    while part.len() > 0
        invariant
            rest@ + part@.reverse() == p.reverse(),
        decreases part@.len(),
    {
        let ghost before = part@;
        let x = part.pop().unwrap();
        rest.push(x);
        proof {
            assert(before == part@.push(x));
            assert(before.reverse() == seq![x] + part@.reverse());
        }
    }
    let ghost rev = rest@;
    assert(rev == p.reverse()) by {
        assert(part@.reverse() =~= Seq::<MetricSeries>::empty());
    }
    while rest.len() > 0
        invariant
            all@ + rest@.reverse() == old(all)@ + p,
        decreases rest@.len(),
    {
        let ghost before = rest@;
        let x = rest.pop().unwrap();
        all.push(x);
        proof {
            assert(before == rest@.push(x));
            assert(before.reverse() == seq![x] + rest@.reverse());
        }
    }
    proof {
        assert(rest@.reverse() =~= Seq::<MetricSeries>::empty());
        assert(all@ =~= old(all)@ + p);
    }
}

/// Every series of `all` counts one of the first `done` gauges, and every row of those
/// gauges is counted in `all`.
pub open spec fn gauges_so_far(
    all: Seq<MetricSeries>,
    kinds: Seq<(Seq<char>, Seq<Seq<Seq<char>>>)>,
    done: int,
    now: i64,
) -> bool {
    &&& tags_distinct_per_metric(all)
    &&& forall|j: int|
        0 <= j < all.len() ==> exists|k: int|
            0 <= k < done && series_counts(#[trigger] all[j], kinds[k].0, kinds[k].1, now)
    &&& forall|k: int, m: int|
        0 <= k < done && 0 <= m < kinds[k].1.len() ==> series_hold_named(
            all,
            kinds[k].0,
            #[trigger] kinds[k].1[m],
        )
}

fn add_gauges(
    all: &mut Vec<MetricSeries>,
    part: Vec<MetricSeries>,
    Ghost(kinds): Ghost<Seq<(Seq<char>, Seq<Seq<Seq<char>>>)>>,
    Ghost(done): Ghost<int>,
    now: i64,
)
    requires
        0 <= done < kinds.len(),
        kind_names_distinct(kinds),
        gauges_so_far(old(all)@, kinds, done, now),
        counts_rows(part@, kinds[done].0, kinds[done].1, now),
    ensures
        gauges_so_far(final(all)@, kinds, done + 1, now),
{
    let ghost before = all@;
    let ghost p = part@;
    append_series(all, part);
    proof {
        let after = all@;
        assert(after == before + p);
        assert forall|i: int, j: int|
            0 <= i < after.len() && 0 <= j < after.len() && i != j && #[trigger] after[i].metric@
                == #[trigger] after[j].metric@ implies texts(after[i].tags@) != texts(after[j].tags@) by {
            if i < before.len() && j < before.len() {
                assert(after[i] == before[i] && after[j] == before[j]);
            } else if i >= before.len() && j >= before.len() {
                assert(after[i] == p[i - before.len()] && after[j] == p[j - before.len()]);
                let (a, b) = if i < j { (i - before.len(), j - before.len()) } else { (j - before.len(), i - before.len()) };
                assert(texts(p[a].tags@) != texts(p[b].tags@));
            } else {
                let (o, n) = if i < before.len() { (i, j) } else { (j, i) };
                assert(after[o] == before[o]);
                assert(after[n] == p[n - before.len()]);
                let k = choose|k: int| 0 <= k < done && series_counts(before[o], kinds[k].0, kinds[k].1, now);
                assert(series_counts(p[n - before.len()], kinds[done].0, kinds[done].1, now));
                assert(kinds[k].0 != kinds[done].0);
            }
        }
        assert forall|j: int| 0 <= j < after.len() implies exists|k: int|
            0 <= k < done + 1 && series_counts(
                #[trigger] after[j],
                kinds[k].0,
                kinds[k].1,
                now,
            ) by {
            if j < before.len() {
                assert(after[j] == before[j]);
                let k = choose|k: int|
                    0 <= k < done && series_counts(before[j], kinds[k].0, kinds[k].1, now);
                assert(series_counts(after[j], kinds[k].0, kinds[k].1, now));
            } else {
                assert(after[j] == p[j - before.len()]);
                assert(series_counts(p[j - before.len()], kinds[done].0, kinds[done].1, now));
            }
        }
        assert forall|k: int, m: int|
            0 <= k < done + 1 && 0 <= m < kinds[k].1.len() implies series_hold_named(
            after,
            kinds[k].0,
            #[trigger] kinds[k].1[m],
        ) by {
            if k < done {
                assert(series_hold_named(before, kinds[k].0, kinds[k].1[m]));
                let i = choose|i: int|
                    0 <= i < before.len() && before[i].metric@ == kinds[k].0 && (#[trigger] texts(
                        before[i].tags@,
                    )).to_multiset() == kinds[k].1[m].to_multiset();
                assert(after[i] == before[i]);
            } else {
                assert(series_hold(p, kinds[done].1[m]));
                let i = choose|i: int|
                    0 <= i < p.len() && (#[trigger] texts(p[i].tags@)).to_multiset()
                        == kinds[done].1[m].to_multiset();
                assert(series_counts(p[i], kinds[done].0, kinds[done].1, now));
                assert(after[before.len() + i] == p[i]);
            }
        }
    }
}

/// The gauges of a repository, sorted by metric name and then tags: open issues, open
/// non-draft pull requests and open discussions, and those closed since the start of the
/// activity window `lookback`, each grouped by their tags.
pub fn collect_metrics(
    config: &Config,
    prefix: &str,
    lookback: &str,
    now: i64,
    rows: &MetricRows,
) -> (out: Vec<MetricSeries>)
    requires
        rows.open_issues@.len() <= i64::MAX,
        rows.open_prs@.len() <= i64::MAX,
        rows.open_discussions@.len() <= i64::MAX,
        rows.closed_issues@.len() <= i64::MAX,
        rows.closed_prs@.len() <= i64::MAX,
        rows.closed_discussions@.len() <= i64::MAX,
    ensures
        metrics_spec(
            out@,
            metric_kinds(config.org@, config.repo@, prefix@, lookback@, now, *rows),
            now,
        ),
{
    let ghost kinds = metric_kinds(config.org@, config.repo@, prefix@, lookback@, now, *rows);
    proof {
        lemma_metric_kind_names_distinct(config.org@, config.repo@, prefix@, lookback@, now, *rows);
    }
    let base = base_tags(config.org.as_str(), config.repo.as_str());
    let mut all: Vec<MetricSeries> = Vec::new();
    proof {
        assert(gauges_so_far(all@, kinds, 0, now));
    }
    let part = open_items_gauge(&metric_name(prefix, ".issues"), &base, &rows.open_issues, now);
    add_gauges(&mut all, part, Ghost(kinds), Ghost(0), now);
    let part = open_items_gauge(&metric_name(prefix, ".prs"), &base, &rows.open_prs, now);
    add_gauges(&mut all, part, Ghost(kinds), Ghost(1), now);
    let part = open_discussions_gauge(
        &metric_name(prefix, ".discussions"),
        &base,
        &rows.open_discussions,
        now,
    );
    add_gauges(&mut all, part, Ghost(kinds), Ghost(2), now);
    let part = closed_items_gauge(
        &metric_name(prefix, ".issues.closed"),
        &base,
        &rows.closed_issues,
        lookback,
        now,
    );
    add_gauges(&mut all, part, Ghost(kinds), Ghost(3), now);
    let part = closed_items_gauge(
        &metric_name(prefix, ".prs.closed"),
        &base,
        &rows.closed_prs,
        lookback,
        now,
    );
    add_gauges(&mut all, part, Ghost(kinds), Ghost(4), now);
    let part = closed_discussions_gauge(
        &metric_name(prefix, ".discussions.closed"),
        &base,
        &rows.closed_discussions,
        lookback,
        now,
    );
    add_gauges(&mut all, part, Ghost(kinds), Ghost(5), now);
    let ghost unsorted = all@;
    let out = sort_series(all);
    proof {
        broadcast use vstd::seq_lib::group_to_multiset_ensures;
        lemma_permuted_tags_distinct(out@, unsorted);

        assert forall|i: int| 0 <= i < out@.len() implies exists|k: int|
            0 <= k < kinds.len() && series_counts(
                #[trigger] out@[i],
                kinds[k].0,
                kinds[k].1,
                now,
            ) by {
            assert(out@.to_multiset().count(out@[i]) > 0);
            assert(unsorted.contains(out@[i]));
            let j = choose|j: int| 0 <= j < unsorted.len() && unsorted[j] == out@[i];
            assert(exists|k: int|
                0 <= k < 6 && series_counts(unsorted[j], kinds[k].0, kinds[k].1, now));
        }
        assert forall|k: int, m: int|
            0 <= k < kinds.len() && 0 <= m < kinds[k].1.len() implies series_hold_named(
            out@,
            kinds[k].0,
            #[trigger] kinds[k].1[m],
        ) by {
            assert(series_hold_named(unsorted, kinds[k].0, kinds[k].1[m]));
            let j = choose|j: int|
                0 <= j < unsorted.len() && unsorted[j].metric@ == kinds[k].0 && (#[trigger] texts(
                    unsorted[j].tags@,
                )).to_multiset() == kinds[k].1[m].to_multiset();
            assert(unsorted.to_multiset().count(unsorted[j]) > 0);
            assert(out@.contains(unsorted[j]));
            let i = choose|i: int| 0 <= i < out@.len() && out@[i] == unsorted[j];
            assert(texts(out@[i].tags@) == texts(unsorted[j].tags@));
        }
    }
    out
}


/// How many points all the series carry.
pub open spec fn point_count(s: Seq<MetricSeries>) -> nat
    decreases s.len(),
{
    if s.len() == 0 {
        0
    } else {
        point_count(s.drop_last()) + s.last().points@.len()
    }
}

/// The sum of the values of the points.
pub open spec fn points_total(p: Seq<MetricPoint>) -> int
    decreases p.len(),
{
    if p.len() == 0 {
        0
    } else {
        points_total(p.drop_last()) + p.last().value
    }
}

/// The sum of the values of all points of all the series.
pub open spec fn series_total(s: Seq<MetricSeries>) -> int
    decreases s.len(),
{
    if s.len() == 0 {
        0
    } else {
        series_total(s.drop_last()) + points_total(s.last().points@)
    }
}

/// The metric names of the series, in turn.
pub open spec fn series_names(s: Seq<MetricSeries>) -> Seq<Seq<char>> {
    s.map_values(|m: MetricSeries| m.metric@)
}

/// How many of the series are of the metric `name`.
pub open spec fn named_count(s: Seq<MetricSeries>, name: Seq<char>) -> nat
    decreases s.len(),
{
    if s.len() == 0 {
        0
    } else {
        named_count(s.drop_last(), name) + if s.last().metric@ == name {
            1nat
        } else {
            0nat
        }
    }
}

/// The sum of the first point's value of the series of the metric `name`.
pub open spec fn named_value(s: Seq<MetricSeries>, name: Seq<char>) -> int
    decreases s.len(),
{
    if s.len() == 0 {
        0
    } else {
        named_value(s.drop_last(), name) + if s.last().metric@ == name {
            s.last().points@[0].value as int
        } else {
            0
        }
    }
}

/// The largest magnitude of an `i64`.
pub open spec fn i64_span() -> int {
    0x8000_0000_0000_0000
}

proof fn lemma_points_bound(p: Seq<MetricPoint>)
    ensures
        -(p.len() * i64_span()) <= points_total(p) <= p.len() * i64_span(),
    decreases p.len(),
{
    if p.len() > 0 {
        lemma_points_bound(p.drop_last());
    }
}

proof fn lemma_point_count_prefix(s: Seq<MetricSeries>, i: int)
    requires
        0 <= i <= s.len(),
    ensures
        point_count(s.take(i)) <= point_count(s),
    decreases s.len() - i,
{
    if i < s.len() {
        lemma_point_count_prefix(s, i + 1);
        assert(s.take(i + 1).drop_last() == s.take(i));
    } else {
        assert(s.take(i) == s);
    }
}

/// The dry-run summary of the series: the sum of all their points' values, and for each
/// metric name, in increasing order, how many series it has and the sum of their first
/// points' values.
pub fn metric_totals(series: &Vec<MetricSeries>) -> (r: (i128, Vec<(String, usize, i128)>))
    requires
        point_count(series@) <= usize::MAX,
        forall|i: int| 0 <= i < series@.len() ==> (#[trigger] series@[i]).points@.len() >= 1,
    ensures
        r.0 == series_total(series@),
        texts(r.1@.map_values(|x: (String, usize, i128)| x.0)) == sorted_distinct(series_names(series@)),
        forall|k: int|
            0 <= k < r.1@.len() ==> (#[trigger] r.1@[k]).1 == named_count(series@, r.1@[k].0@)
                && r.1@[k].2 == named_value(series@, r.1@[k].0@),
{
    let ghost s = series@;
    let mut total: i128 = 0;
    let mut i: usize = 0;
    while i < series.len()
        invariant
            i <= s.len(),
            s == series@,
            point_count(s) <= usize::MAX,
            total == series_total(s.take(i as int)),
            -(point_count(s.take(i as int)) * i64_span()) <= total <= point_count(s.take(i as int)) * i64_span(),
        decreases series.len() - i,
    {
        let points = &series[i].points;
        proof {
            assert(s.take(i + 1).drop_last() == s.take(i as int));
            lemma_point_count_prefix(s, i + 1);
        }
        let mut j: usize = 0;
        let mut part: i128 = 0;
        while j < points.len()
            invariant
                j <= points@.len(),
                i < s.len(),
                points@ == s[i as int].points@,
                part == points_total(points@.take(j as int)),
                point_count(s.take(i as int)) + points@.len() <= usize::MAX,
                -(point_count(s.take(i as int)) * i64_span()) <= total <= point_count(s.take(i as int)) * i64_span(),
            decreases points.len() - j,
        {
            proof {
                assert(points@.take(j + 1).drop_last() == points@.take(j as int));
                lemma_points_bound(points@.take(j as int));
            }
            part = part + points[j].value as i128;
            j += 1;
        }
        proof {
            assert(points@.take(points@.len() as int) == points@);
            lemma_points_bound(points@);
        }
        total = total + part;
        i += 1;
    }
    assert(s.take(s.len() as int) == s);

    let mut names: Vec<String> = Vec::new();
    let mut i: usize = 0;
    while i < series.len()
        invariant
            i <= s.len(),
            s == series@,
            crate::sorting::strictly_increasing(texts(names@)),
            texts(names@).to_set() == series_names(s.take(i as int)).to_set(),
        decreases series.len() - i,
    {
        proof {
            assert(series_names(s.take(i + 1)) == series_names(s.take(i as int)).push(s[i as int].metric@));
            crate::sorting::lemma_push_to_set(series_names(s.take(i as int)), s[i as int].metric@);
        }
        crate::sorting::insert_sorted_unique(&mut names, series[i].metric.clone());
        i += 1;
    }
    proof {
        assert(s.take(s.len() as int) == s);
        crate::sorting::lemma_sorted_distinct(texts(names@), series_names(s));
    }

    let mut groups: Vec<(String, usize, i128)> = Vec::new();
    let mut k: usize = 0;
    while k < names.len()
        invariant
            k <= names@.len(),
            s == series@,
            groups@.len() == k,
            forall|q: int| 0 <= q < s.len() ==> (#[trigger] s[q]).points@.len() >= 1,
            forall|q: int| 0 <= q < k ==> (#[trigger] groups@[q]).0@ == names@[q]@,
            forall|q: int|
                0 <= q < k ==> (#[trigger] groups@[q]).1 == named_count(s, groups@[q].0@)
                    && groups@[q].2 == named_value(s, groups@[q].0@),
        decreases names.len() - k,
    {
        let name = &names[k];
        let mut count: usize = 0;
        let mut value: i128 = 0;
        let mut i: usize = 0;
        while i < series.len()
            invariant
                i <= s.len(),
                s == series@,
                forall|q: int| 0 <= q < s.len() ==> (#[trigger] s[q]).points@.len() >= 1,
                count == named_count(s.take(i as int), name@),
                value == named_value(s.take(i as int), name@),
                count <= i,
                -(i * i64_span()) <= value <= i * i64_span(),
            decreases series.len() - i,
        {
            proof {
                assert(s.take(i + 1).drop_last() == s.take(i as int));
            }
            if crate::text::text_equal(series[i].metric.as_str(), name.as_str()) {
                count = count + 1;
                value = value + series[i].points[0].value as i128;
            }
            i += 1;
        }
        assert(s.take(s.len() as int) == s);
        groups.push((name.clone(), count, value));
        k += 1;
    }
    assert(texts(groups@.map_values(|x: (String, usize, i128)| x.0)) =~= texts(names@));
    (total, groups)
}


/// The most series that one Datadog request carries.
pub const BATCH_SIZE: usize = 500;

/// The batches of `n` series: consecutive ranges `[start, end)` of at most `size` each,
/// covering `0..n` in order, every one full but the last.
pub open spec fn batch_ranges_spec(n: nat, size: nat) -> Seq<(int, int)> {
    let count = if n == 0 {
        0
    } else {
        (n - 1) / size as int + 1
    };
    Seq::new(count as nat, |k: int| (k * size, if (k + 1) * size < n { (k + 1) * size } else { n as int }))
}

/// The batches split `0..n` into consecutive non-empty ranges, in order: the first starts
/// at 0, each ends where the next starts, the last ends at `n`; every batch but the last
/// holds exactly `size` series and the last at most `size`.
pub proof fn lemma_batches_partition(n: nat, size: nat)
    requires
        size > 0,
    ensures
        n == 0 ==> batch_ranges_spec(n, size).len() == 0,
        n > 0 ==> batch_ranges_spec(n, size).len() > 0 && batch_ranges_spec(n, size)[0].0 == 0
            && batch_ranges_spec(n, size).last().1 == n,
        forall|k: int|
            0 <= k < batch_ranges_spec(n, size).len() ==> 0 < (#[trigger] batch_ranges_spec(n, size)[k]).1
                - batch_ranges_spec(n, size)[k].0 <= size,
        forall|k: int|
            0 <= k < batch_ranges_spec(n, size).len() - 1 ==> (#[trigger] batch_ranges_spec(n, size)[k]).1
                == batch_ranges_spec(n, size)[k + 1].0 && batch_ranges_spec(n, size)[k].1
                - batch_ranges_spec(n, size)[k].0 == size,
{
    let b = batch_ranges_spec(n, size);
    if n > 0 {
        let c: int = (n - 1) / size as int + 1;
        assert(b.len() == c);
        assert(c >= 1) by (nonlinear_arith)
            requires
                c == (n - 1) / size as int + 1,
                n > 0,
                size > 0,
        {
        }
        let last = c - 1;
        assert(c * size >= n) by (nonlinear_arith)
            requires
                c == (n - 1) / size as int + 1,
                n > 0,
                size > 0,
        {
        }
        assert(b[last] == (last * size, if (last + 1) * size < n { (last + 1) * size } else { n as int }));
        assert(b.last().1 == n);
        assert(b[0].0 == 0);
        assert forall|k: int| 0 <= k < b.len() implies 0 < (#[trigger] b[k]).1 - b[k].0 <= size by {
            assert(k * size < n) by (nonlinear_arith)
                requires
                    0 <= k < c,
                    c == (n - 1) / size as int + 1,
                    size > 0,
                    n > 0,
            {
            }
            assert((k + 1) * size == k * size + size) by (nonlinear_arith);
        }
        assert forall|k: int| 0 <= k < b.len() - 1 implies (#[trigger] b[k]).1 == b[k + 1].0 && b[k].1
            - b[k].0 == size by {
            assert((k + 1) * size < n) by (nonlinear_arith)
                requires
                    0 <= k < c - 1,
                    c == (n - 1) / size as int + 1,
                    size > 0,
                    n > 0,
            {
            }
            assert((k + 1) * size == k * size + size) by (nonlinear_arith);
        }
    }
}

/// The batches of `n` series, `size` to a request.
pub fn batch_ranges(n: usize, size: usize) -> (r: Vec<(usize, usize)>)
    requires
        size > 0,
    ensures
        r@.map_values(|b: (usize, usize)| (b.0 as int, b.1 as int)) == batch_ranges_spec(n as nat, size as nat),
{
    let mut r: Vec<(usize, usize)> = Vec::new();
    let mut start: usize = 0;
    assert(r@.len() * size == 0) by (nonlinear_arith)
        requires
            r@.len() == 0,
    ;
    while start < n
        invariant
            size > 0,
            start <= n,
            start == (if r@.len() * size < n { r@.len() * size } else { n as int }),
            r@.len() > 0 ==> (r@.len() - 1) * size < n,
            forall|k: int|
                0 <= k < r@.len() ==> (#[trigger] r@[k]).0 == k * size && r@[k].1 == if (k + 1) * size < n {
                    (k + 1) * size
                } else {
                    n as int
                },
        decreases n - start,
    {
        let end = if n - start > size { start + size } else { n };
        let ghost before = r@;
        proof {
            assert(start == r@.len() * size);
            assert((r@.len() + 1) * size == start + size) by (nonlinear_arith)
                requires
                    start == r@.len() * size,
            ;
        }
        r.push((start, end));
        assert forall|k: int|
            0 <= k < r@.len() implies (#[trigger] r@[k]).0 == k * size && r@[k].1 == if (k + 1) * size < n {
                (k + 1) * size
            } else {
                n as int
            } by {
            if k < before.len() {
                assert(r@[k] == before[k]);
            }
        }
        start = end;
    }
    proof {
        let c = r@.len() as int;
        if n > 0 {
            assert(c > 0);
            assert((n - 1) / size as int + 1 == c) by (nonlinear_arith)
                requires
                    size > 0,
                    c > 0,
                    (c - 1) * size < n,
                    n <= c * size,
            ;
        } else {
            assert(c == 0) by (nonlinear_arith)
                requires
                    c * size == 0,
                    size > 0,
                    c >= 0,
            ;
        }
        assert(r@.map_values(|b: (usize, usize)| (b.0 as int, b.1 as int)) =~= batch_ranges_spec(n as nat, size as nat));
    }
    r
}

} // verus!
