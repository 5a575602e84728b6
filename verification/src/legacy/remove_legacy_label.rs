//! The decisions of the label clean-up: which Type a legacy label stands for, which issues
//! are handled, and what each answer of the API means. The requests are the caller's.
use crate::text::{
    chars_equal, chars_of, decimal, lowercase, push_all, push_str, string_of, text_equal,
    to_lowercase_chars, u64_decimal,
};
use crate::time::{date_days, datetime_days, parse_date_days, parse_datetime_days};
use vstd::prelude::*;

verus! {

/// The options of a clean-up run.
pub struct Args {
    pub repos: Vec<String>,
    pub legacy_label: String,
    pub state: String,
    pub set_type_field: bool,
    pub require_type_field: bool,
    pub case_insensitive: bool,
    pub token: String,
    pub dry_run: bool,
    pub since: Option<String>,
    pub limit: Option<usize>,
}

/// Whether `key` names the label `label`: equal, or equal once both are lower-cased.
pub open spec fn key_matches(key: Seq<char>, label: Seq<char>, case_insensitive: bool) -> bool {
    if case_insensitive {
        lowercase(key) == lowercase(label)
    } else {
        key == label
    }
}

/// The Type that a legacy label stands for: bugs, features and tasks.
pub open spec fn legacy_type_spec(label: Seq<char>, case_insensitive: bool) -> Option<Seq<char>> {
    if key_matches("type: bug"@, label, case_insensitive) {
        Some("Bug"@)
    } else if key_matches("type: feature"@, label, case_insensitive) {
        Some("Feature"@)
    } else if key_matches("type: task"@, label, case_insensitive) {
        Some("Task"@)
    } else {
        None
    }
}

/// `type: bug` stands for the Type `Bug`, `type: feature` for `Feature` and `type: task`
/// for `Task`; compared exactly, no other label stands for a Type. Setting the Type
/// succeeded exactly when the answer is 200 or 201 and reports the wanted Type; removing
/// the label succeeded exactly when the answer is 200 or 204.
pub proof fn lemma_legacy_types_and_outcomes(
    label: Seq<char>,
    case_insensitive: bool,
    status: u16,
    actual: Seq<char>,
    body: Seq<char>,
    wanted_type: Seq<char>,
    number: u64,
)
    ensures
        legacy_type_spec("type: bug"@, case_insensitive) == Some("Bug"@),
        legacy_type_spec("type: feature"@, false) == Some("Feature"@),
        legacy_type_spec("type: task"@, false) == Some("Task"@),
        legacy_type_spec(label, false) is Some ==> label == "type: bug"@ || label
            == "type: feature"@ || label == "type: task"@,
        set_type_outcome_spec(status, actual, body, wanted_type).0 <==> (status == 200 || status
            == 201) && actual == wanted_type,
        remove_label_outcome_spec(status, label, number, body).0 <==> status == 200 || status
            == 204,
{
    reveal_strlit("type: bug");
    reveal_strlit("type: feature");
    reveal_strlit("type: task");
    assert("type: bug"@.len() == 9 && "type: feature"@.len() == 13 && "type: task"@.len() == 10);
}

fn key_matches_exec(key: &str, label: &str, case_insensitive: bool) -> (r: bool)
    ensures
        r == key_matches(key@, label@, case_insensitive),
{
    if case_insensitive {
        let k = to_lowercase_chars(&chars_of(key));
        let l = to_lowercase_chars(&chars_of(label));
        chars_equal(&k, &l)
    } else {
        text_equal(key, label)
    }
}

/// The legacy labels with the Type each stands for.
pub open spec fn type_mapping_spec() -> Seq<(Seq<char>, Seq<char>)> {
    seq![("type: bug"@, "Bug"@), ("type: feature"@, "Feature"@), ("type: task"@, "Task"@)]
}

/// The pairs as text.
pub open spec fn pairs_text(v: Seq<(String, String)>) -> Seq<(Seq<char>, Seq<char>)> {
    v.map_values(|p: (String, String)| (p.0@, p.1@))
}

/// The legacy labels with the Type each stands for.
pub fn type_mapping() -> (r: Vec<(String, String)>)
    ensures
        pairs_text(r@) == type_mapping_spec(),
{
    let mut r: Vec<(String, String)> = Vec::new();
    r.push((String::from_str("type: bug"), String::from_str("Bug")));
    r.push((String::from_str("type: feature"), String::from_str("Feature")));
    r.push((String::from_str("type: task"), String::from_str("Task")));
    assert(pairs_text(r@) =~= type_mapping_spec());
    r
}

/// The Type that the legacy label `label` stands for, if it is one of the supported ones.
pub fn legacy_type(label: &str, case_insensitive: bool) -> (r: Option<String>)
    ensures
        match r {
            Some(t) => legacy_type_spec(label@, case_insensitive) == Some(t@),
            None => legacy_type_spec(label@, case_insensitive) is None,
        },
{
    let mapping = type_mapping();
    let ghost m = type_mapping_spec();
    assert(mapping@.len() == pairs_text(mapping@).len());
    let mut i: usize = 0;
    while i < mapping.len()
        invariant
            i <= mapping@.len(),
            pairs_text(mapping@) == m,
            m == type_mapping_spec(),
            mapping@.len() == 3,
            forall|j: int| 0 <= j < i ==> !key_matches(#[trigger] m[j].0, label@, case_insensitive),
        decreases mapping.len() - i,
    {
        assert(pairs_text(mapping@)[i as int] == (mapping@[i as int].0@, mapping@[i as int].1@));
        if key_matches_exec(mapping[i].0.as_str(), label, case_insensitive) {
            let t = mapping[i].1.clone();
            proof {
                assert(m[i as int].0 == mapping@[i as int].0@);
                assert(t@ == m[i as int].1);
                if i >= 1 {
                    assert(!key_matches(m[0].0, label@, case_insensitive));
                }
                if i >= 2 {
                    assert(!key_matches(m[1].0, label@, case_insensitive));
                }
                if i == 0 {
                    assert(m[0] == ("type: bug"@, "Bug"@));
                } else if i == 1 {
                    assert(m[1] == ("type: feature"@, "Feature"@));
                } else {
                    assert(m[2] == ("type: task"@, "Task"@));
                }
            }
            return Some(t);
        }
        i += 1;
    }
    assert(m.len() == 3);
    assert(mapping@.len() == pairs_text(mapping@).len());
    assert(!key_matches(m[0].0, label@, case_insensitive));
    assert(!key_matches(m[1].0, label@, case_insensitive));
    assert(!key_matches(m[2].0, label@, case_insensitive));
    None
}

/// Why a label cannot be migrated.
pub fn unsupported_label_message(label: &str) -> (r: String)
    ensures
        r@ == "'"@ + label@ + "' is not a supported legacy label. Supported: type: bug, type: feature, type: task"@,
{
    let mut v = chars_of("'");
    push_str(&mut v, label);
    push_str(&mut v, "' is not a supported legacy label. Supported: type: bug, type: feature, type: task");
    string_of(&v)
}

/// Whether one of `labels` is `name`, compared as `key_matches` does.
pub open spec fn has_label_spec(labels: Seq<Seq<char>>, name: Seq<char>, case_insensitive: bool) -> bool {
    exists|i: int| 0 <= i < labels.len() && key_matches(#[trigger] labels[i], name, case_insensitive)
}

/// Whether an issue carries the label `name`.
pub fn has_label(labels: &Vec<String>, name: &str, case_insensitive: bool) -> (r: bool)
    ensures
        r == has_label_spec(crate::sorting::texts(labels@), name@, case_insensitive),
{
    let ghost t = crate::sorting::texts(labels@);
    let mut i: usize = 0;
    while i < labels.len()
        invariant
            i <= labels@.len(),
            t == crate::sorting::texts(labels@),
            forall|j: int| 0 <= j < i ==> !key_matches(#[trigger] t[j], name@, case_insensitive),
        decreases labels.len() - i,
    {
        if key_matches_exec(labels[i].as_str(), name, case_insensitive) {
            assert(key_matches(t[i as int], name@, case_insensitive));
            return true;
        }
        i += 1;
    }
    false
}

/// Two to the power `n`.
pub open spec fn two_pow(n: nat) -> nat
    decreases n,
{
    if n == 0 {
        1
    } else {
        2 * two_pow((n - 1) as nat)
    }
}

/// The seconds to wait before the retry after attempt `attempt`: two to that power, at
/// most a minute.
pub fn backoff_secs(attempt: u32) -> (r: u64)
    requires
        attempt < 64,
    ensures
        r == if two_pow(attempt as nat) < 60 {
            two_pow(attempt as nat)
        } else {
            60
        },
{
    let mut p: u64 = 1;
    let mut k: u32 = 0;
    while k < attempt
        invariant
            k <= attempt < 64,
            p == two_pow(k as nat),
        decreases attempt - k,
    {
        proof {
            lemma_two_pow_grows((k + 1) as nat, 63);
            lemma_two_pow_63();
        }
        p = p * 2;
        k += 1;
    }
    if p < 60 {
        p
    } else {
        60
    }
}

proof fn lemma_two_pow_63()
    ensures
        two_pow(63) == 0x8000_0000_0000_0000,
{
    reveal_with_fuel(two_pow, 64);
}

proof fn lemma_two_pow_grows(j: nat, k: nat)
    requires
        j <= k,
    ensures
        two_pow(j) <= two_pow(k),
    decreases k,
{
    if j < k {
        lemma_two_pow_grows(j, (k - 1) as nat);
    }
}

/// What an API answer means for an attempt.
pub enum StepOutcome {
    /// The attempt is over: whether it succeeded, and what to report.
    Done(bool, String),
    /// The answer asks for a retry after a pause.
    Retry,
}

/// Whether a status asks for a retry: rate limited or a server error.
pub open spec fn retryable(status: u16) -> bool {
    status == 403 || (500 <= status < 600)
}

/// What setting the Type to `wanted_type` came to, given the status of the answer, the Type
/// name it reports, and its body.
pub open spec fn set_type_outcome_spec(status: u16, actual: Seq<char>, body: Seq<char>, wanted_type: Seq<char>) -> (bool, Seq<char>) {
    if status == 200 || status == 201 {
        if actual == wanted_type {
            (true, "Set type to '"@ + wanted_type + "'"@)
        } else if actual.len() == 0 {
            (false, "Type field not supported (issue may not be in project)"@)
        } else {
            (false, "Type set to '"@ + actual + "' instead of '"@ + wanted_type + "'"@)
        }
    } else {
        (false, "Failed to set type: "@ + decimal(status as nat) + " "@ + body)
    }
}

/// What an answer to setting the Type means.
pub fn set_type_outcome(status: u16, actual: &str, body: &str, wanted_type: &str) -> (r: StepOutcome)
    ensures
        match r {
            StepOutcome::Retry => !(status == 200 || status == 201) && retryable(status),
            StepOutcome::Done(ok, msg) => !(!(status == 200 || status == 201) && retryable(status))
                && (ok, msg@) == set_type_outcome_spec(status, actual@, body@, wanted_type@),
        },
{
    if status == 200 || status == 201 {
        if text_equal(actual, wanted_type) {
            let mut v = chars_of("Set type to '");
            push_str(&mut v, wanted_type);
            push_str(&mut v, "'");
            StepOutcome::Done(true, string_of(&v))
        } else if actual.unicode_len() == 0 {
            StepOutcome::Done(false, String::from_str("Type field not supported (issue may not be in project)"))
        } else {
            let mut v = chars_of("Type set to '");
            push_str(&mut v, actual);
            push_str(&mut v, "' instead of '");
            push_str(&mut v, wanted_type);
            push_str(&mut v, "'");
            StepOutcome::Done(false, string_of(&v))
        }
    } else if status == 403 || (500 <= status && status < 600) {
        StepOutcome::Retry
    } else {
        let mut v = chars_of("Failed to set type: ");
        let d = u64_decimal(status as u64);
        push_all(&mut v, &d);
        push_str(&mut v, " ");
        push_str(&mut v, body);
        StepOutcome::Done(false, string_of(&v))
    }
}

/// What a dry run reports in place of setting the Type.
pub fn set_type_dry_run_message(wanted_type: &str) -> (r: String)
    ensures
        r@ == "[dry-run] would SET type to '"@ + wanted_type@ + "'"@,
{
    let mut v = chars_of("[dry-run] would SET type to '");
    push_str(&mut v, wanted_type);
    push_str(&mut v, "'");
    string_of(&v)
}

/// What removing the label `label` from issue `number` came to, given the status and body
/// of the answer.
pub open spec fn remove_label_outcome_spec(status: u16, label: Seq<char>, number: u64, body: Seq<char>) -> (bool, Seq<char>) {
    if status == 204 || status == 200 {
        (true, "Removed label '"@ + label + "' from #"@ + decimal(number as nat))
    } else if status == 404 {
        (false, "Label '"@ + label + "' not present on #"@ + decimal(number as nat) + " (404)"@)
    } else {
        (
            false,
            "Failed to remove label on #"@ + decimal(number as nat) + ": "@ + decimal(status as nat)
                + " "@ + body,
        )
    }
}

/// What an answer to removing the label means.
pub fn remove_label_outcome(status: u16, label: &str, number: u64, body: &str) -> (r: StepOutcome)
    ensures
        match r {
            StepOutcome::Retry => !(status == 204 || status == 200 || status == 404) && retryable(status),
            StepOutcome::Done(ok, msg) => !(!(status == 204 || status == 200 || status == 404)
                && retryable(status)) && (ok, msg@) == remove_label_outcome_spec(
                status,
                label@,
                number,
                body@,
            ),
        },
{
    let num = u64_decimal(number);
    if status == 204 || status == 200 {
        let mut v = chars_of("Removed label '");
        push_str(&mut v, label);
        push_str(&mut v, "' from #");
        push_all(&mut v, &num);
        StepOutcome::Done(true, string_of(&v))
    } else if status == 404 {
        let mut v = chars_of("Label '");
        push_str(&mut v, label);
        push_str(&mut v, "' not present on #");
        push_all(&mut v, &num);
        push_str(&mut v, " (404)");
        StepOutcome::Done(false, string_of(&v))
    } else if status == 403 || (500 <= status && status < 600) {
        StepOutcome::Retry
    } else {
        let mut v = chars_of("Failed to remove label on #");
        push_all(&mut v, &num);
        push_str(&mut v, ": ");
        let d = u64_decimal(status as u64);
        push_all(&mut v, &d);
        push_str(&mut v, " ");
        push_str(&mut v, body);
        StepOutcome::Done(false, string_of(&v))
    }
}

/// Whether a byte is left as it is by URL encoding: ASCII letters and digits, `-`, `.`,
/// `_` and `~`.
pub open spec fn url_safe(b: u8) -> bool {
    (48 <= b <= 57) || (65 <= b <= 90) || (97 <= b <= 122) || b == 45 || b == 46 || b == 95
        || b == 126
}

/// The uppercase hexadecimal digit of `d`.
pub open spec fn hex_digit(d: u8) -> char {
    if d < 10 {
        (48 + d) as char
    } else {
        (55 + d) as char
    }
}

/// `bytes` percent-encoded: safe bytes as they are, every other byte as `%` and two
/// uppercase hexadecimal digits.
pub open spec fn percent_encoded(bytes: Seq<u8>) -> Seq<char>
    decreases bytes.len(),
{
    if bytes.len() == 0 {
        Seq::empty()
    } else {
        let b = bytes.last();
        percent_encoded(bytes.drop_last()) + if url_safe(b) {
            seq![b as char]
        } else {
            seq!['%', hex_digit(b / 16), hex_digit(b % 16)]
        }
    }
}

/// Calls `urlencoding::encode(s)`, which percent-encodes every UTF-8 byte of `s` but ASCII
/// letters, digits, `-`, `.`, `_` and `~`, with uppercase hexadecimal digits.
#[verifier::external_body]
fn url_encode(s: &str) -> (r: String)
    ensures
        r@ == percent_encoded(vstd::utf8::encode_utf8(s@)),
{
    urlencoding::encode(s).into_owned()
}

/// The API path of the label `label` on issue `number` of `repo`.
pub open spec fn label_path(repo: Seq<char>, number: u64, label: Seq<char>) -> Seq<char> {
    "/repos/"@ + repo + "/issues/"@ + decimal(number as nat) + "/labels/"@ + percent_encoded(
        vstd::utf8::encode_utf8(label),
    )
}

fn label_path_exec(repo: &str, number: u64, label: &str) -> (r: Vec<char>)
    ensures
        r@ == label_path(repo@, number, label@),
{
    let mut v = chars_of("/repos/");
    push_str(&mut v, repo);
    push_str(&mut v, "/issues/");
    let num = u64_decimal(number);
    push_all(&mut v, &num);
    push_str(&mut v, "/labels/");
    let enc = url_encode(label);
    push_str(&mut v, enc.as_str());
    v
}

/// The address of the label `label` on issue `number` of `repo`, to delete it.
pub fn remove_label_url(repo: &str, number: u64, label: &str) -> (r: String)
    ensures
        r@ == "https://api.github.com"@ + label_path(repo@, number, label@),
{
    let mut v = chars_of("https://api.github.com");
    let p = label_path_exec(repo, number, label);
    push_all(&mut v, &p);
    string_of(&v)
}

/// What a dry run reports in place of removing the label.
pub fn remove_label_dry_run_message(repo: &str, number: u64, label: &str) -> (r: String)
    ensures
        r@ == "[dry-run] would DELETE "@ + label_path(repo@, number, label@),
{
    let mut v = chars_of("[dry-run] would DELETE ");
    let p = label_path_exec(repo, number, label);
    push_all(&mut v, &p);
    string_of(&v)
}

/// What becomes of an issue in the run.
pub enum ItemStep {
    /// The limit of issues to process is reached: the run stops.
    Stop,
    /// Created before the start date, on the given day.
    SkipBefore(i64),
    /// The issue does not carry the legacy label.
    SkipNoLabel,
    /// The Type field is required and not set to the label's Type.
    SkipTypeNotSet,
    /// The issue is processed, setting its Type first if asked.
    Process { set_type: bool },
}

/// The day an issue was created for the start-date filter: its creation time read as
/// `YYYY-MM-DDTHH:MM:SSZ`, or the start day itself if it cannot be read.
pub open spec fn created_day(created_at: Seq<char>, since: i64) -> i64 {
    match datetime_days(created_at, "%Y-%m-%dT%H:%M:%SZ"@) {
        Some(d) => d,
        None => since,
    }
}

/// What becomes of an issue: stop at the limit; skip it if created before the start day,
/// if it lacks the label, or if its Type is required but not set; else process it.
pub open spec fn item_step_spec(
    limit: Option<usize>,
    processed: usize,
    since_day: Option<i64>,
    created_at: Seq<char>,
    has_legacy: bool,
    current_type: Seq<char>,
    wanted_type: Seq<char>,
    require_type_field: bool,
    set_type_field: bool,
) -> ItemStep {
    let correct = current_type == wanted_type;
    if limit matches Some(l) && processed >= l {
        ItemStep::Stop
    } else if since_day is Some && created_day(created_at, since_day->0) < since_day->0 {
        ItemStep::SkipBefore(created_day(created_at, since_day->0))
    } else if !has_legacy {
        ItemStep::SkipNoLabel
    } else if require_type_field && !correct {
        ItemStep::SkipTypeNotSet
    } else {
        ItemStep::Process { set_type: set_type_field && !correct }
    }
}

/// An issue is processed only when it carries the legacy label, and then its Type is set
/// exactly when the set-type option is on and its current Type differs from the wanted
/// one; with the option off the Type is never set. An issue that carries the label,
/// within the limit and the start date, is processed unless the Type is required and
/// differs.
pub proof fn lemma_item_step_set_type(
    limit: Option<usize>,
    processed: usize,
    since_day: Option<i64>,
    created_at: Seq<char>,
    has_legacy: bool,
    current_type: Seq<char>,
    wanted_type: Seq<char>,
    require_type_field: bool,
    set_type_field: bool,
)
    ensures
        ({
            let step = item_step_spec(
                limit,
                processed,
                since_day,
                created_at,
                has_legacy,
                current_type,
                wanted_type,
                require_type_field,
                set_type_field,
            );
            &&& step matches ItemStep::Process { set_type } ==> has_legacy && (set_type <==> (
            set_type_field && current_type != wanted_type))
            &&& step matches ItemStep::Process { set_type } ==> (require_type_field
                ==> current_type == wanted_type)
            &&& !set_type_field ==> !(step matches ItemStep::Process { set_type: true })
            &&& (!(limit matches Some(l) && processed >= l) && !(since_day matches Some(d) && created_day(
                created_at,
                d,
            ) < d) && has_legacy
                && !(require_type_field && current_type != wanted_type)) ==> step
                is Process
        }),
{
}

/// What becomes of an issue in the run.
pub fn item_step(
    limit: Option<usize>,
    processed: usize,
    since_day: Option<i64>,
    created_at: &str,
    has_legacy: bool,
    current_type: &str,
    wanted_type: &str,
    require_type_field: bool,
    set_type_field: bool,
) -> (r: ItemStep)
    ensures
        r == item_step_spec(
            limit,
            processed,
            since_day,
            created_at@,
            has_legacy,
            current_type@,
            wanted_type@,
            require_type_field,
            set_type_field,
        ),
{
    match limit {
        Some(l) => {
            if processed >= l {
                return ItemStep::Stop;
            }
        },
        None => {},
    }
    match since_day {
        Some(s) => {
            let created = match parse_datetime_days(created_at, "%Y-%m-%dT%H:%M:%SZ") {
                Some(d) => d,
                None => s,
            };
            if created < s {
                return ItemStep::SkipBefore(created);
            }
        },
        None => {},
    }
    if !has_legacy {
        return ItemStep::SkipNoLabel;
    }
    let correct = text_equal(current_type, wanted_type);
    if require_type_field && !correct {
        return ItemStep::SkipTypeNotSet;
    }
    ItemStep::Process { set_type: set_type_field && !correct }
}

/// The start day of the filter, from a `YYYY-MM-DD` date; none if it cannot be read.
pub fn since_day(since: &str) -> (r: Option<i64>)
    ensures
        r == date_days(since@, "%Y-%m-%d"@),
{
    parse_date_days(since, "%Y-%m-%d")
}

/// What follows an attempt to set the Type.
#[derive(PartialEq, Eq, Structural)]
pub enum AfterSetType {
    /// It failed outside a dry run: the run stops, the label is kept.
    Stop,
    /// It failed in a dry run: the label is not removed.
    Skip,
    /// It succeeded: the label is removed.
    Remove,
}

/// What follows an attempt to set the Type.
pub fn after_set_type(ok: bool, dry_run: bool) -> (r: AfterSetType)
    ensures
        r == if !ok && !dry_run {
            AfterSetType::Stop
        } else if !ok {
            AfterSetType::Skip
        } else {
            AfterSetType::Remove
        },
{
    if !ok && !dry_run {
        AfterSetType::Stop
    } else if !ok {
        AfterSetType::Skip
    } else {
        AfterSetType::Remove
    }
}

} // verus!
