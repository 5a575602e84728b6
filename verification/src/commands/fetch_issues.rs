//! Reading the `--since` argument and shaping fetched issues and pull requests.
use crate::text::{
    ascii_lower_char, is_ascii_seq, less_chars, lowercase, matches_at, seq_less, to_lowercase_chars, chars_of, decimal, i64_decimal, parse_i32_chars, parse_i32_spec, parse_i64_chars, parse_i64_spec,
    push_all, push_str, signed_decimal, slice_chars, string_of, u64_decimal,
};
use crate::time::{format_utc, utc_formatted, utc_now};
use std::collections::hash_map::DefaultHasher;
use std::hash::Hasher;
use vstd::prelude::*;
use vstd::std_specs::hash::DefaultHasherAdditionalSpecFns;
use vstd::string::StringSliceAdditionalSpecFns;
use vstd::utf8::{decode_utf8, is_char_boundary};

verus! {

/// Why a `--since` value was refused.
#[derive(Clone, Copy, PartialEq, Eq, Debug, Structural)]
pub enum SinceError {
    /// A relative value (`30d`, `3m`, `1y`) whose number does not parse.
    InvalidNumber,
    /// A relative value so large that the date it names cannot be computed.
    OutOfRange,
}

impl SinceError {
    /// The message the command line shows for this error.
    pub open spec fn message_spec(&self) -> Seq<char> {
        match self {
            SinceError::InvalidNumber => "Invalid number in relative date"@,
            SinceError::OutOfRange => "Relative date out of range"@,
        }
    }

    /// The message the command line shows for this error.
    pub fn message(&self) -> (r: String)
        ensures
            r@ == self.message_spec(),
    {
        match self {
            SinceError::InvalidNumber => String::from_str("Invalid number in relative date"),
            SinceError::OutOfRange => String::from_str("Relative date out of range"),
        }
    }
}

/// Integer division by 12 rounding toward zero, as Rust's `/` does.
pub open spec fn div12_toward_zero(a: int) -> int {
    if a >= 0 {
        a / 12
    } else {
        -((-a) / 12)
    }
}

/// A number written with at least two digits, as `{:02}` writes it.
pub open spec fn pad2(m: int) -> Seq<char> {
    if 0 <= m < 10 {
        seq!['0'] + decimal(m as nat)
    } else {
        signed_decimal(m)
    }
}

pub open spec fn fits_i32(v: int) -> bool {
    i32::MIN <= v <= i32::MAX
}

pub open spec fn fits_i64(v: int) -> bool {
    i64::MIN <= v <= i64::MAX
}

/// What `--since` means at the instant `now` (seconds since the epoch) whose UTC year and
/// month are `year` and `month`: `Nd` is `N` days before `now` to the second, `Nm` the first
/// of the month `N` months before this one, `Ny` the first of this month `N` years ago,
/// `YYYY-MM` (seven bytes with `-` as fifth character) the first of that month, ten bytes
/// a date at midnight, and anything else is taken as it stands.
pub open spec fn since_spec(input: &str, now: i64, year: i32, month: u32) -> Result<
    Seq<char>,
    SinceError,
> {
    let s = input@;
    if s.len() > 0 && s.last() == 'd' {
        match parse_i64_spec(s.drop_last()) {
            None => Err(SinceError::InvalidNumber),
            Some(days) => {
                let secs = days * 86400;
                let t = now - secs;
                if secs < -(i64::MAX / 1000) || secs > i64::MAX / 1000 || !fits_i64(t) {
                    Err(SinceError::OutOfRange)
                } else {
                    match utc_formatted(t as i64, "%Y-%m-%dT%H:%M:%SZ"@) {
                        Some(text) => Ok(text),
                        None => Err(SinceError::OutOfRange),
                    }
                }
            },
        }
    } else if s.len() > 0 && s.last() == 'm' {
        match parse_i32_spec(s.drop_last()) {
            None => Err(SinceError::InvalidNumber),
            Some(months) => {
                let total = year * 12 + month - 1 - months;
                if !fits_i32(year * 12) || !fits_i32(year * 12 + month) || !fits_i32(
                    year * 12 + month - 1,
                ) || !fits_i32(total) {
                    Err(SinceError::OutOfRange)
                } else {
                    let y = div12_toward_zero(total);
                    Ok(signed_decimal(y) + seq!['-'] + pad2(total - 12 * y + 1)
                        + "-01T00:00:00Z"@)
                }
            },
        }
    } else if s.len() > 0 && s.last() == 'y' {
        match parse_i32_spec(s.drop_last()) {
            None => Err(SinceError::InvalidNumber),
            Some(years) => {
                if !fits_i32(year - years) {
                    Err(SinceError::OutOfRange)
                } else {
                    Ok(signed_decimal(year - years) + seq!['-'] + pad2(month as int)
                        + "-01T00:00:00Z"@)
                }
            },
        }
    } else if input.len() == 7 && s.len() > 4 && s[4] == '-' {
        Ok(s + "-01T00:00:00Z"@)
    } else if input.len() == 10 {
        Ok(s + "T00:00:00Z"@)
    } else {
        Ok(s)
    }
}

/// `--since Nm` names the first day of the month exactly `N` months before the current
/// one: the year and month it gives, counted in months, are the current ones less `N`,
/// with the month from 1 to 12. (Stated where that month is in year 0 or later.)
pub proof fn lemma_since_months_back(input: &str, now: i64, year: i32, month: u32, months: i32)
    requires
        input@.len() > 0,
        input@.last() == 'm',
        parse_i32_spec(input@.drop_last()) == Some(months),
        1 <= month <= 12,
        since_spec(input, now, year, month) is Ok,
        year * 12 + month - 1 - months >= 0,
    ensures
        exists|y: int, m: int|
            1 <= m <= 12 && y * 12 + m == year * 12 + month - months && since_spec(
                input,
                now,
                year,
                month,
            ) == Ok::<Seq<char>, SinceError>(signed_decimal(y) + seq!['-'] + pad2(m)
                + "-01T00:00:00Z"@),
{
    let total = year * 12 + month - 1 - months;
    let y = div12_toward_zero(total);
    let m = total - 12 * y + 1;
    assert(y == total / 12);
    assert(1 <= m <= 12 && y * 12 + m == year * 12 + month - months);
}

/// A number with at least two digits.
fn pad2_chars(m: i32) -> (r: Vec<char>)
    ensures
        r@ == pad2(m as int),
{
    if 0 <= m && m < 10 {
        let mut r: Vec<char> = Vec::new();
        r.push('0');
        let d = u64_decimal(m as u64);
        push_all(&mut r, &d);
        r
    } else {
        i64_decimal(m as i64)
    }
}

fn first_of_month(y: i32, m: i32) -> (r: String)
    ensures
        r@ == signed_decimal(y as int) + seq!['-'] + pad2(m as int) + "-01T00:00:00Z"@,
{
    let mut v = i64_decimal(y as i64);
    v.push('-');
    let p = pad2_chars(m);
    push_all(&mut v, &p);
    push_str(&mut v, "-01T00:00:00Z");
    string_of(&v)
}

/// Reads a `--since` value at the instant `now`, with `year` and `month` its UTC year and
/// month.
pub fn parse_since_at(input: &str, now: i64, year: i32, month: u32) -> (r: Result<
    String,
    SinceError,
>)
    requires
        1 <= month <= 12,
    ensures
        match (r, since_spec(input, now, year, month)) {
            (Ok(text), Ok(t)) => text@ == t,
            (Err(e), Err(f)) => e == f,
            _ => false,
        },
{
    let s = chars_of(input);
    let n = s.len();
    if n > 0 && s[n - 1] == 'd' {
        let num = slice_chars(&s, 0, n - 1);
        assert(num@ == input@.drop_last());
        match parse_i64_chars(&num) {
            None => Err(SinceError::InvalidNumber),
            Some(days) => {
                let bound: i64 = i64::MAX / 1000;
                if days < -(bound / 86400) - 1 || days > bound / 86400 + 1 {
                    assert(days * 86400 < -(i64::MAX / 1000) || days * 86400 > i64::MAX / 1000)
                        by (nonlinear_arith)
                        requires
                            days < -(bound / 86400) - 1 || days > bound / 86400 + 1,
                            bound == i64::MAX / 1000,
                    ;
                    return Err(SinceError::OutOfRange);
                }
                let secs: i128 = (days as i128) * 86400;
                let t: i128 = (now as i128) - secs;
                if secs < -(bound as i128) || secs > bound as i128 || t < i64::MIN as i128 || t
                    > i64::MAX as i128 {
                    Err(SinceError::OutOfRange)
                } else {
                    match format_utc(t as i64, "%Y-%m-%dT%H:%M:%SZ") {
                        Some(text) => Ok(text),
                        None => Err(SinceError::OutOfRange),
                    }
                }
            },
        }
    } else if n > 0 && s[n - 1] == 'm' {
        let num = slice_chars(&s, 0, n - 1);
        assert(num@ == input@.drop_last());
        match parse_i32_chars(&num) {
            None => Err(SinceError::InvalidNumber),
            Some(months) => {
                let total: i64 = (year as i64) * 12 + (month as i64) - 1 - (months as i64);
                let y12: i64 = (year as i64) * 12;
                if y12 < i32::MIN as i64 || y12 > i32::MAX as i64 || y12 + (month as i64)
                    > i32::MAX as i64 || y12 + (month as i64) - 1 < i32::MIN as i64 || total
                    < i32::MIN as i64 || total > i32::MAX as i64 {
                    return Err(SinceError::OutOfRange);
                }
                let y: i64 = if total >= 0 {
                    total / 12
                } else {
                    -((-total) / 12)
                };
                let m: i64 = total - 12 * y + 1;
                let r = first_of_month(y as i32, m as i32);
                assert(r@ == signed_decimal(y as int) + seq!['-'] + pad2(m as int) + "-01T00:00:00Z"@);
                assert(y == div12_toward_zero(total as int));
                assert(since_spec(input, now, year, month) == Ok::<Seq<char>, SinceError>(r@));
                Ok(r)
            },
        }
    } else if n > 0 && s[n - 1] == 'y' {
        let num = slice_chars(&s, 0, n - 1);
        assert(num@ == input@.drop_last());
        match parse_i32_chars(&num) {
            None => Err(SinceError::InvalidNumber),
            Some(years) => {
                let y: i64 = (year as i64) - (years as i64);
                if y < i32::MIN as i64 || y > i32::MAX as i64 {
                    return Err(SinceError::OutOfRange);
                }
                let r = first_of_month(y as i32, month as i32);
                assert(since_spec(input, now, year, month) == Ok::<Seq<char>, SinceError>(r@));
                Ok(r)
            },
        }
    } else if input.len() == 7 && n > 4 && s[4] == '-' {
        let mut v = s;
        push_str(&mut v, "-01T00:00:00Z");
        let r = string_of(&v);
        assert(since_spec(input, now, year, month) == Ok::<Seq<char>, SinceError>(r@));
        Ok(r)
    } else if input.len() == 10 {
        let mut v = s;
        push_str(&mut v, "T00:00:00Z");
        let r = string_of(&v);
        assert(since_spec(input, now, year, month) == Ok::<Seq<char>, SinceError>(r@));
        Ok(r)
    } else {
        Ok(string_of(&s))
    }
}

/// Reads a `--since` value: an ISO date (`2026-01-01`), a month (`2026-01`) or a span back
/// from now (`30d`, `3m`, `1y`). Relative values are taken at the current UTC time.
pub fn parse_since(input: &str) -> (r: Result<String, SinceError>)
    ensures
        exists|now: i64, year: i32, month: u32|
            1 <= month <= 12 && crate::time::utc_year_month(now) == Some((year, month)) && match (r, #[trigger] since_spec(input, now, year, month)) {
                (Ok(text), Ok(t)) => text@ == t,
                (Err(e), Err(f)) => e == f,
                _ => false,
            },
{
    let (now, year, month) = utc_now();
    parse_since_at(input, now, year, month)
}

/// The first four bytes of a date, its year, when they end on a character boundary;
/// else `unknown`. This is the name of the yearly file that a record goes to.
pub open spec fn year_bucket_spec(date: &str) -> Seq<char> {
    if date.len() >= 4 && is_char_boundary(date.spec_bytes(), 4) {
        decode_utf8(date.spec_bytes().subrange(0, 4))
    } else {
        "unknown"@
    }
}

/// The yearly file key of a record whose date field holds `date` (`""` when absent).
pub fn year_bucket(date: &str) -> (r: String)
    ensures
        r@ == year_bucket_spec(date),
{
    if date.len() >= 4 && date.is_char_boundary(4) {
        let (head, _) = date.split_at(4);
        proof {
            vstd::utf8::encode_utf8_decode_utf8(head@);
        }
        String::from_str(head)
    } else {
        String::from_str("unknown")
    }
}

/// `s` with every occurrence of `pat` replaced by `rep`, scanning from the left, as
/// `str::replace` does for a non-empty `pat`.
pub open spec fn replace_spec(s: Seq<char>, pat: Seq<char>, rep: Seq<char>) -> Seq<char>
    recommends
        pat.len() > 0,
    decreases s.len(),
{
    if pat.len() == 0 || s.len() < pat.len() {
        s
    } else if s.subrange(0, pat.len() as int) == pat {
        rep + replace_spec(s.subrange(pat.len() as int, s.len() as int), pat, rep)
    } else {
        seq![s[0]] + replace_spec(s.drop_first(), pat, rep)
    }
}

/// `s` with every occurrence of `pat` replaced by `rep`.
pub fn replace_chars(s: &[char], pat: &[char], rep: &[char]) -> (r: Vec<char>)
    requires
        pat@.len() > 0,
    ensures
        r@ == replace_spec(s@, pat@, rep@),
{
    let mut out: Vec<char> = Vec::new();
    let mut i: usize = 0;
    assert(s@.subrange(0, s@.len() as int) == s@);
    assert(out@ + s@ == s@);
    while i < s.len()
        invariant
            i <= s@.len(),
            pat@.len() > 0,
            out@ + replace_spec(s@.subrange(i as int, s@.len() as int), pat@, rep@) == replace_spec(
                s@,
                pat@,
                rep@,
            ),
        decreases s.len() - i,
    {
        let ghost rest = s@.subrange(i as int, s@.len() as int);
        if matches_at(s, pat, i) {
            proof {
                assert(rest.subrange(0, pat@.len() as int) == pat@);
                assert(rest.subrange(pat@.len() as int, rest.len() as int) == s@.subrange(
                    i + pat@.len(),
                    s@.len() as int,
                ));
            }
            push_all(&mut out, rep);
            i += pat.len();
            proof {
                assert(out@ + replace_spec(s@.subrange(i as int, s@.len() as int), pat@, rep@)
                    =~= replace_spec(s@, pat@, rep@));
            }
        } else {
            proof {
                if rest.len() >= pat@.len() {
                    assert(rest.subrange(0, pat@.len() as int) == s@.subrange(
                        i as int,
                        i + pat@.len(),
                    ));
                    assert(rest.subrange(0, pat@.len() as int) != pat@);
                }
                assert(rest.drop_first() == s@.subrange(i + 1, s@.len() as int));
                assert(rest[0] == s@[i as int]);
            }
            out.push(s[i]);
            i += 1;
            proof {
                assert(out@ + replace_spec(s@.subrange(i as int, s@.len() as int), pat@, rep@)
                    =~= replace_spec(s@, pat@, rep@));
            }
        }
    }
    proof {
        assert(s@.subrange(i as int, s@.len() as int) == Seq::<char>::empty());
        assert(out@ + Seq::<char>::empty() == out@);
    }
    out
}

/// The REST state of an issue or pull request: GraphQL's state (`OPEN` when absent)
/// lowered, with `merged` read as `closed`.
pub open spec fn rest_state_spec(state: Option<Seq<char>>) -> Seq<char> {
    replace_spec(
        lowercase(
            match state {
                Some(s) => s,
                None => "open"@,
            },
        ),
        "merged"@,
        "closed"@,
    )
}

/// The REST state of a GraphQL `state` field: an ASCII state lowered letter by letter,
/// with each `merged` in it read as `closed`; `open` when there is none. So `OPEN` gives
/// `open`, and `CLOSED` and `MERGED` give `closed`.
pub fn rest_state(state: Option<&str>) -> (r: String)
    ensures
        r@ == rest_state_spec(
            match state {
                Some(s) => Some(s@),
                None => None,
            },
        ),
        state is None ==> r@ == "open"@,
        state matches Some(s) ==> (is_ascii_seq(s@) ==> r@ == replace_spec(
            s@.map_values(|c: char| ascii_lower_char(c)),
            "merged"@,
            "closed"@,
        )),
        state matches Some(s) ==> (s@ == "OPEN"@ ==> r@ == "open"@),
        state matches Some(s) ==> (s@ == "CLOSED"@ ==> r@ == "closed"@),
        state matches Some(s) ==> (s@ == "MERGED"@ ==> r@ == "closed"@),
{
    let raw = match state {
        Some(s) => chars_of(s),
        None => chars_of("open"),
    };
    proof {
        reveal_strlit("open");
        reveal_strlit("OPEN");
        reveal_strlit("CLOSED");
        reveal_strlit("MERGED");
        if raw@ == "open"@ || raw@ == "OPEN"@ || raw@ == "CLOSED"@ || raw@ == "MERGED"@ {
            assert(is_ascii_seq(raw@));
        }
    }
    let lowered = to_lowercase_chars(&raw);
    let pat = chars_of("merged");
    let rep = chars_of("closed");
    proof {
        reveal_strlit("merged");
    }
    let out = replace_chars(&lowered, &pat, &rep);
    proof {
        if is_ascii_seq(raw@) {
            lemma_known_states(raw@, lowered@);
        }
    }
    string_of(&out)
}

/// How the known GraphQL states, and `open`, are lowered and read.
proof fn lemma_known_states(raw: Seq<char>, lowered: Seq<char>)
    requires
        lowered == raw.map_values(|c: char| ascii_lower_char(c)),
    ensures
        raw == "open"@ || raw == "OPEN"@ ==> replace_spec(lowered, "merged"@, "closed"@)
            == "open"@,
        raw == "CLOSED"@ ==> replace_spec(lowered, "merged"@, "closed"@) == "closed"@,
        raw == "MERGED"@ ==> replace_spec(lowered, "merged"@, "closed"@) == "closed"@,
{
    reveal_strlit("open");
    reveal_strlit("OPEN");
    reveal_strlit("CLOSED");
    reveal_strlit("MERGED");
    reveal_strlit("merged");
    reveal_strlit("closed");
    if raw == "open"@ || raw == "OPEN"@ {
        assert(lowered =~= "open"@);
    }
    if raw == "CLOSED"@ {
        assert(lowered =~= "closed"@);
        assert(lowered.subrange(0, 6)[0] != "merged"@[0]);
        let tail = lowered.drop_first();
        assert(replace_spec(tail, "merged"@, "closed"@) == tail);
        assert(seq![lowered[0]] + tail =~= lowered);
    }
    if raw == "MERGED"@ {
        assert(lowered =~= "merged"@);
        assert(lowered.subrange(0, 6) =~= "merged"@);
        assert(lowered.subrange(6, 6) =~= Seq::<char>::empty());
        assert(replace_spec(Seq::<char>::empty(), "merged"@, "closed"@) == Seq::<char>::empty());
        assert("closed"@ + Seq::<char>::empty() =~= "closed"@);
    }
}

/// The bits of a hash that a database key keeps.
pub const STABLE_ID_MASK: u64 = 0x7FFF_FFFF_FFFF_FFFF;

/// What `stable_id` returns for `node_id`: std's `DefaultHasher` fed the bytes of the text
/// and then `0xff`, as `Hash for str` feeds it, masked to a non-negative `i64`.
pub open spec fn stable_id_spec(node_id: &str) -> i64 {
    (DefaultHasher::spec_finish(seq![node_id.spec_bytes(), seq![0xffu8]]) & STABLE_ID_MASK) as i64
}

/// A stable, non-negative database key for a GraphQL node id.
pub fn stable_id(node_id: &str) -> (r: i64)
    ensures
        r == stable_id_spec(node_id),
        r >= 0,
{
    let mut hasher = DefaultHasher::new();
    hasher.write(node_id.as_bytes());
    let mut tail: Vec<u8> = Vec::new();
    tail.push(0xffu8);
    hasher.write(tail.as_slice());
    let h = hasher.finish();
    proof {
        assert(hasher@ == seq![node_id.spec_bytes(), seq![0xffu8]]);
    }
    let masked = h & STABLE_ID_MASK;
    assert(masked <= 0x7FFF_FFFF_FFFF_FFFFu64) by (bit_vector)
        requires
            masked == h & 0x7FFF_FFFF_FFFF_FFFFu64,
    ;
    masked as i64
}

/// What a page of a GraphQL listing decides.
#[derive(Clone, Copy, PartialEq, Eq, Debug)]
pub enum PageStep {
    /// The request was refused: keep what was collected and stop, with a warning.
    StopOnFailedRequest,
    /// The answer reports errors: keep what was collected and stop, with a warning.
    StopOnErrors,
    /// The answer has no list of nodes: fail.
    MissingNodes,
    /// The page was taken and there is no next one, or it reached the `--since` boundary.
    Done,
    /// The page was taken; fetch the next one.
    Next,
}

/// The decision after a page: a refused request or reported errors stop the listing,
/// an answer without nodes fails it, and otherwise it goes on while there is a next page
/// and the `--since` boundary was not reached.
pub fn page_step(
    request_ok: bool,
    has_errors: bool,
    has_nodes: bool,
    has_next: bool,
    hit_boundary: bool,
) -> (r: PageStep)
    ensures
        !request_ok ==> r == PageStep::StopOnFailedRequest,
        request_ok && has_errors ==> r == PageStep::StopOnErrors,
        request_ok && !has_errors && !has_nodes ==> r == PageStep::MissingNodes,
        request_ok && !has_errors && has_nodes ==> (r == PageStep::Next <==> (has_next
            && !hit_boundary)),
        request_ok && !has_errors && has_nodes ==> (r == PageStep::Done || r == PageStep::Next),
{
    if !request_ok {
        PageStep::StopOnFailedRequest
    } else if has_errors {
        PageStep::StopOnErrors
    } else if !has_nodes {
        PageStep::MissingNodes
    } else if hit_boundary || !has_next {
        PageStep::Done
    } else {
        PageStep::Next
    }
}

/// The nodes of a page that are kept in `--since` mode: those updated at or after
/// `since` (compared as text, which orders ISO timestamps), and whether any node was older.
pub fn split_at_since(updated: &Vec<String>, since: &str) -> (r: (Vec<bool>, bool))
    ensures
        r.0@.len() == updated@.len(),
        forall|i: int| 0 <= i < updated@.len() ==> r.0@[i] == !seq_less(#[trigger] updated@[i]@, since@),
        r.1 == exists|i: int| 0 <= i < updated@.len() && seq_less(#[trigger] updated@[i]@, since@),
{
    let bound = chars_of(since);
    let mut keep: Vec<bool> = Vec::new();
    let mut hit = false;
    let mut i: usize = 0;
    while i < updated.len()
        invariant
            i <= updated@.len(),
            keep@.len() == i,
            bound@ == since@,
            forall|k: int| 0 <= k < i ==> keep@[k] == !seq_less(#[trigger] updated@[k]@, since@),
            hit == exists|k: int| 0 <= k < i && seq_less(#[trigger] updated@[k]@, since@),
        decreases updated.len() - i,
    {
        let u = chars_of(updated[i].as_str());
        let older = less_chars(&u, &bound);
        keep.push(!older);
        if older {
            hit = true;
        }
        i += 1;
    }
    (keep, hit)
}

} // verus!
