//! Colours of the chart series and which accounts are bots.
use crate::text::{chars_of, ends_with_chars, ends_with_seq, text_equal};
use vstd::prelude::*;
use vstd::utf8::encode_utf8;

verus! {

/// The colour of the "closed" series.
pub open spec fn closed_color() -> Seq<char> {
    "#006400"@
}

/// The colour of the "answered" series.
pub open spec fn answered_color() -> Seq<char> {
    "#4C9AFF"@
}

/// The colour of every "created" series.
pub open spec fn created_color() -> Seq<char> {
    "#1a1a1a"@
}

/// The colour of new contributors.
pub open spec fn new_contributor_color() -> Seq<char> {
    "#36B37E"@
}

/// The fifteen colours that series without a colour of their own take in turn.
pub open spec fn palette_spec(i: int) -> Seq<char> {
    if i == 0 {
        "#4C9AFF"@
    } else if i == 1 {
        "#36B37E"@
    } else if i == 2 {
        "#FF8C00"@
    } else if i == 3 {
        "#FF4C4C"@
    } else if i == 4 {
        "#6554C0"@
    } else if i == 5 {
        "#00B8D9"@
    } else if i == 6 {
        "#57D9A3"@
    } else if i == 7 {
        "#FFC400"@
    } else if i == 8 {
        "#FF7452"@
    } else if i == 9 {
        "#998DD9"@
    } else if i == 10 {
        "#79E2F2"@
    } else if i == 11 {
        "#ABF5D1"@
    } else if i == 12 {
        "#FFE380"@
    } else if i == 13 {
        "#FFBDAD"@
    } else {
        "#B3D4FF"@
    }
}

/// The number of colours in the palette.
pub const PALETTE_LEN: usize = 15;

/// The palette colour at `i` modulo its length.
pub fn palette(i: usize) -> (r: String)
    ensures
        r@ == palette_spec((i % PALETTE_LEN) as int),
{
    let k = i % PALETTE_LEN;
    if k == 0 {
        String::from_str("#4C9AFF")
    } else if k == 1 {
        String::from_str("#36B37E")
    } else if k == 2 {
        String::from_str("#FF8C00")
    } else if k == 3 {
        String::from_str("#FF4C4C")
    } else if k == 4 {
        String::from_str("#6554C0")
    } else if k == 5 {
        String::from_str("#00B8D9")
    } else if k == 6 {
        String::from_str("#57D9A3")
    } else if k == 7 {
        String::from_str("#FFC400")
    } else if k == 8 {
        String::from_str("#FF7452")
    } else if k == 9 {
        String::from_str("#998DD9")
    } else if k == 10 {
        String::from_str("#79E2F2")
    } else if k == 11 {
        String::from_str("#ABF5D1")
    } else if k == 12 {
        String::from_str("#FFE380")
    } else if k == 13 {
        String::from_str("#FFBDAD")
    } else {
        String::from_str("#B3D4FF")
    }
}

/// The DJB2 hash of `bytes`: 5381, then times 33 plus each byte, modulo 2^64.
pub open spec fn djb2(bytes: Seq<u8>) -> u64
    decreases bytes.len(),
{
    if bytes.len() == 0 {
        5381
    } else {
        djb2(bytes.drop_last()).wrapping_mul(33).wrapping_add(bytes.last() as u64)
    }
}

/// The colour of the series of label `name`: a fixed one for the labels and issue types
/// that have one, else the palette colour that the DJB2 hash of its UTF-8 bytes picks.
pub open spec fn label_color_spec(name: Seq<char>) -> Seq<char> {
    if name == "type: bug"@ || name == "Bug"@ {
        "#FF4C4C"@
    } else if name == "type: feature"@ || name == "Feature"@ {
        answered_color()
    } else if name == "type: enhancement"@ || name == "Enhancement"@ {
        new_contributor_color()
    } else if name == "type: task"@ || name == "Task"@ {
        "#FFA500"@
    } else if name == "domain: external docs"@ {
        "#afab7e"@
    } else if name == "domain: ci"@ {
        "#d6c720"@
    } else if name == "dependencies"@ || name == "domain: deps"@ {
        "#1f3f18"@
    } else if name == "domain: core"@ {
        "#b50036"@
    } else if name == "domain: sources"@ {
        "#2dbcbc"@
    } else if name == "domain: transforms"@ {
        "#8615bf"@
    } else if name == "domain: sinks"@ {
        "#ad4f47"@
    } else {
        palette_spec(((djb2(encode_utf8(name)) as usize) % PALETTE_LEN) as int)
    }
}

/// The DJB2 hash of the UTF-8 bytes of `name`.
pub fn djb2_hash(name: &str) -> (h: u64)
    ensures
        h == djb2(encode_utf8(name@)),
{
    let bytes = name.as_bytes();
    let mut h: u64 = 5381;
    let mut i: usize = 0;
    while i < bytes.len()
        invariant
            i <= bytes@.len(),
            bytes@ == encode_utf8(name@),
            h == djb2(bytes@.subrange(0, i as int)),
        decreases bytes.len() - i,
    {
        assert(bytes@.subrange(0, i + 1).drop_last() == bytes@.subrange(0, i as int));
        h = h.wrapping_mul(33).wrapping_add(bytes[i] as u64);
        i += 1;
    }
    assert(bytes@.subrange(0, bytes@.len() as int) == bytes@);
    h
}

/// The colour of the series of label `name`.
pub fn label_color(name: &str) -> (r: String)
    ensures
        r@ == label_color_spec(name@),
{
    if text_equal(name, "type: bug") || text_equal(name, "Bug") {
        String::from_str("#FF4C4C")
    } else if text_equal(name, "type: feature") || text_equal(name, "Feature") {
        String::from_str("#4C9AFF")
    } else if text_equal(name, "type: enhancement") || text_equal(name, "Enhancement") {
        String::from_str("#36B37E")
    } else if text_equal(name, "type: task") || text_equal(name, "Task") {
        String::from_str("#FFA500")
    } else if text_equal(name, "domain: external docs") {
        String::from_str("#afab7e")
    } else if text_equal(name, "domain: ci") {
        String::from_str("#d6c720")
    } else if text_equal(name, "dependencies") || text_equal(name, "domain: deps") {
        String::from_str("#1f3f18")
    } else if text_equal(name, "domain: core") {
        String::from_str("#b50036")
    } else if text_equal(name, "domain: sources") {
        String::from_str("#2dbcbc")
    } else if text_equal(name, "domain: transforms") {
        String::from_str("#8615bf")
    } else if text_equal(name, "domain: sinks") {
        String::from_str("#ad4f47")
    } else {
        let h = djb2_hash(name);
        palette((h as usize) % PALETTE_LEN)
    }
}

/// The logins of bots that do not end in `[bot]`.
pub open spec fn is_known_bot(login: Seq<char>) -> bool {
    login == "dependabot"@ || login == "dependabot-preview"@ || login == "renovate"@ || login
        == "handlerbot"@ || login == "step-security-bot"@ || login == "tronboto"@
}

/// Whether `login` is a bot's: it ends in `[bot]` or is one of the known bot logins.
pub open spec fn is_bot_spec(login: Seq<char>) -> bool {
    ends_with_seq(login, "[bot]"@) || is_known_bot(login)
}

/// Whether `login` is a bot's.
pub fn is_bot(login: &str) -> (r: bool)
    ensures
        r == is_bot_spec(login@),
{
    let chars = chars_of(login);
    let suffix = chars_of("[bot]");
    ends_with_chars(&chars, &suffix) || text_equal(login, "dependabot") || text_equal(
        login,
        "dependabot-preview",
    ) || text_equal(login, "renovate") || text_equal(login, "handlerbot") || text_equal(
        login,
        "step-security-bot",
    ) || text_equal(login, "tronboto")
}

} // verus!
