//! HTML escaping and the little Markdown that the data notes use.
use crate::text::{chars_of, push_str, string_of};
use vstd::prelude::*;

verus! {

/// A character as HTML text: `&`, `<`, `>` and `"` escaped, others as they are.
pub open spec fn escape_char(c: char) -> Seq<char> {
    if c == '&' {
        "&amp;"@
    } else if c == '<' {
        "&lt;"@
    } else if c == '>' {
        "&gt;"@
    } else if c == '"' {
        "&quot;"@
    } else {
        seq![c]
    }
}

/// `s` as HTML text.
pub open spec fn html_escape_spec(s: Seq<char>) -> Seq<char>
    decreases s.len(),
{
    if s.len() == 0 {
        Seq::empty()
    } else {
        html_escape_spec(s.drop_last()) + escape_char(s.last())
    }
}

/// Whether `c` is one of the characters that HTML escaping replaces.
pub open spec fn is_markup_char(c: char) -> bool {
    c == '&' || c == '<' || c == '>' || c == '"'
}

proof fn lemma_escape_char_clean(c: char)
    ensures
        forall|i: int|
            0 <= i < escape_char(c).len() ==> {
                let x = #[trigger] escape_char(c)[i];
                x != '<' && x != '>' && x != '"'
            },
{
    reveal_strlit("&amp;");
    reveal_strlit("&lt;");
    reveal_strlit("&gt;");
    reveal_strlit("&quot;");
}

/// Escaped text holds no `<`, `>` or `"`: nothing in it can open a tag or close an
/// attribute.
pub proof fn lemma_escaped_has_no_markup(s: Seq<char>)
    ensures
        forall|i: int|
            0 <= i < html_escape_spec(s).len() ==> {
                let x = #[trigger] html_escape_spec(s)[i];
                x != '<' && x != '>' && x != '"'
            },
    decreases s.len(),
{
    if s.len() > 0 {
        lemma_escaped_has_no_markup(s.drop_last());
        lemma_escape_char_clean(s.last());
        let a = html_escape_spec(s.drop_last());
        let b = escape_char(s.last());
        assert forall|i: int| 0 <= i < html_escape_spec(s).len() implies {
            let x = #[trigger] html_escape_spec(s)[i];
            x != '<' && x != '>' && x != '"'
        } by {
            if i < a.len() {
                assert(html_escape_spec(s)[i] == a[i]);
            } else {
                assert(html_escape_spec(s)[i] == b[i - a.len()]);
            }
        }
    }
}

/// Text without `&`, `<`, `>` or `"` is its own escape.
pub proof fn lemma_plain_text_unchanged(s: Seq<char>)
    requires
        forall|i: int| 0 <= i < s.len() ==> !is_markup_char(#[trigger] s[i]),
    ensures
        html_escape_spec(s) == s,
    decreases s.len(),
{
    if s.len() > 0 {
        lemma_plain_text_unchanged(s.drop_last());
        assert(!is_markup_char(s[s.len() - 1]));
        assert(s.drop_last() + seq![s.last()] =~= s);
    }
}

/// HTML text read back in one pass from left to right: `&amp;`, `&lt;`, `&gt;` and
/// `&quot;` become the character they name, every other character stays.
pub open spec fn html_unescape(s: Seq<char>) -> Seq<char>
    decreases s.len(),
{
    if s.len() == 0 {
        Seq::empty()
    } else if s.len() >= 5 && s.take(5) == "&amp;"@ {
        seq!['&'] + html_unescape(s.skip(5))
    } else if s.len() >= 4 && s.take(4) == "&lt;"@ {
        seq!['<'] + html_unescape(s.skip(4))
    } else if s.len() >= 4 && s.take(4) == "&gt;"@ {
        seq!['>'] + html_unescape(s.skip(4))
    } else if s.len() >= 6 && s.take(6) == "&quot;"@ {
        seq!['"'] + html_unescape(s.skip(6))
    } else {
        seq![s[0]] + html_unescape(s.drop_first())
    }
}

proof fn lemma_escape_first(s: Seq<char>)
    requires
        s.len() > 0,
    ensures
        html_escape_spec(s) == escape_char(s[0]) + html_escape_spec(s.drop_first()),
    decreases s.len(),
{
    if s.len() == 1 {
        assert(s.drop_last() =~= Seq::<char>::empty());
        assert(s.drop_first() =~= Seq::<char>::empty());
        assert(html_escape_spec(s) =~= escape_char(s[0]) + html_escape_spec(s.drop_first()));
    } else {
        let init = s.drop_last();
        lemma_escape_first(init);
        assert(s.drop_first().drop_last() =~= init.drop_first());
        assert(s.drop_first().last() == s.last());
        assert(init[0] == s[0]);
        assert(html_escape_spec(s) =~= escape_char(s[0]) + html_escape_spec(s.drop_first()));
    }
}

proof fn lemma_unescape_char(c: char, rest: Seq<char>)
    ensures
        html_unescape(escape_char(c) + rest) == seq![c] + html_unescape(rest),
{
    reveal_strlit("&amp;");
    reveal_strlit("&lt;");
    reveal_strlit("&gt;");
    reveal_strlit("&quot;");
    let t = escape_char(c) + rest;
    if c == '&' {
        assert(t.take(5) =~= "&amp;"@);
        assert(t.skip(5) =~= rest);
    } else if c == '<' {
        if t.len() >= 5 {
            assert(t.take(5)[1] != "&amp;"@[1]);
        }
        assert(t.take(4) =~= "&lt;"@);
        assert(t.skip(4) =~= rest);
    } else if c == '>' {
        if t.len() >= 5 {
            assert(t.take(5)[1] != "&amp;"@[1]);
        }
        if t.len() >= 4 {
            assert(t.take(4)[1] != "&lt;"@[1]);
        }
        assert(t.take(4) =~= "&gt;"@);
        assert(t.skip(4) =~= rest);
    } else if c == '"' {
        if t.len() >= 5 {
            assert(t.take(5)[1] != "&amp;"@[1]);
        }
        if t.len() >= 4 {
            assert(t.take(4)[1] != "&lt;"@[1]);
        }
        if t.len() >= 4 {
            assert(t.take(4)[1] != "&gt;"@[1]);
        }
        assert(t.take(6) =~= "&quot;"@);
        assert(t.skip(6) =~= rest);
    } else {
        assert(t[0] == c);
        if t.len() >= 5 {
            assert(t.take(5)[0] != "&amp;"@[0]);
        }
        if t.len() >= 4 {
            assert(t.take(4)[0] != "&lt;"@[0]);
            assert(t.take(4)[0] != "&gt;"@[0]);
        }
        if t.len() >= 6 {
            assert(t.take(6)[0] != "&quot;"@[0]);
        }
        assert(t.drop_first() =~= rest);
    }
}

/// Escaping loses nothing: reading the escaped text back in one pass gives the text.
pub proof fn lemma_unescape_escape(s: Seq<char>)
    ensures
        html_unescape(html_escape_spec(s)) == s,
    decreases s.len(),
{
    if s.len() > 0 {
        lemma_escape_first(s);
        lemma_unescape_char(s[0], html_escape_spec(s.drop_first()));
        lemma_unescape_escape(s.drop_first());
        assert(seq![s[0]] + s.drop_first() =~= s);
    }
}

fn push_escaped_char(v: &mut Vec<char>, c: char)
    ensures
        final(v)@ == old(v)@ + escape_char(c),
{
    if c == '&' {
        push_str(v, "&amp;");
    } else if c == '<' {
        push_str(v, "&lt;");
    } else if c == '>' {
        push_str(v, "&gt;");
    } else if c == '"' {
        push_str(v, "&quot;");
    } else {
        v.push(c);
        assert(final(v)@ == old(v)@ + seq![c]);
    }
}

/// Appends `s[from..to]` as HTML text.
pub fn push_escaped(v: &mut Vec<char>, s: &[char], from: usize, to: usize)
    requires
        from <= to <= s@.len(),
    ensures
        final(v)@ == old(v)@ + html_escape_spec(s@.subrange(from as int, to as int)),
{
    let mut i = from;
    while i < to
        invariant
            from <= i <= to <= s@.len(),
            v@ == old(v)@ + html_escape_spec(s@.subrange(from as int, i as int)),
        decreases to - i,
    {
        push_escaped_char(v, s[i]);
        assert(s@.subrange(from as int, i + 1).drop_last() == s@.subrange(from as int, i as int));
        i += 1;
    }
}

/// `s` with `&`, `<`, `>` and `"` escaped for HTML.
pub fn html_escape(s: &str) -> (r: String)
    ensures
        r@ == html_escape_spec(s@),
{
    let chars = chars_of(s);
    let mut v: Vec<char> = Vec::new();
    push_escaped(&mut v, &chars, 0, chars.len());
    assert(chars@.subrange(0, chars@.len() as int) == s@);
    string_of(&v)
}

/// The first place from `i` on where `**` starts, or the length of `s`.
pub open spec fn strong_close(s: Seq<char>, i: int) -> int
    decreases s.len() - i,
{
    if i < 0 || i + 1 >= s.len() {
        s.len() as int
    } else if s[i] == '*' && s[i + 1] == '*' {
        i
    } else {
        strong_close(s, i + 1)
    }
}

/// The first place from `i` on of a backtick, or the length of `s`.
pub open spec fn code_close(s: Seq<char>, i: int) -> int
    decreases s.len() - i,
{
    if i < 0 || i >= s.len() {
        s.len() as int
    } else if s[i] == '`' {
        i
    } else {
        code_close(s, i + 1)
    }
}

/// Where a bold span closes lies between its start and the end of the text.
pub proof fn lemma_strong_close_bounds(s: Seq<char>, i: int)
    requires
        0 <= i <= s.len(),
    ensures
        i <= strong_close(s, i) <= s.len(),
        strong_close(s, i) < s.len() ==> strong_close(s, i) + 1 < s.len(),
    decreases s.len() - i,
{
    if i + 1 < s.len() && !(s[i] == '*' && s[i + 1] == '*') {
        lemma_strong_close_bounds(s, i + 1);
    }
}

/// Where a code span closes lies between its start and the end of the text.
pub proof fn lemma_code_close_bounds(s: Seq<char>, i: int)
    requires
        0 <= i <= s.len(),
    ensures
        i <= code_close(s, i) <= s.len(),
    decreases s.len() - i,
{
    if i < s.len() && s[i] != '`' {
        lemma_code_close_bounds(s, i + 1);
    }
}

/// The inline Markdown of `s` from place `i` on as HTML: `**bold**` becomes `<strong>`,
/// `` `code` `` becomes `<code>` (an unclosed one runs to the end), the rest is escaped.
pub open spec fn md_from(s: Seq<char>, i: int) -> Seq<char>
    decreases s.len() - i,
{
    if i < 0 || i >= s.len() {
        Seq::empty()
    } else if i + 1 < s.len() && s[i] == '*' && s[i + 1] == '*' {
        let j = strong_close(s, i + 2);
        proof {
            lemma_strong_close_bounds(s, i + 2);
        }
        "<strong>"@ + html_escape_spec(s.subrange(i + 2, j)) + "</strong>"@ + md_from(
            s,
            if j < s.len() {
                j + 2
            } else {
                s.len() as int
            },
        )
    } else if s[i] == '`' {
        let j = code_close(s, i + 1);
        proof {
            lemma_code_close_bounds(s, i + 1);
        }
        "<code>"@ + html_escape_spec(s.subrange(i + 1, j)) + "</code>"@ + md_from(
            s,
            if j < s.len() {
                j + 1
            } else {
                s.len() as int
            },
        )
    } else {
        escape_char(s[i]) + md_from(s, i + 1)
    }
}

/// The inline Markdown of `s` as HTML.
pub open spec fn md_inline(s: Seq<char>) -> Seq<char> {
    md_from(s, 0)
}

/// Converts the inline Markdown of `s` to HTML: bold and code spans, the rest escaped.
pub fn inline_md_to_html(s: &str) -> (r: String)
    ensures
        r@ == md_inline(s@),
{
    let c = chars_of(s);
    let n = c.len();
    let mut out: Vec<char> = Vec::new();
    let mut i: usize = 0;
    while i < n
        invariant
            n == c@.len(),
            c@ == s@,
            i <= n,
            md_inline(s@) == out@ + md_from(s@, i as int),
        decreases n - i,
    {
        if i + 1 < n && c[i] == '*' && c[i + 1] == '*' {
            let mut j = i + 2;
            while j < n - 1 && !(c[j] == '*' && c[j + 1] == '*')
                invariant
                    n == c@.len(),
                    i + 2 <= j <= n,
                    strong_close(c@, j as int) == strong_close(c@, i + 2),
                decreases n - j,
            {
                j += 1;
            }
            proof {
                lemma_strong_close_bounds(c@, i + 2);
            }
            let close = if j < n - 1 {
                j
            } else {
                n
            };
            assert(close == strong_close(c@, i + 2));
            push_str(&mut out, "<strong>");
            push_escaped(&mut out, &c, i + 2, close);
            push_str(&mut out, "</strong>");
            i = if close < n {
                close + 2
            } else {
                n
            };
        } else if c[i] == '`' {
            let mut j = i + 1;
            while j < n && c[j] != '`'
                invariant
                    n == c@.len(),
                    i + 1 <= j <= n,
                    code_close(c@, j as int) == code_close(c@, i + 1),
                decreases n - j,
            {
                j += 1;
            }
            proof {
                lemma_code_close_bounds(c@, i + 1);
            }
            assert(j == code_close(c@, i + 1));
            push_str(&mut out, "<code>");
            push_escaped(&mut out, &c, i + 1, j);
            push_str(&mut out, "</code>");
            i = if j < n {
                j + 1
            } else {
                n
            };
        } else {
            push_escaped_char(&mut out, c[i]);
            i += 1;
        }
    }
    string_of(&out)
}

} // verus!
