//! Web page fetching: HTML-to-text stripping, white-space collapsing and the
//! truncation of the returned body.

use vstd::prelude::*;
use crate::text::{
    byte_len, char_width, char_is_alnum, char_is_ws, char_len_utf8, chars_of, extend_chars, find_chars,
    find_from, is_alnum, is_ws, lemma_byte_len_push, lemma_suffix_step, match_at, matches_at,
    replace_all, replace_chars, single, slice_chars, string_of, trim, trim_chars,
};

verus! {

/// Default number of characters returned.
pub const DEFAULT_MAX_CHARS: usize = 8000;

/// Arguments of a fetch.
pub struct WebFetchArgs {
    /// URL to fetch.
    pub url: String,
    /// Largest number of bytes returned, 8000 by default.
    pub max_chars: Option<usize>,
}

/// Error of a fetch.
pub struct WebFetchError(pub String);

/// The stateless fetch tool.
pub struct WebFetchTool;

impl WebFetchTool {
    pub fn new() -> (t: Self) {
        WebFetchTool
    }
}

/// ASCII letters in lower case, other characters unchanged.
pub open spec fn fold(c: char) -> char {
    if 'A' <= c && c <= 'Z' {
        ((c as u32) + 32) as char
    } else {
        c
    }
}

pub fn fold_char(c: char) -> (r: char)
    ensures
        r == fold(c),
{
    if 'A' <= c && c <= 'Z' {
        ((c as u8) + 32) as char
    } else {
        c
    }
}

/// `s` with ASCII letters in lower case: the text that tags are looked for in.
pub open spec fn folded(s: Seq<char>) -> Seq<char> {
    s.map_values(|c: char| fold(c))
}

/// Closing tag of a `<script` or `<style` block that starts at `i` of the folded
/// text: the tag name must end there (end of text or a non-alphanumeric character).
pub open spec fn block_close(lo: Seq<char>, i: int) -> Option<Seq<char>> {
    if match_at(lo, "<script"@, i) {
        let j = i + "<script"@.len();
        if j < lo.len() && is_alnum(lo[j]) {
            None
        } else {
            Some("</script>"@)
        }
    } else if match_at(lo, "<style"@, i) {
        let j = i + "<style"@.len();
        if j < lo.len() && is_alnum(lo[j]) {
            None
        } else {
            Some("</style>"@)
        }
    } else {
        None
    }
}

/// Text of `h[i..]` with script/style blocks and tags removed; `lo` is the
/// folded `h`. A tag without `>` keeps its `<`.
pub open spec fn strip_from(h: Seq<char>, lo: Seq<char>, i: int) -> Seq<char>
    decreases h.len() - i,
{
    if i < 0 || i >= h.len() || lo.len() != h.len() {
        Seq::empty()
    } else {
        let skip = match block_close(lo, i) {
            Some(close) => match find_from(lo, close, i) {
                Some(pos) => Some(pos + close.len()),
                None => None,
            },
            None => None,
        };
        match skip {
            Some(next) => if i < next <= h.len() {
                strip_from(h, lo, next)
            } else {
                Seq::empty()
            },
            None => if h[i] == '<' {
                match find_from(h, seq!['>'], i) {
                    Some(pos) => if i < pos + 1 <= h.len() {
                        strip_from(h, lo, pos + 1)
                    } else {
                        Seq::empty()
                    },
                    None => seq!['<'] + strip_from(h, lo, i + 1),
                }
            } else {
                seq![h[i]] + strip_from(h, lo, i + 1)
            },
        }
    }
}

/// The common entities decoded, in order: `&amp;` `&lt;` `&gt;` `&quot;` `&#39;` `&nbsp;`.
pub open spec fn decode_entities(s: Seq<char>) -> Seq<char> {
    replace_all(
        replace_all(
            replace_all(
                replace_all(replace_all(replace_all(s, "&amp;"@, "&"@), "&lt;"@, "<"@), "&gt;"@, ">"@),
                "&quot;"@,
                "\""@,
            ),
            "&#39;"@,
            "'"@,
        ),
        "&nbsp;"@,
        " "@,
    )
}

/// White-space collapsing from `s[i..]` on: line breaks become one `\n` (never
/// two in a row), other white-space runs one space before the next visible character.
pub open spec fn collapse_acc(s: Seq<char>, i: int, out: Seq<char>, prev: bool) -> Seq<char>
    decreases s.len() - i,
{
    if i < 0 || i >= s.len() {
        out
    } else {
        let c = s[i];
        if c == '\n' || c == '\r' {
            let o2 = if out.len() > 0 && out.last() == '\n' {
                out
            } else {
                out.push('\n')
            };
            collapse_acc(s, i + 1, o2, false)
        } else if is_ws(c) {
            collapse_acc(s, i + 1, out, true)
        } else {
            let o2 = if prev {
                out.push(' ')
            } else {
                out
            };
            collapse_acc(s, i + 1, o2.push(c), false)
        }
    }
}

/// `s` with white space collapsed and trimmed.
pub open spec fn collapsed(s: Seq<char>) -> Seq<char> {
    trim(collapse_acc(s, 0, Seq::empty(), false))
}

/// Plain text of an HTML page.
pub open spec fn html_text(html: Seq<char>) -> Seq<char> {
    collapsed(decode_entities(strip_from(html, folded(html), 0)))
}

fn block_close_tag(lo: &[char], i: usize) -> (r: Option<Vec<char>>)
    requires
        i < lo.len(),
    ensures
        r matches Some(v) ==> block_close(lo@, i as int) == Some(v@),
        r is None ==> block_close(lo@, i as int) is None,
{
    let sc = chars_of("<script");
    let st = chars_of("<style");
    if matches_at(lo, &sc, i) {
        let j = i + sc.len();
        if j < lo.len() && char_is_alnum(lo[j]) {
            None
        } else {
            Some(chars_of("</script>"))
        }
    } else if matches_at(lo, &st, i) {
        let j = i + st.len();
        if j < lo.len() && char_is_alnum(lo[j]) {
            None
        } else {
            Some(chars_of("</style>"))
        }
    } else {
        None
    }
}

fn strip_tags(h: &[char]) -> (v: Vec<char>)
    ensures
        v@ == strip_from(h@, folded(h@), 0),
{
    let mut lo: Vec<char> = Vec::new();
    let mut k: usize = 0;
    while k < h.len()
        invariant
            k <= h.len(),
            lo@ == folded(h@).subrange(0, k as int),
        decreases h.len() - k,
    {
        lo.push(fold_char(h[k]));
        k = k + 1;
        assert(lo@ =~= folded(h@).subrange(0, k as int));
    }
    assert(lo@ =~= folded(h@));
    let gt = single('>');
    proof {
        reveal_strlit("</script>");
        reveal_strlit("</style>");
    }
    let mut out: Vec<char> = Vec::new();
    let mut i: usize = 0;
    while i < h.len()
        invariant
            i <= h.len(),
            lo@ == folded(h@),
            lo@.len() == h@.len(),
            gt@ == seq!['>'],
            out@ + strip_from(h@, lo@, i as int) == strip_from(h@, lo@, 0),
        decreases h.len() - i,
    {
        let ghost before = out@;
        let mut skipped = false;
        match block_close_tag(&lo, i) {
            Some(close) => {
                proof {
                    reveal_strlit("</script>");
                    reveal_strlit("</style>");
                }
                assert(close@.len() > 0);
                match find_chars(&lo, &close, i) {
                    Some(pos) => {
                        i = pos + close.len();
                        skipped = true;
                    },
                    None => {},
                }
            },
            None => {},
        }
        if !skipped {
            if h[i] == '<' {
                match find_chars(h, &gt, i) {
                    Some(pos) => {
                        i = pos + 1;
                    },
                    None => {
                        out.push('<');
                        assert(out@ + strip_from(h@, lo@, i + 1) =~= before + strip_from(h@, lo@, i as int));
                        i = i + 1;
                    },
                }
            } else {
                out.push(h[i]);
                assert(out@ + strip_from(h@, lo@, i + 1) =~= before + strip_from(h@, lo@, i as int));
                i = i + 1;
            }
        }
    }
    assert(strip_from(h@, lo@, i as int) =~= Seq::<char>::empty());
    assert(out@ =~= strip_from(h@, lo@, 0));
    out
}

fn collapse_chars(s: &[char]) -> (v: Vec<char>)
    ensures
        v@ == collapsed(s@),
{
    let mut out: Vec<char> = Vec::new();
    let mut prev = false;
    let mut i: usize = 0;
    while i < s.len()
        invariant
            i <= s.len(),
            collapse_acc(s@, i as int, out@, prev) == collapse_acc(s@, 0, Seq::empty(), false),
        decreases s.len() - i,
    {
        let c = s[i];
        if c == '\n' || c == '\r' {
            if !(out.len() > 0 && out[out.len() - 1] == '\n') {
                out.push('\n');
            }
            prev = false;
        } else if char_is_ws(c) {
            prev = true;
        } else {
            if prev {
                out.push(' ');
                prev = false;
            }
            out.push(c);
        }
        i = i + 1;
    }
    trim_chars(&out)
}

/// Collapses runs of white space into one space, keeps single line breaks, and
/// trims the result.
pub fn collapse_whitespace(s: &str) -> (r: String)
    ensures
        r@ == collapsed(s@),
{
    let cs = chars_of(s);
    let v = collapse_chars(&cs);
    string_of(&v)
}

/// Plain text of an HTML document: script and style blocks and all tags
/// removed, common entities decoded, white space collapsed.
pub fn strip_html(html: &str) -> (r: String)
    ensures
        r@ == html_text(html@),
{
    let h = chars_of(html);
    let stripped = strip_tags(&h);
    proof {
        reveal_strlit("&amp;");
        reveal_strlit("&lt;");
        reveal_strlit("&gt;");
        reveal_strlit("&quot;");
        reveal_strlit("&#39;");
        reveal_strlit("&nbsp;");
    }
    let d1 = replace_chars(&stripped, &chars_of("&amp;"), &chars_of("&"));
    let d2 = replace_chars(&d1, &chars_of("&lt;"), &chars_of("<"));
    let d3 = replace_chars(&d2, &chars_of("&gt;"), &chars_of(">"));
    let d4 = replace_chars(&d3, &chars_of("&quot;"), &chars_of("\""));
    let d5 = replace_chars(&d4, &chars_of("&#39;"), &chars_of("'"));
    let d6 = replace_chars(&d5, &chars_of("&nbsp;"), &chars_of(" "));
    let v = collapse_chars(&d6);
    string_of(&v)
}

} // verus!

verus! {

/// Number of leading characters of `s` whose UTF-8 encoding fits in `budget` bytes.
pub open spec fn fit_chars(s: Seq<char>, budget: int) -> nat
    decreases s.len(),
{
    if s.len() == 0 || char_width(s[0]) > budget {
        0
    } else {
        1 + fit_chars(s.drop_first(), budget - char_width(s[0]))
    }
}

/// `s` cut to at most `max` bytes at a character boundary.
pub open spec fn cut_bytes(s: Seq<char>, max: nat) -> Seq<char> {
    if byte_len(s) > max {
        s.subrange(0, fit_chars(s, max as int) as int)
    } else {
        s
    }
}

/// The body a fetch returns: the plain text of an HTML page (when the content
/// type mentions `html`), else the body itself, cut to at most `max_chars`
/// bytes (8000 by default, at least 1) at a character boundary.
pub open spec fn fetch_text(content_type: Seq<char>, body: Seq<char>, max_chars: Option<usize>) -> Seq<char> {
    let max = match max_chars {
        Some(m) => if m < 1 { 1 } else { m },
        None => DEFAULT_MAX_CHARS,
    };
    let cleaned = if crate::text::find(crate::text::lower(content_type), "html"@) is Some {
        html_text(body)
    } else {
        body
    };
    cut_bytes(cleaned, max as nat)
}

proof fn lemma_fit_step(s: Seq<char>, i: int, budget: int)
    requires
        0 <= i < s.len(),
    ensures
        fit_chars(s.subrange(i, s.len() as int), budget) == if char_width(s[i]) > budget {
            0
        } else {
            1 + fit_chars(s.subrange(i + 1, s.len() as int), budget - char_width(s[i]))
        },
{
    lemma_suffix_step(s, i);
}

fn cut_chars(s: &[char], max: usize) -> (v: Vec<char>)
    ensures
        v@ == cut_bytes(s@, max as nat),
{
    let mut budget: usize = max;
    let mut i: usize = 0;
    let mut done = false;
    assert(s@.subrange(0, s@.len() as int) =~= s@);
    assert(s@.subrange(0, 0) =~= Seq::<char>::empty());
    while i < s.len() && !done
        invariant
            i <= s.len(),
            budget <= max,
            byte_len(s@.subrange(0, i as int)) + budget == max,
            !done ==> fit_chars(s@, max as int) == i + fit_chars(s@.subrange(i as int, s@.len() as int), budget as int),
            done ==> fit_chars(s@, max as int) == i,
            done ==> i < s.len() && byte_len(s@.subrange(0, i + 1)) > max,
        decreases s.len() - i + if done { 0int } else { 1int },
    {
        proof {
            lemma_fit_step(s@, i as int, budget as int);
            crate::text::lemma_byte_len_prefix_step(s@, i as int);
        }
        let w = char_len_utf8(s[i]);
        if w > budget {
            done = true;
        } else {
            budget = budget - w;
            i = i + 1;
        }
    }
    if done {
        proof {
            crate::text::lemma_byte_len_prefix_mono(s@, i + 1, s@.len() as int);
        }
        slice_chars(s, 0, i)
    } else {
        slice_chars(s, 0, s.len())
    }
}

/// What a fetch returns for a response with `content_type` and `body`.
pub fn fetch_output(content_type: &str, body: &str, max_chars: Option<usize>) -> (r: String)
    ensures
        r@ == fetch_text(content_type@, body@, max_chars),
{
    let max = match max_chars {
        Some(m) => if m < 1 { 1 } else { m },
        None => DEFAULT_MAX_CHARS,
    };
    let lo = crate::text::to_lowercase_string(content_type);
    let loc = chars_of(lo.as_str());
    let html = chars_of("html");
    let cleaned = if find_chars(&loc, &html, 0).is_some() {
        strip_html(body)
    } else {
        crate::text::str_cat(body, "")
    };
    proof {
        reveal_strlit("");
    }
    let cc = chars_of(cleaned.as_str());
    let v = cut_chars(&cc, max);
    string_of(&v)
}

} // verus!
