//! Content extraction from `<content>`/CDATA wrappers, and line numbering.

use vstd::prelude::*;
use crate::text::{
    chars_of, dec, dec_chars, extend_chars, find, find_chars, find_from, lemma_find_from_bounds,
    lemma_find_from_first, lemma_find_from_none, lines, lines_chars, match_at, pad_left,
    pad_left_chars, single, slice_chars, string_of, views,
};

verus! {

/// Text of a `content` field: the inside of the first `<![CDATA[...]]>` if there
/// is one, else the inside of the first `<content>...</content>`, else all of
/// `raw`. A missing closing marker takes everything after the opening one.
pub open spec fn content_of(raw: Seq<char>) -> Seq<char> {
    match find(raw, "<![CDATA["@) {
        Some(cs) => {
            let a = cs + "<![CDATA["@.len();
            match find_from(raw, "]]>"@, a) {
                Some(e) => raw.subrange(a, e),
                None => raw.subrange(a, raw.len() as int),
            }
        },
        None => match find(raw, "<content>"@) {
            Some(os) => {
                let a = os + "<content>"@.len();
                match find_from(raw, "</content>"@, a) {
                    Some(e) => raw.subrange(a, e),
                    None => raw.subrange(a, raw.len() as int),
                }
            },
            None => raw,
        },
    }
}

fn inner_after(raw: &[char], open: &str, close: &str) -> (r: Option<Vec<char>>)
    ensures
        r matches Some(v) ==> find(raw@, open@) matches Some(os) && {
            let a = os + open@.len();
            v@ == match find_from(raw@, close@, a) {
                Some(e) => raw@.subrange(a, e),
                None => raw@.subrange(a, raw@.len() as int),
            }
        },
        r is None <==> find(raw@, open@) is None,
{
    let o = chars_of(open);
    let c = chars_of(close);
    match find_chars(raw, &o, 0) {
        None => None,
        Some(os) => {
            let a = os + o.len();
            match find_chars(raw, &c, a) {
                Some(e) => Some(slice_chars(raw, a, e)),
                None => Some(slice_chars(raw, a, raw.len())),
            }
        },
    }
}

/// Extracts the actual text of a `content` argument: CDATA contents first,
/// then `<content>` contents, else the raw text unchanged.
pub fn extract_content(raw: &str) -> (r: String)
    ensures
        r@ == content_of(raw@),
{
    let cs = chars_of(raw);
    match inner_after(&cs, "<![CDATA[", "]]>") {
        Some(v) => string_of(&v),
        None => match inner_after(&cs, "<content>", "</content>") {
            Some(v) => string_of(&v),
            None => string_of(&cs),
        },
    }
}

/// Width of right-aligned line numbers: the digits of the largest line number
/// (at least 1).
pub open spec fn number_width(total_lines: nat) -> nat {
    dec(if total_lines == 0 { 1 } else { total_lines }).len()
}

/// Width of right-aligned line numbers for a text of `total_lines` lines.
pub fn line_number_width(total_lines: usize) -> (w: usize)
    ensures
        w == number_width(total_lines as nat),
{
    let n: u64 = if total_lines == 0 { 1 } else { total_lines as u64 };
    let d = dec_chars(n);
    d.len()
}

/// A numbered line: the number right-aligned in `width`, two spaces, the content.
pub open spec fn numbered(line_no: nat, width: nat, content: Seq<char>) -> Seq<char> {
    pad_left(dec(line_no), width) + "  "@ + content
}

/// Formats one numbered line: `{line_no:>width$}  {content}`.
pub fn format_numbered_line(line_no: usize, width: usize, content: &str) -> (r: String)
    ensures
        r@ == numbered(line_no as nat, width as nat, content@),
{
    let d = dec_chars(line_no as u64);
    let mut v = pad_left_chars(&d, width);
    let sep = chars_of("  ");
    extend_chars(&mut v, &sep);
    let c = chars_of(content);
    extend_chars(&mut v, &c);
    string_of(&v)
}

/// Numbered lines `i..` of `ls`, each followed by a newline.
pub open spec fn numbered_from(ls: Seq<Seq<char>>, width: nat, i: int) -> Seq<char>
    decreases ls.len() - i,
{
    if i < 0 || i >= ls.len() {
        Seq::empty()
    } else {
        numbered((i + 1) as nat, width, ls[i]) + seq!['\n'] + numbered_from(ls, width, i + 1)
    }
}

/// The whole text with 1-based, right-aligned line numbers, one line per line
/// of `content` (as `str::lines` splits it), each ending in a newline.
pub open spec fn numbered_text(content: Seq<char>) -> Seq<char> {
    let ls = lines(content);
    numbered_from(ls, number_width(ls.len()), 0)
}

/// Numbers every line of `content`.
pub fn numbered_lines(content: &str) -> (r: String)
    ensures
        r@ == numbered_text(content@),
{
    let cs = chars_of(content);
    let ls = lines_chars(&cs);
    let ghost lv = views(ls@);
    let width = line_number_width(ls.len());
    let mut out: Vec<char> = Vec::new();
    let mut i: usize = 0;
    while i < ls.len()
        invariant
            i <= ls.len(),
            lv == views(ls@),
            lv == lines(content@),
            width == number_width(lv.len()),
            out@ + numbered_from(lv, width as nat, i as int) == numbered_text(content@),
        decreases ls.len() - i,
    {
        let ghost before = out@;
        let line = string_of(&ls[i]);
        let f = format_numbered_line(i + 1, width, line.as_str());
        let fc = chars_of(f.as_str());
        extend_chars(&mut out, &fc);
        out.push('\n');
        assert(out@ + numbered_from(lv, width as nat, i + 1) =~= before + numbered_from(
            lv,
            width as nat,
            i as int,
        ));
        i = i + 1;
    }
    assert(numbered_from(lv, width as nat, i as int) =~= Seq::<char>::empty());
    assert(out@ =~= numbered_text(content@));
    string_of(&out)
}

proof fn lemma_no_match_inside(raw: Seq<char>, x: Seq<char>, off: int, p: Seq<char>, j: int)
    requires
        find(x, p) is None,
        0 <= off,
        off + x.len() <= raw.len(),
        raw.subrange(off, off + x.len()) == x,
        off <= j,
        j + p.len() <= off + x.len(),
    ensures
        !match_at(raw, p, j),
{
    lemma_find_from_bounds(x, p, 0);
    if match_at(raw, p, j) {
        assert(x.subrange(j - off, j - off + p.len()) =~= raw.subrange(j, j + p.len()));
        assert(match_at(x, p, j - off));
    }
}

/// Text wrapped in `<content>...</content>` comes back unchanged, provided it
/// holds neither a closing `</content>` nor a CDATA opening.
pub proof fn lemma_content_roundtrip(x: Seq<char>)
    requires
        find(x, "</content>"@) is None,
        find(x, "<![CDATA["@) is None,
    ensures
        content_of("<content>"@ + x + "</content>"@) == x,
{
    reveal_strlit("<content>");
    reveal_strlit("</content>");
    reveal_strlit("<![CDATA[");
    let o = "<content>"@;
    let c = "</content>"@;
    let cd = "<![CDATA["@;
    let raw = o + x + c;
    let n = x.len() as int;
    assert(o.len() == 9 && c.len() == 10 && cd.len() == 9);
    assert(raw.subrange(9, 9 + n) =~= x);
    assert forall|j: int| 0 <= j implies !#[trigger] match_at(raw, cd, j) by {
        if match_at(raw, cd, j) {
            assert(raw.subrange(j, j + 9)[0] == raw[j]);
            assert(raw.subrange(j, j + 9)[1] == raw[j + 1]);
            if j < 9 {
                assert(raw[j] == o[j]);
                assert(raw[1] == o[1]);
            } else if j + 9 <= 9 + n {
                lemma_no_match_inside(raw, x, 9, cd, j);
            } else if j < 9 + n {
                let t = 9 + n - j;
                assert(raw.subrange(j, j + 9)[t] == raw[9 + n]);
                assert(raw[9 + n] == c[0]);
            } else {
                assert(raw[j] == c[j - 9 - n]);
                assert(raw[j + 1] == c[j + 1 - 9 - n]);
            }
        }
    }
    lemma_find_from_none(raw, cd, 0);
    assert(raw.subrange(0, 9) =~= o);
    lemma_find_from_first(raw, o, 0, 0);
    assert(raw.subrange(9 + n, 19 + n) =~= c);
    assert forall|j: int| 9 <= j < 9 + n implies !#[trigger] match_at(raw, c, j) by {
        if match_at(raw, c, j) {
            if j + 10 <= 9 + n {
                lemma_no_match_inside(raw, x, 9, c, j);
            } else {
                let t = 9 + n - j;
                assert(raw.subrange(j, j + 10)[t] == raw[9 + n]);
                assert(raw[9 + n] == c[0]);
            }
        }
    }
    lemma_find_from_first(raw, c, 9, 9 + n);
}

/// Text wrapped in `<content><![CDATA[...]]></content>` comes back unchanged,
/// provided it holds no `]]>`.
pub proof fn lemma_cdata_roundtrip(x: Seq<char>)
    requires
        find(x, "]]>"@) is None,
    ensures
        content_of("<content><![CDATA["@ + x + "]]></content>"@) == x,
{
    reveal_strlit("<content><![CDATA[");
    reveal_strlit("]]></content>");
    reveal_strlit("<![CDATA[");
    reveal_strlit("]]>");
    let o = "<content><![CDATA["@;
    let c = "]]></content>"@;
    let cd = "<![CDATA["@;
    let close = "]]>"@;
    let raw = o + x + c;
    let n = x.len() as int;
    assert(o.len() == 18 && c.len() == 13 && cd.len() == 9 && close.len() == 3);
    assert(raw.subrange(18, 18 + n) =~= x);
    assert(raw.subrange(9, 18) =~= cd);
    assert forall|j: int| 0 <= j < 9 implies !#[trigger] match_at(raw, cd, j) by {
        if match_at(raw, cd, j) {
            assert(raw.subrange(j, j + 9)[0] == raw[j]);
            assert(raw.subrange(j, j + 9)[1] == raw[j + 1]);
            assert(raw[j] == o[j]);
            assert(raw[1] == o[1]);
        }
    }
    lemma_find_from_first(raw, cd, 0, 9);
    assert(raw.subrange(18 + n, 21 + n) =~= close);
    assert forall|j: int| 18 <= j < 18 + n implies !#[trigger] match_at(raw, close, j) by {
        if match_at(raw, close, j) {
            if j + 3 <= 18 + n {
                lemma_no_match_inside(raw, x, 18, close, j);
            } else {
                assert(raw.subrange(j, j + 3)[2] == raw[j + 2]);
                if j == 17 + n {
                    assert(raw[j + 2] == c[1]);
                } else {
                    assert(raw[j + 2] == c[0]);
                }
            }
        }
    }
    lemma_find_from_first(raw, close, 18, 18 + n);
}

} // verus!
