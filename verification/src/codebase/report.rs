//! The text a code search answers with, and the roots it searches.

use vstd::prelude::*;
use crate::text::{chars_of, dec, dec_chars, extend_chars, strs, string_of, trim, trim_chars};
use crate::text_utils::{format_numbered_line, line_number_width, number_width, numbered};

verus! {

/// A ranked code block as the report shows it. The score arrives already
/// written out (two decimals of the normalised score).
pub struct RankedHit {
    pub display_path: String,
    pub matched_keywords: Vec<String>,
    pub block_lines: Vec<String>,
    pub total_lines: usize,
    /// Line number of the block's first line.
    pub block_start: usize,
    pub score_text: String,
}

/// `ks` joined by `, `.
pub open spec fn joined(ks: Seq<Seq<char>>) -> Seq<char>
    decreases ks.len(),
{
    if ks.len() == 0 {
        Seq::empty()
    } else if ks.len() == 1 {
        ks[0]
    } else {
        joined(ks.drop_last()) + ", "@ + ks.last()
    }
}

/// The numbered lines `ls[i..]` of a block that starts at line `start`,
/// each followed by a newline.
pub open spec fn block_text(ls: Seq<Seq<char>>, start: nat, width: nat, i: int) -> Seq<char>
    decreases ls.len() - i,
{
    if i < 0 || i >= ls.len() {
        Seq::empty()
    } else {
        numbered((start + i) as nat, width, ls[i]) + "\n"@ + block_text(ls, start, width, i + 1)
    }
}

/// The entry of hit `h` at position `i`: number, path, length and score,
/// the matched keywords, then the block with line numbers as wide as the
/// file's longest.
pub open spec fn hit_entry(i: nat, h: RankedHit) -> Seq<char> {
    dec(i + 1) + ". "@ + h.display_path@ + "（共 "@ + dec(h.total_lines as nat) + " 行，得分: "@ + h.score_text@
        + "）\n"@ + "   匹配关键词: "@ + joined(strs(h.matched_keywords@)) + "\n\n"@ + block_text(
        strs(h.block_lines@),
        h.block_start as nat,
        number_width(h.total_lines as nat),
        0,
    ) + "\n"@
}

/// The entries of `hs[i..]`.
pub open spec fn hit_entries(hs: Seq<RankedHit>, i: int) -> Seq<char>
    decreases hs.len() - i,
{
    if i < 0 || i >= hs.len() {
        Seq::empty()
    } else {
        hit_entry(i as nat, hs[i]) + hit_entries(hs, i + 1)
    }
}

/// The reply of a code search for `query` with keywords `kws`: a line
/// saying nothing was found, or a summary line and the ranked blocks, with a
/// note when the scan stopped at the file limit.
pub open spec fn code_search_report(
    query: Seq<char>,
    kws: Seq<Seq<char>>,
    hits: Seq<RankedHit>,
    scanned: nat,
    scan_cap_hit: bool,
) -> Seq<char> {
    if hits.len() == 0 {
        "未找到与「"@ + query + "」相关的代码（共扫描 "@ + dec(scanned) + " 个文件，关键词: "@ + joined(kws) + "）"@
    } else {
        "找到 "@ + dec(hits.len()) + " 个相关代码块（查询：「"@ + query + "」，关键词: "@ + joined(kws) + "）：\n\n"@
            + hit_entries(hits, 0) + (if scan_cap_hit {
            "[已达到扫描文件数上限 20000，部分文件未扫描]"@
        } else {
            Seq::empty()
        })
    }
}

fn push_str(out: &mut Vec<char>, s: &str)
    ensures
        final(out)@ == old(out)@ + s@,
{
    let c = chars_of(s);
    extend_chars(out, &c);
}

fn push_num(out: &mut Vec<char>, n: usize)
    ensures
        final(out)@ == old(out)@ + dec(n as nat),
{
    let d = dec_chars(n as u64);
    extend_chars(out, &d);
}

fn push_joined(out: &mut Vec<char>, ks: &Vec<String>)
    ensures
        final(out)@ == old(out)@ + joined(strs(ks@)),
{
    let ghost start = out@;
    let mut i: usize = 0;
    while i < ks.len()
        invariant
            i <= ks.len(),
            out@ == start + joined(strs(ks@).subrange(0, i as int)),
        decreases ks.len() - i,
    {
        let ghost before = out@;
        let ghost pre = strs(ks@).subrange(0, i as int);
        let ghost cur = strs(ks@).subrange(0, i + 1);
        assert(cur.drop_last() =~= pre);
        assert(cur.last() == ks@[i as int]@);
        if i > 0 {
            push_str(out, ", ");
        }
        push_str(out, ks[i].as_str());
        if i == 0 {
            assert(pre =~= Seq::<Seq<char>>::empty());
            assert(joined(cur) == cur[0]);
        }
        assert(out@ =~= start + joined(cur));
        i = i + 1;
    }
    assert(strs(ks@).subrange(0, ks.len() as int) =~= strs(ks@));
}

fn push_entry(out: &mut Vec<char>, i: usize, h: &RankedHit)
    requires
        i < usize::MAX,
        h.block_start + h.block_lines.len() <= usize::MAX,
    ensures
        final(out)@ == old(out)@ + hit_entry(i as nat, *h),
{
    let ghost start = out@;
    push_num(out, i + 1);
    push_str(out, ". ");
    push_str(out, h.display_path.as_str());
    push_str(out, "（共 ");
    push_num(out, h.total_lines);
    push_str(out, " 行，得分: ");
    push_str(out, h.score_text.as_str());
    push_str(out, "）\n");
    push_str(out, "   匹配关键词: ");
    push_joined(out, &h.matched_keywords);
    push_str(out, "\n\n");
    let ghost mid = out@;
    let width = line_number_width(h.total_lines);
    let ghost ls = strs(h.block_lines@);
    let mut k: usize = h.block_lines.len();
    let mut tail: Vec<char> = Vec::new();
    // Built from the last line back, so that each step prepends one line.
    while k > 0
        invariant
            k <= h.block_lines.len(),
            ls == strs(h.block_lines@),
            width == number_width(h.total_lines as nat),
            h.block_start + h.block_lines.len() <= usize::MAX,
            tail@ == block_text(ls, h.block_start as nat, width as nat, k as int),
        decreases k,
    {
        k = k - 1;
        let mut line = chars_of(format_numbered_line(h.block_start + k, width, h.block_lines[k].as_str()).as_str());
        line.push('\n');
        extend_chars(&mut line, &tail);
        proof {
            assert("\n"@ =~= seq!['\n']) by {
                reveal_strlit("\n");
            }
        }
        assert(line@ =~= numbered((h.block_start + k) as nat, width as nat, ls[k as int]) + "\n"@ + block_text(
            ls,
            h.block_start as nat,
            width as nat,
            k + 1,
        ));
        tail = line;
    }
    extend_chars(out, &tail);
    push_str(out, "\n");
    assert(out@ =~= start + hit_entry(i as nat, *h));
}

/// Writes the reply of a code search (see `code_search_report`).
pub fn render_code_search(
    query: &str,
    kws: &Vec<String>,
    hits: &Vec<RankedHit>,
    scanned: usize,
    scan_cap_hit: bool,
) -> (r: String)
    requires
        forall|i: int| 0 <= i < hits.len() ==> #[trigger] hits@[i].block_start + hits@[i].block_lines.len() <= usize::MAX,
    ensures
        r@ == code_search_report(query@, strs(kws@), hits@, scanned as nat, scan_cap_hit),
{
    let mut out: Vec<char> = Vec::new();
    if hits.len() == 0 {
        push_str(&mut out, "未找到与「");
        push_str(&mut out, query);
        push_str(&mut out, "」相关的代码（共扫描 ");
        push_num(&mut out, scanned);
        push_str(&mut out, " 个文件，关键词: ");
        push_joined(&mut out, kws);
        push_str(&mut out, "）");
        return string_of(&out);
    }
    push_str(&mut out, "找到 ");
    push_num(&mut out, hits.len());
    push_str(&mut out, " 个相关代码块（查询：「");
    push_str(&mut out, query);
    push_str(&mut out, "」，关键词: ");
    push_joined(&mut out, kws);
    push_str(&mut out, "）：\n\n");
    let ghost head = out@;
    let mut i: usize = 0;
    while i < hits.len()
        invariant
            i <= hits.len(),
            forall|j: int| 0 <= j < hits.len() ==> #[trigger] hits@[j].block_start + hits@[j].block_lines.len() <= usize::MAX,
            out@ + hit_entries(hits@, i as int) == head + hit_entries(hits@, 0),
        decreases hits.len() - i,
    {
        let ghost before = out@;
        push_entry(&mut out, i, &hits[i]);
        assert(before + hit_entries(hits@, i as int) =~= out@ + hit_entries(hits@, i + 1));
        i = i + 1;
    }
    if scan_cap_hit {
        push_str(&mut out, "[已达到扫描文件数上限 20000，部分文件未扫描]");
    }
    string_of(&out)
}

/// The roots a search asks for: `None` when no list (or an empty one) is
/// given, so that the workspace is searched; else the given directories,
/// trimmed, with the blank ones left out.
pub open spec fn asked_roots(dirs: Option<Seq<Seq<char>>>) -> Option<Seq<Seq<char>>> {
    match dirs {
        None => None,
        Some(ds) => if ds.len() == 0 {
            None
        } else {
            Some(nonblank_trimmed(ds))
        },
    }
}

/// The trimmed, non-blank items of `ds`, in order.
pub open spec fn nonblank_trimmed(ds: Seq<Seq<char>>) -> Seq<Seq<char>>
    decreases ds.len(),
{
    if ds.len() == 0 {
        Seq::empty()
    } else {
        let r = nonblank_trimmed(ds.drop_last());
        if trim(ds.last()).len() > 0 {
            r.push(trim(ds.last()))
        } else {
            r
        }
    }
}

/// Picks the roots a search asks for (see `asked_roots`).
pub fn search_roots(dirs: &Option<Vec<String>>) -> (r: Option<Vec<String>>)
    ensures
        match r {
            Some(v) => asked_roots(match dirs {
                Some(d) => Some(strs(d@)),
                None => None,
            }) == Some(strs(v@)),
            None => asked_roots(match dirs {
                Some(d) => Some(strs(d@)),
                None => None,
            }) is None,
        },
{
    match dirs {
        None => None,
        Some(ds) => {
            if ds.len() == 0 {
                return None;
            }
            let ghost dv = strs(ds@);
            let mut out: Vec<String> = Vec::new();
            let mut i: usize = 0;
            while i < ds.len()
                invariant
                    i <= ds.len(),
                    dv == strs(ds@),
                    strs(out@) == nonblank_trimmed(dv.subrange(0, i as int)),
                decreases ds.len() - i,
            {
                let ghost pre = dv.subrange(0, i as int);
                let ghost cur = dv.subrange(0, i + 1);
                assert(cur.drop_last() =~= pre);
                assert(cur.last() == ds@[i as int]@);
                let c = chars_of(ds[i].as_str());
                let t = trim_chars(&c);
                if t.len() > 0 {
                    let ghost before = out@;
                    out.push(string_of(&t));
                    assert(strs(out@) =~= strs(before).push(t@));
                }
                i = i + 1;
            }
            assert(dv.subrange(0, ds.len() as int) =~= dv);
            Some(out)
        },
    }
}

} // verus!
