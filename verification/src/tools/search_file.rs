//! Full-text search of the workspace: arguments, keyword normalisation,
//! per-line matching, context lines and the report.

use vstd::prelude::*;
use crate::text::{
    chars_of, eq_chars, find, find_chars, lines, lines_chars, lower, lower_chars, strs,
    string_of, trim, trim_chars, views,
};

verus! {

/// Arguments of a search.
pub struct SearchFileArgs {
    /// A line matches when it holds any of them (all of them with `match_all`).
    pub keywords: Vec<String>,
    /// Root of the search; the workspace by default.
    pub path: Option<String>,
    pub match_all: Option<bool>,
    pub case_sensitive: Option<bool>,
    /// Most lines reported (300 by default).
    pub max_matches: Option<usize>,
    /// Lines of context around each hit (0 by default, at most 20).
    pub context: Option<usize>,
}

/// A refused or failed call, by its message.
#[derive(Debug)]
pub struct SearchFileError(pub String);

impl SearchFileError {
    /// The text the error shows.
    pub fn message(&self) -> (r: String)
        ensures
            r@ == "search_file error: "@ + self.0@,
    {
        crate::text::str_cat("search_file error: ", self.0.as_str())
    }
}

/// Full-text search over the workspace; `cwd` is the workspace, when one is set.
pub struct SearchFileTool {
    pub cwd: Option<String>,
}

impl SearchFileTool {
    /// Without a workspace.
    pub fn new() -> (t: SearchFileTool)
        ensures
            t.cwd is None,
    {
        SearchFileTool { cwd: None }
    }

    /// With the workspace `cwd`.
    pub fn with_cwd(cwd: String) -> (t: SearchFileTool)
        ensures
            t.cwd == Some(cwd),
    {
        SearchFileTool { cwd: Some(cwd) }
    }
}

} // verus!

verus! {

/// Default most lines reported.
pub const DEFAULT_MAX_MATCHES: usize = 300;
/// Most hit lines taken from one file.
pub const MAX_MATCHES_PER_FILE: usize = 100;
/// Most files scanned.
pub const MAX_SCAN_FILES: usize = 20000;
/// Files larger than this many bytes are skipped.
pub const MAX_FILE_BYTES: u64 = 4194304;
/// Largest context allowed.
pub const MAX_CONTEXT: usize = 20;

/// Generated and dependency directories the search skips.
pub open spec fn skipped_dir_names() -> Seq<&'static str> {
    seq![
        ".git", "node_modules", "target", "dist", "__pycache__", ".venv", "venv",
        ".pytest_cache", ".mypy_cache", ".next", ".turbo", ".nuxt", ".svelte-kit", ".output",
        "coverage",
    ]
}

/// Whether a directory named `name` is skipped.
pub fn is_skipped_dir(name: &str) -> (b: bool)
    ensures
        b == exists|i: int| 0 <= i < skipped_dir_names().len() && (#[trigger] skipped_dir_names()[i])@ == name@,
{
    let list = vec![
        ".git", "node_modules", "target", "dist", "__pycache__", ".venv", "venv",
        ".pytest_cache", ".mypy_cache", ".next", ".turbo", ".nuxt", ".svelte-kit", ".output",
        "coverage",
    ];
    assert(list@ =~= skipped_dir_names());
    let n = chars_of(name);
    let mut i: usize = 0;
    while i < list.len()
        invariant
            i <= list.len(),
            list@ == skipped_dir_names(),
            n@ == name@,
            forall|j: int| 0 <= j < i ==> skipped_dir_names()[j]@ != name@,
        decreases list.len() - i,
    {
        let c = chars_of(list[i]);
        if eq_chars(&c, &n) {
            return true;
        }
        i = i + 1;
    }
    false
}

/// The effective options: case sensitivity, match-all, the most lines
/// reported (at least 1) and the context (at most 20).
pub struct SearchOptions {
    pub case_sensitive: bool,
    pub match_all: bool,
    pub max_matches: usize,
    pub context: usize,
}

/// The options a search runs with.
pub fn search_options(args: &SearchFileArgs) -> (o: SearchOptions)
    ensures
        o.case_sensitive == (args.case_sensitive == Some(true)),
        o.match_all == (args.match_all == Some(true)),
        o.max_matches == match args.max_matches {
            Some(m) => if m < 1 { 1 } else { m },
            None => DEFAULT_MAX_MATCHES,
        },
        o.context == match args.context {
            Some(c) => if c > 20 { 20 } else { c },
            None => 0,
        },
{
    let cs = match args.case_sensitive {
        Some(b) => b,
        None => false,
    };
    let all = match args.match_all {
        Some(b) => b,
        None => false,
    };
    let mx = match args.max_matches {
        Some(m) => if m < 1 { 1 } else { m },
        None => DEFAULT_MAX_MATCHES,
    };
    let ctx = match args.context {
        Some(c) => if c > MAX_CONTEXT { MAX_CONTEXT } else { c },
        None => 0,
    };
    SearchOptions { case_sensitive: cs, match_all: all, max_matches: mx, context: ctx }
}

/// The keywords trimmed, blank ones dropped, lowercased unless the search is
/// case sensitive.
pub open spec fn normalized_keywords(ks: Seq<Seq<char>>, case_sensitive: bool) -> Seq<Seq<char>>
    decreases ks.len(),
{
    if ks.len() == 0 {
        Seq::empty()
    } else {
        let rest = normalized_keywords(ks.drop_last(), case_sensitive);
        let t = trim(ks.last());
        if t.len() == 0 {
            rest
        } else if case_sensitive {
            rest.push(t)
        } else {
            rest.push(lower(t))
        }
    }
}

/// The normalised keywords, or an error when none is left.
pub fn prepare_keywords(keywords: &Vec<String>, case_sensitive: bool) -> (r: Result<Vec<String>, SearchFileError>)
    ensures
        r is Ok <==> normalized_keywords(strs(keywords@), case_sensitive).len() > 0,
        r matches Ok(v) ==> strs(v@) == normalized_keywords(strs(keywords@), case_sensitive),
        r matches Err(e) ==> e.0@ == "keywords 不能为空：请至少提供一个关键词"@,
{
    let ghost kv = strs(keywords@);
    let mut out: Vec<String> = Vec::new();
    let mut i: usize = 0;
    while i < keywords.len()
        invariant
            i <= keywords.len(),
            kv == strs(keywords@),
            strs(out@) == normalized_keywords(kv.subrange(0, i as int), case_sensitive),
        decreases keywords.len() - i,
    {
        let ghost before = out@;
        assert(kv.subrange(0, i + 1).drop_last() =~= kv.subrange(0, i as int));
        assert(kv.subrange(0, i + 1).last() == keywords@[i as int]@);
        let cs = chars_of(keywords[i].as_str());
        let t = trim_chars(&cs);
        if t.len() > 0 {
            if case_sensitive {
                out.push(string_of(&t));
            } else {
                let lo = lower_chars(&t);
                out.push(string_of(&lo));
            }
            assert(strs(out@) =~= strs(before).push(strs(out@).last()));
        }
        i = i + 1;
    }
    assert(kv.subrange(0, kv.len() as int) =~= kv);
    if out.len() == 0 {
        return Err(SearchFileError("keywords 不能为空：请至少提供一个关键词".to_string()));
    }
    Ok(out)
}

/// `k` occurs in `h` (`str::contains`).
pub open spec fn contains_text(h: Seq<char>, k: Seq<char>) -> bool {
    find(h, k) is Some
}

/// Whether a line matches: it holds all keywords (with `match_all`) or any
/// of them, compared in lower case unless the search is case sensitive.
pub open spec fn line_matches(line: Seq<char>, kws: Seq<Seq<char>>, case_sensitive: bool, match_all: bool) -> bool {
    let h = if case_sensitive { line } else { lower(line) };
    if match_all {
        forall|i: int| 0 <= i < kws.len() ==> contains_text(h, #[trigger] kws[i])
    } else {
        exists|i: int| 0 <= i < kws.len() && contains_text(h, #[trigger] kws[i])
    }
}

fn matches_line(line: &[char], kws: &Vec<Vec<char>>, case_sensitive: bool, match_all: bool) -> (b: bool)
    ensures
        b == line_matches(line@, views(kws@), case_sensitive, match_all),
{
    let h = if case_sensitive {
        crate::text::slice_chars(line, 0, line.len())
    } else {
        lower_chars(line)
    };
    assert(line@.subrange(0, line@.len() as int) =~= line@);
    let ghost kv = views(kws@);
    let mut i: usize = 0;
    while i < kws.len()
        invariant
            i <= kws.len(),
            kv == views(kws@),
            h@ == if case_sensitive { line@ } else { lower(line@) },
            match_all ==> forall|j: int| 0 <= j < i ==> contains_text(h@, #[trigger] kv[j]),
            !match_all ==> forall|j: int| 0 <= j < i ==> !contains_text(h@, #[trigger] kv[j]),
        decreases kws.len() - i,
    {
        let found = find_chars(&h, &kws[i], 0).is_some();
        assert(kv[i as int] == kws@[i as int]@);
        if match_all && !found {
            return false;
        }
        if !match_all && found {
            return true;
        }
        i = i + 1;
    }
    match_all
}

/// Line numbers (from 1) of the lines of `ls` from position `i` on that match.
pub open spec fn hits_from(ls: Seq<Seq<char>>, kws: Seq<Seq<char>>, cs: bool, all: bool, i: int) -> Seq<nat>
    decreases ls.len() - i,
{
    if i < 0 || i >= ls.len() {
        Seq::empty()
    } else if line_matches(ls[i], kws, cs, all) {
        seq![(i + 1) as nat] + hits_from(ls, kws, cs, all, i + 1)
    } else {
        hits_from(ls, kws, cs, all, i + 1)
    }
}

/// The numbers of the first 100 matching lines.
pub open spec fn file_hits(ls: Seq<Seq<char>>, kws: Seq<Seq<char>>, cs: bool, all: bool) -> Seq<nat> {
    let h = hits_from(ls, kws, cs, all, 0);
    if h.len() <= 100 { h } else { h.subrange(0, 100) }
}

} // verus!

verus! {

/// The numbers of the first 100 lines of `lines` that match (see `line_matches`).
pub fn hit_lines(lines: &Vec<Vec<char>>, kws: &Vec<Vec<char>>, case_sensitive: bool, match_all: bool) -> (r: Vec<usize>)
    ensures
        r@.map_values(|n: usize| n as nat) == file_hits(views(lines@), views(kws@), case_sensitive, match_all),
{
    let ghost lv = views(lines@);
    let ghost kv = views(kws@);
    let ghost all = hits_from(lv, kv, case_sensitive, match_all, 0);
    let mut out: Vec<usize> = Vec::new();
    let mut i: usize = 0;
    while i < lines.len()
        invariant
            i <= lines.len(),
            lv == views(lines@),
            kv == views(kws@),
            all == hits_from(lv, kv, case_sensitive, match_all, 0),
            out@.len() < 100,
            out@.map_values(|n: usize| n as nat) + hits_from(lv, kv, case_sensitive, match_all, i as int) == all,
        decreases lines.len() - i,
    {
        let ghost before = out@;
        assert(lv[i as int] == lines@[i as int]@);
        if matches_line(&lines[i], kws, case_sensitive, match_all) {
            out.push(i + 1);
            assert(out@.map_values(|n: usize| n as nat) =~= before.map_values(|n: usize| n as nat).push((i + 1) as nat));
            if out.len() >= MAX_MATCHES_PER_FILE {
                proof {
                    let m = out@.map_values(|n: usize| n as nat);
                    assert(m + hits_from(lv, kv, case_sensitive, match_all, i + 1) =~= all);
                    assert(all.subrange(0, 100) =~= m);
                }
                return out;
            }
        }
        i = i + 1;
    }
    assert(out@.map_values(|n: usize| n as nat) =~= all);
    out
}

/// First line of the window around hit `n`.
pub open spec fn window_lo(n: nat, ctx: nat) -> nat {
    if n >= ctx + 1 { (n - ctx) as nat } else { 1 }
}

/// Last line of the window around hit `n`.
pub open spec fn window_hi(n: nat, ctx: nat, total: nat) -> nat {
    if n + ctx <= total { n + ctx } else { total }
}

/// Line `m` lies in the window of some hit.
pub open spec fn covered(hits: Seq<nat>, ctx: nat, total: nat, m: nat) -> bool {
    exists|i: int| 0 <= i < hits.len() && window_lo(#[trigger] hits[i], ctx) <= m <= window_hi(hits[i], ctx, total)
}

/// Lines `m..=total` that some window covers, each flagged when it is a hit.
pub open spec fn shown_from(hits: Seq<nat>, ctx: nat, total: nat, m: nat) -> Seq<(nat, bool)>
    decreases total + 1 - m,
{
    if m > total {
        Seq::empty()
    } else if covered(hits, ctx, total, m) {
        seq![(m, hits.contains(m))] + shown_from(hits, ctx, total, m + 1)
    } else {
        shown_from(hits, ctx, total, m + 1)
    }
}

/// The lines a file shows: its hits alone without context, else every line
/// within `ctx` lines of a hit, in order, the hits flagged.
pub open spec fn shown_lines(hits: Seq<nat>, ctx: nat, total: nat) -> Seq<(nat, bool)> {
    if ctx == 0 {
        hits.map_values(|n: nat| (n, true))
    } else {
        shown_from(hits, ctx, total, 1)
    }
}

pub open spec fn pair_views(v: Seq<(usize, bool)>) -> Seq<(nat, bool)> {
    v.map_values(|p: (usize, bool)| (p.0 as nat, p.1))
}

pub open spec fn nat_views(v: Seq<usize>) -> Seq<nat> {
    v.map_values(|n: usize| n as nat)
}

fn is_covered(hits: &Vec<usize>, ctx: usize, total: usize, m: usize) -> (b: bool)
    ensures
        b == covered(nat_views(hits@), ctx as nat, total as nat, m as nat),
{
    let ghost hv = nat_views(hits@);
    let mut i: usize = 0;
    while i < hits.len()
        invariant
            i <= hits.len(),
            hv == nat_views(hits@),
            forall|j: int| 0 <= j < i ==> !(window_lo(#[trigger] hv[j], ctx as nat) <= m <= window_hi(hv[j], ctx as nat, total as nat)),
        decreases hits.len() - i,
    {
        let n = hits[i];
        let lo = if n > ctx { n - ctx } else { 1 };
        let hi = if n <= total && ctx <= total - n { n + ctx } else { total };
        assert(hv[i as int] == n as nat);
        if lo <= m && m <= hi {
            return true;
        }
        i = i + 1;
    }
    false
}

fn has_line(hits: &Vec<usize>, m: usize) -> (b: bool)
    ensures
        b == nat_views(hits@).contains(m as nat),
{
    let ghost hv = nat_views(hits@);
    let mut i: usize = 0;
    while i < hits.len()
        invariant
            i <= hits.len(),
            hv == nat_views(hits@),
            forall|j: int| 0 <= j < i ==> hv[j] != m as nat,
        decreases hits.len() - i,
    {
        assert(hv[i as int] == hits@[i as int] as nat);
        if hits[i] == m {
            return true;
        }
        i = i + 1;
    }
    false
}

/// The lines a file shows (see `shown_lines`).
pub fn show_lines(hits: &Vec<usize>, ctx: usize, total: usize) -> (r: Vec<(usize, bool)>)
    ensures
        pair_views(r@) == shown_lines(nat_views(hits@), ctx as nat, total as nat),
{
    let ghost hv = nat_views(hits@);
    let mut out: Vec<(usize, bool)> = Vec::new();
    if ctx == 0 {
        let mut i: usize = 0;
        while i < hits.len()
            invariant
                i <= hits.len(),
                hv == nat_views(hits@),
                out@.len() == i,
                forall|k: int| 0 <= k < i ==> #[trigger] out@[k] == (hits@[k], true),
            decreases hits.len() - i,
        {
            out.push((hits[i], true));
            i = i + 1;
        }
        assert(pair_views(out@) =~= hv.map_values(|n: nat| (n, true)));
        return out;
    }
    let mut m: usize = 1;
    assert(pair_views(out@) + shown_from(hv, ctx as nat, total as nat, 1) =~= shown_lines(hv, ctx as nat, total as nat));
    while m <= total
        invariant
            1 <= m,
            ctx > 0,
            m <= total + 1,
            hv == nat_views(hits@),
            pair_views(out@) + shown_from(hv, ctx as nat, total as nat, m as nat) == shown_lines(hv, ctx as nat, total as nat),
        decreases total + 1 - m,
    {
        let ghost before = out@;
        if is_covered(hits, ctx, total, m) {
            let h = has_line(hits, m);
            out.push((m, h));
            assert(pair_views(out@) =~= pair_views(before).push((m as nat, h)));
        }
        assert(pair_views(out@) + shown_from(hv, ctx as nat, total as nat, (m + 1) as nat) =~= pair_views(before) + shown_from(hv, ctx as nat, total as nat, m as nat));
        if m == total {
            assert(shown_from(hv, ctx as nat, total as nat, (m + 1) as nat) =~= Seq::<(nat, bool)>::empty());
            assert(pair_views(out@) =~= shown_lines(hv, ctx as nat, total as nat));
            return out;
        }
        m = m + 1;
    }
    assert(shown_from(hv, ctx as nat, total as nat, m as nat) =~= Seq::<(nat, bool)>::empty());
    assert(pair_views(out@) =~= shown_lines(hv, ctx as nat, total as nat));
    out
}

} // verus!

verus! {

/// The matches of one file: how it is shown, its line count, its lines, and
/// the lines to show, each flagged when it is a hit.
pub struct FileHits {
    pub display: String,
    pub total_lines: usize,
    pub lines: Vec<String>,
    pub show: Vec<(usize, bool)>,
}

/// What a file's matches are, as the contracts see them.
pub struct BlockModel {
    pub display: Seq<char>,
    pub total: nat,
    pub lines: Seq<Seq<char>>,
    pub show: Seq<(nat, bool)>,
}

impl View for FileHits {
    type V = BlockModel;

    open spec fn view(&self) -> BlockModel {
        BlockModel {
            display: self.display@,
            total: self.total_lines as nat,
            lines: strs(self.lines@),
            show: pair_views(self.show@),
        }
    }
}

pub open spec fn block_views(v: Seq<FileHits>) -> Seq<BlockModel> {
    v.map_values(|b: FileHits| b@)
}

/// The matches of a file with text `text`: `None` when no line matches.
pub open spec fn file_matches(display: Seq<char>, text: Seq<char>, kws: Seq<Seq<char>>, opts: SearchOptions) -> Option<BlockModel> {
    let ls = lines(text);
    let hits = file_hits(ls, kws, opts.case_sensitive, opts.match_all);
    if hits.len() == 0 {
        None
    } else {
        Some(BlockModel {
            display,
            total: ls.len(),
            lines: ls,
            show: shown_lines(hits, opts.context as nat, ls.len()),
        })
    }
}

/// Matches the lines of one file's text (see `file_matches`).
pub fn file_block(display: String, text: &str, kws: &Vec<String>, opts: &SearchOptions) -> (r: Option<FileHits>)
    ensures
        r matches Some(b) ==> file_matches(display@, text@, strs(kws@), *opts) == Some(b@),
        r is None ==> file_matches(display@, text@, strs(kws@), *opts) is None,
{
    let cs = chars_of(text);
    let ls = lines_chars(&cs);
    let mut kv: Vec<Vec<char>> = Vec::new();
    let mut i: usize = 0;
    while i < kws.len()
        invariant
            i <= kws.len(),
            views(kv@) == strs(kws@).subrange(0, i as int),
        decreases kws.len() - i,
    {
        let ghost before = kv@;
        kv.push(chars_of(kws[i].as_str()));
        assert(views(kv@) =~= views(before).push(kws@[i as int]@));
        assert(strs(kws@).subrange(0, i + 1) =~= strs(kws@).subrange(0, i as int).push(kws@[i as int]@));
        i = i + 1;
    }
    assert(strs(kws@).subrange(0, kws@.len() as int) =~= strs(kws@));
    let hits = hit_lines(&ls, &kv, opts.case_sensitive, opts.match_all);
    if hits.len() == 0 {
        return None;
    }
    let total = ls.len();
    let show = show_lines(&hits, opts.context, total);
    let mut lines: Vec<String> = Vec::new();
    let mut k: usize = 0;
    while k < ls.len()
        invariant
            k <= ls.len(),
            strs(lines@) == views(ls@).subrange(0, k as int),
        decreases ls.len() - k,
    {
        let ghost before = lines@;
        lines.push(string_of(&ls[k]));
        assert(strs(lines@) =~= strs(before).push(ls@[k as int]@));
        assert(views(ls@).subrange(0, k + 1) =~= views(ls@).subrange(0, k as int).push(ls@[k as int]@));
        k = k + 1;
    }
    assert(views(ls@).subrange(0, ls@.len() as int) =~= views(ls@));
    assert(nat_views(hits@) == hits@.map_values(|n: usize| n as nat));
    Some(FileHits { display, total_lines: total, lines, show })
}

/// Text of a shown line `n`: the line itself when it exists, else nothing.
pub open spec fn line_text(lines: Seq<Seq<char>>, n: nat) -> Seq<char> {
    let idx: int = if n >= 1 { n - 1 } else { 0 };
    if idx < lines.len() { lines[idx] } else { Seq::empty() }
}

/// A shown line: a hit numbered as in `read_file`, a context line marked `·`.
pub open spec fn shown_line(lines: Seq<Seq<char>>, n: nat, hit: bool, width: nat) -> Seq<char> {
    let content = line_text(lines, n);
    if hit {
        crate::text_utils::numbered(n, width, content)
    } else {
        "· "@ + crate::text::pad_left(crate::text::dec(n), width) + "  "@ + content
    }
}

/// Lines `j..` of a block, starting with `shown` lines already written and
/// stopping once `max` are: the text, the new count, and whether it stopped early.
pub open spec fn block_lines(lines: Seq<Seq<char>>, show: Seq<(nat, bool)>, width: nat, j: nat, shown: nat, max: nat) -> (Seq<char>, nat, bool)
    decreases show.len() - j,
{
    if j >= show.len() {
        (Seq::empty(), shown, false)
    } else if shown >= max {
        (Seq::empty(), shown, true)
    } else {
        let r = block_lines(lines, show, width, j + 1, shown + 1, max);
        (shown_line(lines, show[j as int].0, show[j as int].1, width) + seq!['\n'] + r.0, r.1, r.2)
    }
}

/// The header of a block.
pub open spec fn block_header(b: BlockModel) -> Seq<char> {
    "path: "@ + b.display + "（共 "@ + crate::text::dec(b.total) + " 行）\n"@
}

/// Blocks `k..` with `shown` lines already written: the text, the count, and
/// whether it stopped early.
pub open spec fn render_blocks(bs: Seq<BlockModel>, k: nat, shown: nat, max: nat) -> (Seq<char>, nat, bool)
    decreases bs.len() - k,
{
    if k >= bs.len() {
        (Seq::empty(), shown, false)
    } else if shown >= max {
        (Seq::empty(), shown, true)
    } else {
        let b = bs[k as int];
        let inner = block_lines(b.lines, b.show, crate::text_utils::number_width(b.total), 0, shown, max);
        let r = render_blocks(bs, k + 1, inner.1, max);
        (block_header(b) + inner.0 + r.0, r.1, inner.2 || r.2)
    }
}

} // verus!

verus! {

fn push_str_chars(out: &mut Vec<char>, s: &str)
    ensures
        final(out)@ == old(out)@ + s@,
{
    let c = chars_of(s);
    crate::text::extend_chars(out, &c);
}

fn push_num(out: &mut Vec<char>, n: usize)
    ensures
        final(out)@ == old(out)@ + crate::text::dec(n as nat),
{
    let d = crate::text::dec_chars(n as u64);
    crate::text::extend_chars(out, &d);
}

fn shown_line_chars(b: &FileHits, n: usize, hit: bool, width: usize) -> (v: Vec<char>)
    ensures
        v@ == shown_line(strs(b.lines@), n as nat, hit, width as nat),
{
    let idx: usize = if n >= 1 { n - 1 } else { 0 };
    let content: Vec<char> = if idx < b.lines.len() {
        chars_of(b.lines[idx].as_str())
    } else {
        Vec::new()
    };
    assert(content@ == line_text(strs(b.lines@), n as nat));
    if hit {
        let cstr = string_of(&content);
        let f = crate::text_utils::format_numbered_line(n, width, cstr.as_str());
        chars_of(f.as_str())
    } else {
        let mut v: Vec<char> = Vec::new();
        push_str_chars(&mut v, "· ");
        let d = crate::text::dec_chars(n as u64);
        let p = crate::text::pad_left_chars(&d, width);
        crate::text::extend_chars(&mut v, &p);
        push_str_chars(&mut v, "  ");
        crate::text::extend_chars(&mut v, &content);
        v
    }
}

fn render_block(b: &FileHits, shown0: usize, max: usize) -> (r: (Vec<char>, usize, bool))
    ensures
        (r.0@, r.1 as nat, r.2) == block_lines(
            b@.lines,
            b@.show,
            crate::text_utils::number_width(b@.total),
            0,
            shown0 as nat,
            max as nat,
        ),
{
    let width = crate::text_utils::line_number_width(b.total_lines);
    let ghost w = crate::text_utils::number_width(b@.total);
    let ghost full = block_lines(b@.lines, b@.show, w, 0, shown0 as nat, max as nat);
    let mut body: Vec<char> = Vec::new();
    let mut shown = shown0;
    let mut j: usize = 0;
    while j < b.show.len()
        invariant
            j <= b.show.len(),
            w == crate::text_utils::number_width(b@.total),
            full == block_lines(b@.lines, b@.show, w, 0, shown0 as nat, max as nat),
            width == w,
            shown <= shown0 + j,
            full == ({
                let rest = block_lines(b@.lines, b@.show, w, j as nat, shown as nat, max as nat);
                (body@ + rest.0, rest.1, rest.2)
            }),
        decreases b.show.len() - j,
    {
        if shown >= max {
            assert(b@.show.len() == b.show@.len());
            assert(block_lines(b@.lines, b@.show, w, j as nat, shown as nat, max as nat) == (
            Seq::<char>::empty(), shown as nat, true));
            assert(body@ + Seq::<char>::empty() =~= body@);
            return (body, shown, true);
        }
        let (n, hit) = b.show[j];
        assert(b@.show[j as int] == (n as nat, hit));
        let line = shown_line_chars(b, n, hit, width);
        let ghost before = body@;
        crate::text::extend_chars(&mut body, &line);
        body.push('\n');
        assert(body@ =~= before + line@ + seq!['\n']);
        shown = shown + 1;
        j = j + 1;
    }
    (body, shown, false)
}

/// Renders the blocks, at most `max` lines in all: the text, the lines
/// written, and whether it stopped early.
pub fn render_file_hits(blocks: &Vec<FileHits>, max: usize) -> (r: (Vec<char>, usize, bool))
    ensures
        (r.0@, r.1 as nat, r.2) == render_blocks(block_views(blocks@), 0, 0, max as nat),
{
    let ghost bs = block_views(blocks@);
    let ghost full = render_blocks(bs, 0, 0, max as nat);
    let mut out: Vec<char> = Vec::new();
    let mut shown: usize = 0;
    let mut truncated = false;
    let mut k: usize = 0;
    while k < blocks.len()
        invariant
            k <= blocks.len(),
            bs == block_views(blocks@),
            full == render_blocks(bs, 0, 0, max as nat),
            full == ({
                let rest = render_blocks(bs, k as nat, shown as nat, max as nat);
                (out@ + rest.0, rest.1, truncated || rest.2)
            }),
        decreases blocks.len() - k,
    {
        if shown >= max {
            assert(bs.len() == blocks@.len());
            assert(render_blocks(bs, k as nat, shown as nat, max as nat) == (
            Seq::<char>::empty(), shown as nat, true));
            assert(out@ + Seq::<char>::empty() =~= out@);
            return (out, shown, true);
        }
        let b = &blocks[k];
        assert(bs[k as int] == b@);
        let ghost before = out@;
        push_str_chars(&mut out, "path: ");
        push_str_chars(&mut out, b.display.as_str());
        push_str_chars(&mut out, "（共 ");
        push_num(&mut out, b.total_lines);
        push_str_chars(&mut out, " 行）\n");
        assert(out@ =~= before + block_header(b@));
        let (body, s1, t1) = render_block(b, shown, max);
        crate::text::extend_chars(&mut out, &body);
        shown = s1;
        if t1 {
            truncated = true;
        }
        k = k + 1;
    }
    (out, shown, truncated)
}

/// `n`, or the largest `usize` when it does not fit.
pub open spec fn capped(n: nat) -> nat {
    if n > usize::MAX { usize::MAX as nat } else { n }
}

/// Lines shown in all, context lines included.
pub open spec fn total_shown(bs: Seq<BlockModel>) -> nat
    decreases bs.len(),
{
    if bs.len() == 0 { 0 } else { total_shown(bs.drop_last()) + bs.last().show.len() }
}

/// How a keyword is named in the report.
pub open spec fn keyword_label(k: Seq<char>, case_sensitive: bool) -> Seq<char> {
    if case_sensitive { k } else { k + "（不区分大小写）"@ }
}

/// The keywords' labels joined by `、`.
pub open spec fn keyword_display(ks: Seq<Seq<char>>, case_sensitive: bool) -> Seq<char>
    decreases ks.len(),
{
    if ks.len() == 0 {
        Seq::empty()
    } else if ks.len() == 1 {
        keyword_label(ks[0], case_sensitive)
    } else {
        keyword_display(ks.drop_last(), case_sensitive) + "、"@ + keyword_label(ks.last(), case_sensitive)
    }
}

/// The report of a search over `scanned` files.
pub open spec fn search_report(bs: Seq<BlockModel>, kws: Seq<Seq<char>>, opts: SearchOptions, scanned: nat, scan_cap_hit: bool) -> Seq<char> {
    let kd = keyword_display(kws, opts.case_sensitive);
    if bs.len() == 0 {
        "未找到包含关键词 ["@ + kd + "] 的匹配行（共扫描 "@ + crate::text::dec(scanned) + " 个文件）"@
    } else {
        let r = render_blocks(bs, 0, 0, opts.max_matches as nat);
        "搜索完成：关键词 ["@ + kd + "]，共扫描 "@ + crate::text::dec(scanned) + " 个文件，"@
            + crate::text::dec(bs.len()) + " 个文件命中 "@ + crate::text::dec(capped(total_shown(bs)))
            + " 处，输出 "@ + crate::text::dec(r.1) + " 行（context="@ + crate::text::dec(opts.context as nat) + "）：\n"@
            + (if r.2 {
            "[已达最大显示行数 "@ + crate::text::dec(opts.max_matches as nat) + "，剩余命中已省略；可缩小关键词范围或增大 max_matches]"@
        } else {
            Seq::empty()
        }) + (if scan_cap_hit {
            "[已达到扫描文件数上限 20000，部分文件未扫描]"@
        } else {
            Seq::empty()
        }) + r.0
    }
}

fn keyword_display_chars(kws: &Vec<String>, case_sensitive: bool) -> (v: Vec<char>)
    ensures
        v@ == keyword_display(strs(kws@), case_sensitive),
{
    let ghost kv = strs(kws@);
    let mut out: Vec<char> = Vec::new();
    let mut i: usize = 0;
    while i < kws.len()
        invariant
            i <= kws.len(),
            kv == strs(kws@),
            out@ == keyword_display(kv.subrange(0, i as int), case_sensitive),
        decreases kws.len() - i,
    {
        let ghost before = out@;
        let ghost sub = kv.subrange(0, i + 1);
        assert(sub.drop_last() =~= kv.subrange(0, i as int));
        assert(sub.last() == kws@[i as int]@);
        if i > 0 {
            push_str_chars(&mut out, "、");
        }
        push_str_chars(&mut out, kws[i].as_str());
        if !case_sensitive {
            push_str_chars(&mut out, "（不区分大小写）");
        }
        if i == 0 {
            assert(sub[0] == kws@[0]@);
            assert(out@ =~= keyword_display(sub, case_sensitive));
        } else {
            assert(out@ =~= keyword_display(sub, case_sensitive));
        }
        i = i + 1;
    }
    assert(kv.subrange(0, kv.len() as int) =~= kv);
    out
}

fn count_shown(blocks: &Vec<FileHits>) -> (n: usize)
    ensures
        n == capped(total_shown(block_views(blocks@))),
{
    let ghost bs = block_views(blocks@);
    let mut n: usize = 0;
    let mut i: usize = 0;
    while i < blocks.len()
        invariant
            i <= blocks.len(),
            bs == block_views(blocks@),
            n == capped(total_shown(bs.subrange(0, i as int))),
        decreases blocks.len() - i,
    {
        assert(bs.subrange(0, i + 1).drop_last() =~= bs.subrange(0, i as int));
        assert(bs.subrange(0, i + 1).last() == blocks@[i as int]@);
        let m = blocks[i].show.len();
        assert(blocks@[i as int]@.show.len() == m);
        n = if n > usize::MAX - m { usize::MAX } else { n + m };
        i = i + 1;
    }
    assert(bs.subrange(0, bs.len() as int) =~= bs);
    n
}

/// The report of a search: the matches of each file with a hit, after a
/// summary line, or a line saying nothing matched.
pub fn search_report_text(
    blocks: &Vec<FileHits>,
    kws: &Vec<String>,
    opts: &SearchOptions,
    scanned: usize,
    scan_cap_hit: bool,
) -> (r: String)
    ensures
        r@ == search_report(block_views(blocks@), strs(kws@), *opts, scanned as nat, scan_cap_hit),
{
    let kd = keyword_display_chars(kws, opts.case_sensitive);
    let mut s: Vec<char> = Vec::new();
    if blocks.len() == 0 {
        push_str_chars(&mut s, "未找到包含关键词 [");
        crate::text::extend_chars(&mut s, &kd);
        push_str_chars(&mut s, "] 的匹配行（共扫描 ");
        push_num(&mut s, scanned);
        push_str_chars(&mut s, " 个文件）");
        return string_of(&s);
    }
    let (body, shown, truncated) = render_file_hits(blocks, opts.max_matches);
    let total = count_shown(blocks);
    push_str_chars(&mut s, "搜索完成：关键词 [");
    crate::text::extend_chars(&mut s, &kd);
    push_str_chars(&mut s, "]，共扫描 ");
    push_num(&mut s, scanned);
    push_str_chars(&mut s, " 个文件，");
    push_num(&mut s, blocks.len());
    push_str_chars(&mut s, " 个文件命中 ");
    push_num(&mut s, total);
    push_str_chars(&mut s, " 处，输出 ");
    push_num(&mut s, shown);
    push_str_chars(&mut s, " 行（context=");
    push_num(&mut s, opts.context);
    push_str_chars(&mut s, "）：\n");
    if truncated {
        push_str_chars(&mut s, "[已达最大显示行数 ");
        push_num(&mut s, opts.max_matches);
        push_str_chars(&mut s, "，剩余命中已省略；可缩小关键词范围或增大 max_matches]");
    }
    if scan_cap_hit {
        push_str_chars(&mut s, "[已达到扫描文件数上限 20000，部分文件未扫描]");
    }
    crate::text::extend_chars(&mut s, &body);
    string_of(&s)
}

} // verus!
