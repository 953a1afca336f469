//! Scoring of a file against keywords, and location of the code block around
//! a hit.

use vstd::prelude::*;
use crate::text::{
    chars_of, count_chars, count_matches, has_prefix, starts_with, strs, trim_start,
    trim_start_chars, views,
};

verus! {

/// Most lines that one returned code block spans.
pub const MAX_BLOCK_LINES: usize = 80;

/// Most lines searched upward for a definition line.
pub const MAX_BACKWARD_SEARCH: usize = 50;

/// Line starts (after leading white space) like a comment: `//`, `/*`, `*`, `#`, `--`.
pub open spec fn comment_start(t: Seq<char>) -> bool {
    starts_with(t, "//"@) || starts_with(t, "/*"@) || starts_with(t, "*"@) || starts_with(
        t,
        "#"@,
    ) || starts_with(t, "--"@)
}

/// Prefixes that open a function, type or module definition.
pub open spec fn definition_prefixes() -> Seq<&'static str> {
    seq![
        "fn ", "async fn ", "pub fn ", "pub async fn ", "pub(crate) fn ", "struct ", "enum ",
        "trait ", "impl ", "mod ", "def ", "class ", "async def ", "function ", "function* ",
        "func ", "interface ", "type ", "public class ", "private class ", "protected class ",
        "public final class ", "fun ",
    ]
}

/// A definition line: non-blank, not a comment, and starting (after leading
/// white space) with one of the definition prefixes.
pub open spec fn is_definition(line: Seq<char>) -> bool {
    let t = trim_start(line);
    t.len() > 0 && !comment_start(t) && exists|i: int|
        0 <= i < definition_prefixes().len() && starts_with(t, #[trigger] definition_prefixes()[i]@)
}

fn has_prefix_str(t: &[char], p: &str) -> (b: bool)
    ensures
        b == starts_with(t@, p@),
{
    let pc = chars_of(p);
    has_prefix(t, &pc)
}

fn comment_start_exec(t: &[char]) -> (b: bool)
    ensures
        b == comment_start(t@),
{
    has_prefix_str(t, "//") || has_prefix_str(t, "/*") || has_prefix_str(t, "*") || has_prefix_str(
        t,
        "#",
    ) || has_prefix_str(t, "--")
}

fn definition_prefix_list() -> (v: Vec<&'static str>)
    ensures
        v@ == definition_prefixes(),
{
    let v = vec![
        "fn ", "async fn ", "pub fn ", "pub async fn ", "pub(crate) fn ", "struct ", "enum ",
        "trait ", "impl ", "mod ", "def ", "class ", "async def ", "function ", "function* ",
        "func ", "interface ", "type ", "public class ", "private class ", "protected class ",
        "public final class ", "fun ",
    ];
    assert(v@ =~= definition_prefixes());
    v
}

fn definition_chars(line: &[char]) -> (b: bool)
    ensures
        b == is_definition(line@),
{
    let t = trim_start_chars(line);
    if t.len() == 0 || comment_start_exec(&t) {
        return false;
    }
    let ps = definition_prefix_list();
    let mut i: usize = 0;
    while i < ps.len()
        invariant
            ps@ == definition_prefixes(),
            t@ == trim_start(line@),
            t@.len() > 0,
            !comment_start(t@),
            i <= ps.len(),
            forall|j: int| 0 <= j < i ==> !starts_with(t@, #[trigger] definition_prefixes()[j]@),
        decreases ps.len() - i,
    {
        if has_prefix_str(&t, ps[i]) {
            assert(starts_with(t@, definition_prefixes()[i as int]@));
            return true;
        }
        i = i + 1;
    }
    false
}

/// Whether a line opens a function, class, struct or similar definition.
pub fn is_definition_line(line: &str) -> (b: bool)
    ensures
        b == is_definition(line@),
{
    let cs = chars_of(line);
    definition_chars(&cs)
}

/// Weight of a line in half units: comment 4, definition 6, line with a quote 3, other 2
/// (that is 2.0, 3.0, 1.5 and 1.0).
pub open spec fn weight(line: Seq<char>, lower_line: Seq<char>) -> nat {
    let t = trim_start(line);
    if comment_start(t) {
        4
    } else if is_definition(line) {
        6
    } else if lower_line.contains('"') || lower_line.contains('\'') {
        3
    } else {
        2
    }
}

fn contains_char(s: &[char], c: char) -> (b: bool)
    ensures
        b == s@.contains(c),
{
    let mut i: usize = 0;
    while i < s.len()
        invariant
            i <= s.len(),
            forall|j: int| 0 <= j < i ==> s@[j] != c,
        decreases s.len() - i,
    {
        if s[i] == c {
            return true;
        }
        i = i + 1;
    }
    false
}

/// Weight of a line by position kind, in half units (see [`weight`]).
pub fn position_weight(line: &str, lower_line: &str) -> (w: u64)
    ensures
        w == weight(line@, lower_line@),
{
    let cs = chars_of(line);
    let lo = chars_of(lower_line);
    let t = trim_start_chars(&cs);
    if comment_start_exec(&t) {
        4
    } else if definition_chars(&cs) {
        6
    } else if contains_char(&lo, '"') || contains_char(&lo, '\'') {
        3
    } else {
        2
    }
}

} // verus!

verus! {

pub open spec fn sat_sub(a: int, b: int) -> int {
    if a >= b {
        a - b
    } else {
        0
    }
}

pub open spec fn min(a: int, b: int) -> int {
    if a <= b {
        a
    } else {
        b
    }
}

/// Last definition line among `lines[lo..=i]`, searching from `i` down.
pub open spec fn last_def_from(lines: Seq<&str>, lo: int, i: int) -> Option<int>
    decreases i - lo + 1,
{
    if i < lo || i < 0 || i >= lines.len() {
        None
    } else if is_definition(lines[i]@) {
        Some(i)
    } else {
        last_def_from(lines, lo, i - 1)
    }
}

/// Last line (0-based) of the block that starts at or before line `i`: brace
/// matching once a `{` was seen and the hit is reached; without braces, the
/// line before the next definition after the hit; at most `max_end`.
pub open spec fn block_end(
    lines: Seq<&str>,
    i: int,
    hit: int,
    max_end: int,
    found: bool,
    bal: int,
) -> int
    decreases max_end - i + 1,
{
    if i > max_end || i < 0 || i >= lines.len() {
        i - 1
    } else {
        let opens = count_matches(lines[i]@, seq!['{']) as int;
        let closes = count_matches(lines[i]@, seq!['}']) as int;
        let f = found || opens > 0;
        let b = if f {
            bal + opens - closes
        } else {
            bal
        };
        if f && b <= 0 && i >= hit {
            i
        } else if !f && i > hit && is_definition(lines[i]@) {
            i - 1
        } else if i == max_end {
            i
        } else {
            block_end(lines, i + 1, hit, max_end, f, b)
        }
    }
}

/// 0-based index of the hit line, clamped into the file.
pub open spec fn hit_index(total: int, hit_line: int) -> int {
    min(sat_sub(hit_line, 1), total - 1)
}

/// First line (0-based) of the block around the hit.
pub open spec fn block_start(lines: Seq<&str>, hit_line: int) -> int {
    let hit = hit_index(lines.len() as int, hit_line);
    match last_def_from(lines, sat_sub(hit, MAX_BACKWARD_SEARCH as int), hit) {
        Some(i) => i,
        None => sat_sub(hit, 5),
    }
}

/// The 1-based inclusive line range of the code block around `hit_line`.
pub open spec fn code_block(lines: Seq<&str>, hit_line: int) -> (int, int) {
    let total = lines.len() as int;
    if total == 0 {
        (1, 1)
    } else {
        let hit = hit_index(total, hit_line);
        let start = block_start(lines, hit_line);
        let max_end = min(start + MAX_BLOCK_LINES - 1, total - 1);
        (start + 1, block_end(lines, start, hit, max_end, false, 0) + 1)
    }
}

proof fn lemma_last_def_bounds(lines: Seq<&str>, lo: int, i: int)
    ensures
        last_def_from(lines, lo, i) matches Some(k) ==> lo <= k <= i && 0 <= k < lines.len(),
    decreases i - lo + 1,
{
    if !(i < lo || i < 0 || i >= lines.len()) && !is_definition(lines[i]@) {
        lemma_last_def_bounds(lines, lo, i - 1);
    }
}

proof fn lemma_block_end_bounds(
    lines: Seq<&str>,
    i: int,
    hit: int,
    max_end: int,
    found: bool,
    bal: int,
)
    requires
        0 <= i <= max_end < lines.len(),
        hit <= max_end,
    ensures
        i - 1 <= block_end(lines, i, hit, max_end, found, bal) <= max_end,
        block_end(lines, i, hit, max_end, found, bal) >= hit,
    decreases max_end - i + 1,
{
    let opens = count_matches(lines[i]@, seq!['{']) as int;
    let closes = count_matches(lines[i]@, seq!['}']) as int;
    let f = found || opens > 0;
    let b = if f {
        bal + opens - closes
    } else {
        bal
    };
    if f && b <= 0 && i >= hit {
    } else if !f && i > hit && is_definition(lines[i]@) {
    } else if i == max_end {
    } else {
        lemma_block_end_bounds(lines, i + 1, hit, max_end, f, b);
    }
}

fn last_def(lines: &[&str], lo: usize, hi: usize) -> (r: Option<usize>)
    requires
        lo <= hi < lines.len(),
    ensures
        r == (match last_def_from(lines@, lo as int, hi as int) {
            Some(k) => Some(k as usize),
            None => None::<usize>,
        }),
    decreases hi - lo,
{
    let cs = chars_of(lines[hi]);
    if definition_chars(&cs) {
        Some(hi)
    } else if hi == lo {
        assert(last_def_from(lines@, lo as int, hi - 1) is None);
        None
    } else {
        proof {
            lemma_last_def_bounds(lines@, lo as int, hi - 1);
        }
        last_def(lines, lo, hi - 1)
    }
}

fn scan_block_end(
    lines: &[&str],
    start: usize,
    i: usize,
    hit: usize,
    max_end: usize,
    found: bool,
    bal: i128,
) -> (r: usize)
    requires
        start <= i <= max_end < lines.len(),
        max_end < start + MAX_BLOCK_LINES,
        hit <= max_end,
        -((i - start) as int) * 0x1_0000_0000_0000_0000 <= bal <= ((i - start) as int)
            * 0x1_0000_0000_0000_0000,
    ensures
        r as int == block_end(lines@, i as int, hit as int, max_end as int, found, bal as int),
    decreases max_end - i,
{
    let cs = chars_of(lines[i]);
    let open = crate::text::single('{');
    let close = crate::text::single('}');
    let opens = count_chars(&cs, &open);
    let closes = count_chars(&cs, &close);
    proof {
        crate::text::lemma_count_le_len(cs@, open@);
        crate::text::lemma_count_le_len(cs@, close@);
    }
    let f = found || opens > 0;
    let b = if f { bal + opens as i128 - closes as i128 } else { bal };
    if f && b <= 0 && i >= hit {
        i
    } else if !f && i > hit && definition_chars(&cs) {
        i - 1
    } else if i == max_end {
        i
    } else {
        scan_block_end(lines, start, i + 1, hit, max_end, f, b)
    }
}

/// Finds the 1-based inclusive line range of the code block (function, struct,
/// ...) that holds `hit_line`: the nearest definition line at most 50 lines
/// above, or 5 lines above when there is none; then down to the matching close
/// brace, or for brace-less code to the line before the next definition; at
/// most 80 lines in all.
pub fn find_code_block(lines: &[&str], hit_line: usize) -> (r: (usize, usize))
    ensures
        r.0 == code_block(lines@, hit_line as int).0,
        r.1 == code_block(lines@, hit_line as int).1,
        lines.len() > 0 ==> 1 <= r.0 <= hit_index(lines.len() as int, hit_line as int) + 1 <= r.1
            <= lines.len(),
        lines.len() > 0 ==> r.1 - r.0 + 1 <= MAX_BLOCK_LINES,
{
    let total = lines.len();
    if total == 0 {
        return (1, 1);
    }
    let hit_idx = if hit_line >= 1 { hit_line - 1 } else { 0 };
    let hit_idx = if hit_idx < total - 1 { hit_idx } else { total - 1 };
    let search_start = if hit_idx >= MAX_BACKWARD_SEARCH { hit_idx - MAX_BACKWARD_SEARCH } else { 0 };
    proof {
        lemma_last_def_bounds(lines@, search_start as int, hit_idx as int);
    }
    let start_idx = match last_def(lines, search_start, hit_idx) {
        Some(k) => k,
        None => if hit_idx >= 5 { hit_idx - 5 } else { 0 },
    };
    assert(start_idx as int == block_start(lines@, hit_line as int));
    let max_end = if total >= MAX_BLOCK_LINES && start_idx < total - MAX_BLOCK_LINES {
        start_idx + (MAX_BLOCK_LINES - 1)
    } else {
        total - 1
    };
    assert(max_end as int == min(start_idx + MAX_BLOCK_LINES - 1, total - 1));
    let end_idx = scan_block_end(lines, start_idx, start_idx, hit_idx, max_end, false, 0);
    proof {
        lemma_block_end_bounds(lines@, start_idx as int, hit_idx as int, max_end as int, false, 0);
    }
    (start_idx + 1, end_idx + 1)
}

} // verus!

verus! {

/// Occurrences of `p` in `s` as `str::matches(p).count()` counts them; the empty
/// pattern matches at every character boundary.
pub open spec fn occurrences(s: Seq<char>, p: Seq<char>) -> nat {
    if p.len() == 0 {
        s.len() + 1
    } else {
        count_matches(s, p)
    }
}

/// Total keyword occurrences in a lower-cased line.
pub open spec fn line_hits(lower: Seq<char>, kws: Seq<Seq<char>>) -> nat
    decreases kws.len(),
{
    if kws.len() == 0 {
        0
    } else {
        line_hits(lower, kws.drop_last()) + occurrences(lower, kws.last())
    }
}

/// Weighted hits of the first `n` lines, in half units.
pub open spec fn file_total(lines: Seq<&str>, lowers: Seq<&str>, kws: Seq<Seq<char>>, n: int) -> nat
    decreases n,
{
    if n <= 0 {
        0
    } else {
        file_total(lines, lowers, kws, n - 1) + line_hits(lowers[n - 1]@, kws) * weight(
            lines[n - 1]@,
            lowers[n - 1]@,
        )
    }
}

/// Keyword `k` occurs in one of the first `n` lower-cased lines.
pub open spec fn keyword_hit(lowers: Seq<&str>, k: Seq<char>, n: int) -> bool {
    exists|i: int| 0 <= i < n && occurrences(#[trigger] lowers[i]@, k) > 0
}

/// The keywords among `kws[..k]` that occur in the first `n` lines, in keyword order.
pub open spec fn matched_upto(lowers: Seq<&str>, n: int, kws: Seq<Seq<char>>, k: int) -> Seq<
    Seq<char>,
>
    decreases k,
{
    if k <= 0 {
        Seq::empty()
    } else {
        matched_upto(lowers, n, kws, k - 1) + if keyword_hit(lowers, kws[k - 1], n) {
            seq![kws[k - 1]]
        } else {
            Seq::empty()
        }
    }
}

/// 1-based numbers of the lines among the first `n` that hold a keyword.
pub open spec fn hit_list(lowers: Seq<&str>, kws: Seq<Seq<char>>, n: int) -> Seq<usize>
    decreases n,
{
    if n <= 0 {
        Seq::empty()
    } else {
        hit_list(lowers, kws, n - 1) + if line_hits(lowers[n - 1]@, kws) > 0 {
            seq![n as usize]
        } else {
            Seq::empty()
        }
    }
}

/// `x` saturated at `u64::MAX`.
pub open spec fn satu(x: int) -> int {
    if x > u64::MAX {
        u64::MAX as int
    } else {
        x
    }
}

/// Number of line pairs that are scored.
pub open spec fn scored_lines(lines: Seq<&str>, lowers: Seq<&str>) -> int {
    min(lines.len() as int, lowers.len() as int)
}

fn sat_add(a: u64, b: u64) -> (r: u64)
    ensures
        r == satu(a + b),
{
    if a > u64::MAX - b {
        u64::MAX
    } else {
        a + b
    }
}

proof fn lemma_keyword_hit_step(lowers: Seq<&str>, k: Seq<char>, m: int)
    requires
        0 <= m < lowers.len(),
    ensures
        keyword_hit(lowers, k, m + 1) == (keyword_hit(lowers, k, m) || occurrences(lowers[m]@, k)
            > 0),
{
    if keyword_hit(lowers, k, m + 1) && !(occurrences(lowers[m]@, k) > 0) {
        let i = choose|i: int| 0 <= i < m + 1 && occurrences(#[trigger] lowers[i]@, k) > 0;
        assert(i < m);
    }
}

fn occurrences_exec(s: &[char], p: &[char]) -> (n: u64)
    ensures
        n == satu(occurrences(s@, p@) as int),
{
    if p.len() == 0 {
        sat_add(s.len() as u64, 1)
    } else {
        let c = count_chars(s, p);
        c as u64
    }
}

fn line_hits_exec(lower: &[char], kws: &Vec<Vec<char>>) -> (n: u64)
    ensures
        n == satu(line_hits(lower@, views(kws@)) as int),
{
    let mut acc: u64 = 0;
    let mut k: usize = 0;
    while k < kws.len()
        invariant
            k <= kws.len(),
            acc == satu(line_hits(lower@, views(kws@).subrange(0, k as int)) as int),
        decreases kws.len() - k,
    {
        let c = occurrences_exec(lower, &kws[k]);
        assert(views(kws@).subrange(0, k + 1).drop_last() =~= views(kws@).subrange(0, k as int));
        acc = sat_add(acc, c);
        k = k + 1;
    }
    assert(views(kws@).subrange(0, k as int) =~= views(kws@));
    acc
}

fn sat_mul_weight(h: u64, w: u64, Ghost(x): Ghost<int>) -> (r: u64)
    requires
        w == 2 || w == 3 || w == 4 || w == 6,
        x >= 0,
        h == satu(x),
    ensures
        r == satu(x * w),
{
    if h > u64::MAX / w {
        u64::MAX
    } else {
        h * w
    }
}

/// Scores one file against the keywords, in integer form: returns the weighted
/// keyword occurrences in half units (each line's occurrence count times its
/// position weight, summed over lines with a hit, saturating at `u64::MAX`),
/// the keywords that occur somewhere (in keyword order), and the 1-based numbers
/// of the lines with a hit. `lines` and `lower_lines` are the lines as written and the
/// lower-cased lines of the same text; pairs are taken up to the shorter one.
/// Empty input gives `(0, [], [])`.
///
/// The relevance score of a search result is this weight, halved, divided by
/// the square root of the line count (at least 1), times one plus the share of
/// keywords that matched.
pub fn score_file(lines: &[&str], lower_lines: &[&str], keywords: &[String]) -> (r: (
    u64,
    Vec<String>,
    Vec<usize>,
))
    ensures
        lines.len() == 0 || keywords.len() == 0 ==> r.0 == 0 && r.1@.len() == 0 && r.2@.len() == 0,
        lines.len() > 0 && keywords.len() > 0 ==> {
            let n = scored_lines(lines@, lower_lines@);
            let kws = strs(keywords@);
            &&& r.0 == satu(file_total(lines@, lower_lines@, kws, n) as int)
            &&& strs(r.1@) == matched_upto(lower_lines@, n, kws, kws.len() as int)
            &&& r.2@ == hit_list(lower_lines@, kws, n)
        },
{
    if lines.len() == 0 || keywords.len() == 0 {
        return (0, Vec::new(), Vec::new());
    }
    let n = if lines.len() < lower_lines.len() { lines.len() } else { lower_lines.len() };
    let mut kws: Vec<Vec<char>> = Vec::new();
    let mut j: usize = 0;
    while j < keywords.len()
        invariant
            j <= keywords.len(),
            views(kws@) == strs(keywords@).subrange(0, j as int),
        decreases keywords.len() - j,
    {
        let ghost before = kws@;
        kws.push(chars_of(keywords[j].as_str()));
        assert(views(kws@) =~= views(before).push(keywords@[j as int]@));
        assert(strs(keywords@).subrange(0, j + 1) =~= strs(keywords@).subrange(0, j as int).push(
            keywords@[j as int]@,
        ));
        j = j + 1;
    }
    assert(strs(keywords@).subrange(0, j as int) =~= strs(keywords@));
    let ghost kv = strs(keywords@);
    let mut flags: Vec<bool> = Vec::new();
    let mut j: usize = 0;
    while j < kws.len()
        invariant
            j <= kws.len(),
            flags@.len() == j,
            forall|t: int| 0 <= t < j ==> !flags@[t],
        decreases kws.len() - j,
    {
        flags.push(false);
        j = j + 1;
    }
    let mut total: u64 = 0;
    let mut hits: Vec<usize> = Vec::new();
    let mut i: usize = 0;
    while i < n
        invariant
            i <= n,
            n == scored_lines(lines@, lower_lines@),
            n <= lines.len(),
            n <= lower_lines.len(),
            views(kws@) == kv,
            flags@.len() == kws@.len(),
            forall|t: int| 0 <= t < kws@.len() ==> flags@[t] == keyword_hit(lower_lines@, kv[t], i as int),
            total == satu(file_total(lines@, lower_lines@, kv, i as int) as int),
            hits@ == hit_list(lower_lines@, kv, i as int),
        decreases n - i,
    {
        let lo = chars_of(lower_lines[i]);
        let mut k: usize = 0;
        while k < kws.len()
            invariant
                k <= kws.len(),
                i < n <= lower_lines.len(),
                lo@ == lower_lines@[i as int]@,
                views(kws@) == kv,
                flags@.len() == kws@.len(),
                forall|t: int| 0 <= t < k ==> flags@[t] == keyword_hit(lower_lines@, kv[t], i + 1),
                forall|t: int| k <= t < kws@.len() ==> flags@[t] == keyword_hit(lower_lines@, kv[t], i as int),
            decreases kws.len() - k,
        {
            proof {
                lemma_keyword_hit_step(lower_lines@, kv[k as int], i as int);
            }
            let c = occurrences_exec(&lo, &kws[k]);
            if c > 0 {
                flags.set(k, true);
            }
            k = k + 1;
        }
        let h = line_hits_exec(&lo, &kws);
        if h > 0 {
            let w = position_weight(lines[i], lower_lines[i]);
            let add = sat_mul_weight(h, w, Ghost(line_hits(lower_lines@[i as int]@, kv) as int));
            total = sat_add(total, add);
            hits.push(i + 1);
        } else {
            assert(line_hits(lower_lines@[i as int]@, kv) == 0);
        }
        i = i + 1;
    }
    let mut matched: Vec<String> = Vec::new();
    let mut k: usize = 0;
    while k < kws.len()
        invariant
            k <= kws.len(),
            views(kws@) == kv,
            kv == strs(keywords@),
            kws@.len() == keywords@.len(),
            flags@.len() == kws@.len(),
            forall|t: int| 0 <= t < kws@.len() ==> flags@[t] == keyword_hit(lower_lines@, kv[t], n as int),
            strs(matched@) == matched_upto(lower_lines@, n as int, kv, k as int),
        decreases kws.len() - k,
    {
        if flags[k] {
            let ghost before = matched@;
            matched.push(keywords[k].clone());
            assert(strs(matched@) =~= strs(before).push(kv[k as int]));
        } else {
            assert(matched_upto(lower_lines@, n as int, kv, k + 1) =~= matched_upto(
                lower_lines@,
                n as int,
                kv,
                k as int,
            ));
        }
        k = k + 1;
    }
    (total, matched, hits)
}

} // verus!

verus! {

/// Strength of hit line `line_no` (1-based, clamped into the file): its keyword
/// occurrences times its position weight, in half units.
pub open spec fn line_strength(lines: Seq<&str>, lowers: Seq<&str>, kws: Seq<Seq<char>>, line_no: int) -> int {
    let idx = min(sat_sub(line_no, 1), sat_sub(lines.len() as int, 1));
    satu(satu(line_hits(lowers[idx]@, kws) as int) * weight(lines[idx]@, lowers[idx]@))
}

/// Left-to-right search for the strongest hit line; the first of equals wins.
pub open spec fn best_from(
    lines: Seq<&str>,
    lowers: Seq<&str>,
    kws: Seq<Seq<char>>,
    hits: Seq<usize>,
    i: int,
    best: usize,
    best_s: int,
) -> usize
    decreases hits.len() - i,
{
    if i < 0 || i >= hits.len() {
        best
    } else {
        let s = line_strength(lines, lowers, kws, hits[i] as int);
        if s > best_s {
            best_from(lines, lowers, kws, hits, i + 1, hits[i], s)
        } else {
            best_from(lines, lowers, kws, hits, i + 1, best, best_s)
        }
    }
}

/// The hit line to centre a result block on: the one whose occurrence count
/// times position weight is largest, the earliest among equals.
pub fn best_hit_line(lines: &[&str], lower_lines: &[&str], keywords: &[String], hit_lines: &[usize]) -> (r: usize)
    requires
        lines.len() > 0,
        lower_lines.len() >= lines.len(),
        hit_lines.len() > 0,
    ensures
        r == best_from(lines@, lower_lines@, strs(keywords@), hit_lines@, 0, hit_lines@[0], 0),
{
    let mut kws: Vec<Vec<char>> = Vec::new();
    let mut j: usize = 0;
    while j < keywords.len()
        invariant
            j <= keywords.len(),
            views(kws@) == strs(keywords@).subrange(0, j as int),
        decreases keywords.len() - j,
    {
        let ghost before = kws@;
        kws.push(chars_of(keywords[j].as_str()));
        assert(views(kws@) =~= views(before).push(keywords@[j as int]@));
        assert(strs(keywords@).subrange(0, j + 1) =~= strs(keywords@).subrange(0, j as int).push(
            keywords@[j as int]@,
        ));
        j = j + 1;
    }
    assert(strs(keywords@).subrange(0, j as int) =~= strs(keywords@));
    let ghost kv = strs(keywords@);
    let mut best = hit_lines[0];
    let mut best_s: u64 = 0;
    let mut i: usize = 0;
    while i < hit_lines.len()
        invariant
            i <= hit_lines.len(),
            lines.len() > 0,
            lower_lines.len() >= lines.len(),
            views(kws@) == kv,
            best_from(lines@, lower_lines@, kv, hit_lines@, i as int, best, best_s as int)
                == best_from(lines@, lower_lines@, kv, hit_lines@, 0, hit_lines@[0], 0),
        decreases hit_lines.len() - i,
    {
        let line_no = hit_lines[i];
        let a = if line_no >= 1 { line_no - 1 } else { 0 };
        let idx = if a < lines.len() - 1 { a } else { lines.len() - 1 };
        let lo = chars_of(lower_lines[idx]);
        let h = line_hits_exec(&lo, &kws);
        let w = position_weight(lines[idx], lower_lines[idx]);
        let s = sat_mul_weight(h, w, Ghost(satu(line_hits(lower_lines@[idx as int]@, kv) as int)));
        if s > best_s {
            best = line_no;
            best_s = s;
        }
        i = i + 1;
    }
    best
}

} // verus!
