//! Search across the memory of all conversations: arguments, mode, report.

use vstd::prelude::*;
use crate::memory::{ceil_prefix, MemoryHit, SearchMode};
use crate::text::{chars_of, dec, dec_chars, extend_chars, string_of, trim, trim_chars};
use crate::tools::search_history::{role_name, effective_limit};
use crate::tools::skill_tools::short_id;

verus! {

/// Arguments of a memory search.
pub struct SearchMemoryArgs {
    pub query: String,
    /// Most results (5 by default; 0 also means 5).
    pub limit: usize,
    /// `lexical`, `vector` or `hybrid` (the default).
    pub mode: Option<String>,
}

/// A refused or failed call, by its message.
#[derive(Debug)]
pub struct SearchMemoryError(pub String);

impl SearchMemoryError {
    /// The text the error shows.
    pub fn message(&self) -> (r: String)
        ensures
            r@ == "search memory error: "@ + self.0@,
    {
        crate::text::str_cat("search memory error: ", self.0.as_str())
    }
}

/// `c` with ASCII capitals made small (`char::to_ascii_lowercase`).
pub open spec fn ascii_lower_char(c: char) -> char {
    if 'A' <= c && c <= 'Z' {
        ((c as u32) + 32) as char
    } else {
        c
    }
}

/// `str::to_ascii_lowercase` on character sequences.
pub open spec fn ascii_lower(s: Seq<char>) -> Seq<char> {
    s.map_values(|c: char| ascii_lower_char(c))
}

fn lower_ascii_char(c: char) -> (r: char)
    ensures
        r == ascii_lower_char(c),
{
    if 'A' <= c && c <= 'Z' {
        let b = (c as u32) as u8;
        ((b + 32) as u8) as char
    } else {
        c
    }
}

fn ascii_lower_chars(s: &[char]) -> (v: Vec<char>)
    ensures
        v@ == ascii_lower(s@),
{
    let mut v: Vec<char> = Vec::new();
    let mut i: usize = 0;
    while i < s.len()
        invariant
            i <= s.len(),
            v@ == ascii_lower(s@.subrange(0, i as int)),
        decreases s.len() - i,
    {
        v.push(lower_ascii_char(s[i]));
        i = i + 1;
        assert(v@ =~= ascii_lower(s@.subrange(0, i as int)));
    }
    assert(s@.subrange(0, i as int) =~= s@);
    v
}

/// The mode a search asks for, by name in any ASCII case: `lexical`, `bm25`
/// and `keyword` ask for `Lexical`; `vector`, `embedding` and `semantic` for
/// `Vector`; anything else, or none, for `Hybrid`.
pub open spec fn mode_named(m: Option<Seq<char>>) -> SearchMode {
    match m {
        None => SearchMode::Hybrid,
        Some(s) => {
            let l = ascii_lower(s);
            if l == "lexical"@ || l == "bm25"@ || l == "keyword"@ {
                SearchMode::Lexical
            } else if l == "vector"@ || l == "embedding"@ || l == "semantic"@ {
                SearchMode::Vector
            } else {
                SearchMode::Hybrid
            }
        },
    }
}

pub open spec fn opt_chars(o: Option<String>) -> Option<Seq<char>> {
    match o {
        Some(s) => Some(s@),
        None => None,
    }
}

fn is_word(s: &Vec<char>, w: &str) -> (b: bool)
    ensures
        b == (s@ == w@),
{
    let c = chars_of(w);
    crate::text::eq_chars(s, &c)
}

/// Reads the requested search mode (see `mode_named`).
pub fn parse_mode(s: &Option<String>) -> (m: SearchMode)
    ensures
        m == mode_named(opt_chars(*s)),
{
    match s {
        None => SearchMode::Hybrid,
        Some(t) => {
            let c = chars_of(t.as_str());
            let l = ascii_lower_chars(&c);
            if is_word(&l, "lexical") || is_word(&l, "bm25") || is_word(&l, "keyword") {
                SearchMode::Lexical
            } else if is_word(&l, "vector") || is_word(&l, "embedding") || is_word(&l, "semantic") {
                SearchMode::Vector
            } else {
                SearchMode::Hybrid
            }
        },
    }
}

/// What a memory search asks of the index.
pub struct MemoryQuery {
    /// The trimmed query.
    pub query: String,
    pub limit: usize,
    pub mode: SearchMode,
}

/// The reply to a blank query.
pub open spec fn blank_query_reply() -> Seq<char> {
    "查询为空，未检索到记忆。"@
}

/// Reads the arguments: a blank query is answered at once (`Err` with the
/// reply); otherwise the trimmed query, the limit (5 when 0) and the mode.
pub fn plan_memory_search(args: &SearchMemoryArgs) -> (r: Result<MemoryQuery, String>)
    ensures
        trim(args.query@).len() == 0 <==> r is Err,
        r matches Err(t) ==> t@ == blank_query_reply(),
        r matches Ok(q) ==> q.query@ == trim(args.query@) && q.limit as nat == effective_limit(
            args.limit,
        ) && q.mode == mode_named(opt_chars(args.mode)),
{
    let c = chars_of(args.query.as_str());
    let t = trim_chars(&c);
    if t.len() == 0 {
        return Err("查询为空，未检索到记忆。".to_string());
    }
    let limit: usize = if args.limit == 0 { 5 } else { args.limit };
    Ok(MemoryQuery { query: string_of(&t), limit, mode: parse_mode(&args.mode) })
}

/// The line of the `i`-th hit (counted from 0).
pub open spec fn memory_line(i: nat, h: MemoryHit) -> Seq<char> {
    dec(i + 1) + ". [会话"@ + ceil_prefix(h.conversation_id@, 8) + "] ["@ + role_name(h.role) + "] "@
        + h.snippet@ + seq!['\n']
}

pub open spec fn memory_lines(hits: Seq<MemoryHit>, n: nat) -> Seq<char>
    decreases n,
{
    if n == 0 {
        Seq::empty()
    } else {
        memory_lines(hits, (n - 1) as nat) + memory_line((n - 1) as nat, hits[n - 1])
    }
}

/// The reply for the hits of a search for `query`.
pub open spec fn memory_report(query: Seq<char>, hits: Seq<MemoryHit>) -> Seq<char> {
    if hits.len() == 0 {
        "未找到与「"@ + query + "」相关的历史记忆。"@
    } else {
        "找到 "@ + dec(hits.len()) + " 条相关历史记忆：\n"@ + memory_lines(hits, hits.len())
    }
}

fn push_text(out: &mut Vec<char>, s: &str)
    ensures
        final(out)@ == old(out)@ + s@,
{
    let c = chars_of(s);
    extend_chars(out, &c);
}

fn role_label(r: crate::models::Role) -> (s: &'static str)
    ensures
        s@ == role_name(r),
{
    match r {
        crate::models::Role::User => "用户",
        crate::models::Role::Assistant => "助手",
        crate::models::Role::System => "系统",
    }
}

fn push_memory_line(out: &mut Vec<char>, i: usize, h: &MemoryHit)
    requires
        i < usize::MAX,
    ensures
        final(out)@ == old(out)@ + memory_line(i as nat, *h),
{
    let ghost before = out@;
    let d = dec_chars((i + 1) as u64);
    extend_chars(out, &d);
    push_text(out, ". [会话");
    let sid = short_id(h.conversation_id.as_str());
    push_text(out, sid.as_str());
    push_text(out, "] [");
    push_text(out, role_label(h.role));
    push_text(out, "] ");
    push_text(out, h.snippet.as_str());
    out.push('\n');
    assert(out@ =~= before + memory_line(i as nat, *h));
}

/// Renders the hits of a search (see `memory_report`).
pub fn render_memory_hits(query: &str, hits: &Vec<MemoryHit>) -> (r: String)
    ensures
        r@ == memory_report(query@, hits@),
{
    let mut out: Vec<char> = Vec::new();
    if hits.len() == 0 {
        push_text(&mut out, "未找到与「");
        push_text(&mut out, query);
        push_text(&mut out, "」相关的历史记忆。");
        return string_of(&out);
    }
    push_text(&mut out, "找到 ");
    let d = dec_chars(hits.len() as u64);
    extend_chars(&mut out, &d);
    push_text(&mut out, " 条相关历史记忆：\n");
    let ghost head = out@;
    let mut i: usize = 0;
    while i < hits.len()
        invariant
            i <= hits.len(),
            out@ == head + memory_lines(hits@, i as nat),
        decreases hits.len() - i,
    {
        push_memory_line(&mut out, i, &hits[i]);
        i = i + 1;
    }
    string_of(&out)
}

} // verus!
