//! Web search: request checking, endpoint resolution and result formatting.

use vstd::prelude::*;
use crate::text::{
    chars_of, dec, dec_chars, eq_chars, extend_chars, has_prefix, has_suffix, slice_chars,
    starts_with, ends_with, string_of, strs, trim, trim_chars,
};
use crate::web_fetch::{fold, fold_char, folded};

verus! {

/// Default number of results.
pub const DEFAULT_NUM_RESULTS: usize = 5;
/// Largest number of results.
pub const MAX_NUM_RESULTS: usize = 10;
/// Serper endpoint used when no base URL is set.
pub const SERPER_DEFAULT_ENDPOINT: &'static str = "https://google.serper.dev/search";
/// Bing endpoint used when no base URL is set.
pub const BING_DEFAULT_ENDPOINT: &'static str = "https://api.bing.microsoft.com/v7.0/search";

/// One search result.
pub struct SearchResult {
    pub title: String,
    pub url: String,
    pub snippet: String,
}

/// Arguments of a search.
pub struct WebSearchArgs {
    /// The query.
    pub query: String,
    /// Language restriction such as `lang_en`.
    pub lr: Option<String>,
    /// Number of results, 5 by default, at most 10.
    pub num: Option<usize>,
}

/// Error of a search.
pub struct WebSearchError(pub String);

/// Search engine settings; `engine` is `serper`, `google`, `bing` or another
/// Serper-compatible name.
pub struct WebSearchConfig {
    pub api_key: String,
    pub base_url: String,
    pub engine: String,
}

/// Number of results for a request: 5 by default, clamped into `1..=10`.
pub open spec fn num_results(num: Option<usize>) -> usize {
    let n = match num {
        Some(n) => n,
        None => DEFAULT_NUM_RESULTS,
    };
    if n < 1 {
        1
    } else if n > MAX_NUM_RESULTS {
        MAX_NUM_RESULTS
    } else {
        n
    }
}

/// Number of results for a request.
pub fn resolve_num(num: Option<usize>) -> (n: usize)
    ensures
        n == num_results(num),
{
    let n = match num {
        Some(n) => n,
        None => DEFAULT_NUM_RESULTS,
    };
    if n < 1 {
        1
    } else if n > MAX_NUM_RESULTS {
        MAX_NUM_RESULTS
    } else {
        n
    }
}

/// Language code of a restriction: trimmed, without a leading `lang_`; none when empty.
pub open spec fn lang_code(lr: Seq<char>) -> Option<Seq<char>> {
    let t = trim(lr);
    let code = if starts_with(t, "lang_"@) {
        t.subrange("lang_"@.len() as int, t.len() as int)
    } else {
        t
    };
    if code.len() == 0 {
        None
    } else {
        Some(code)
    }
}

/// The language code of a restriction such as `lang_en`.
pub fn strip_lang_prefix(lr: &str) -> (r: Option<String>)
    ensures
        r matches Some(s) ==> lang_code(lr@) == Some(s@),
        r is None ==> lang_code(lr@) is None,
{
    let cs = chars_of(lr);
    let t = trim_chars(&cs);
    let p = chars_of("lang_");
    let code = if has_prefix(&t, &p) {
        slice_chars(&t, p.len(), t.len())
    } else {
        slice_chars(&t, 0, t.len())
    };
    assert(t@.subrange(0, t@.len() as int) =~= t@);
    if code.len() == 0 {
        None
    } else {
        Some(string_of(&code))
    }
}

/// `s` without trailing `c` characters (`str::trim_end_matches(c)`).
pub open spec fn trim_end_char(s: Seq<char>, c: char) -> Seq<char>
    decreases s.len(),
{
    if s.len() > 0 && s.last() == c {
        trim_end_char(s.drop_last(), c)
    } else {
        s
    }
}

fn trim_end_char_chars(s: &[char], c: char) -> (v: Vec<char>)
    ensures
        v@ == trim_end_char(s@, c),
{
    let mut j = s.len();
    assert(s@.subrange(0, j as int) =~= s@);
    while j > 0 && s[j - 1] == c
        invariant
            j <= s.len(),
            trim_end_char(s@.subrange(0, j as int), c) == trim_end_char(s@, c),
        decreases j,
    {
        assert(s@.subrange(0, j as int).drop_last() =~= s@.subrange(0, j - 1));
        j = j - 1;
    }
    slice_chars(s, 0, j)
}

/// Serper endpoint for a base URL: the default when blank; otherwise the base
/// without trailing slashes, with `/search` appended unless it ends so already.
pub open spec fn serper_url(base_url: Seq<char>) -> Seq<char> {
    let b = trim(base_url);
    if b.len() == 0 {
        SERPER_DEFAULT_ENDPOINT@
    } else {
        let b2 = trim_end_char(b, '/');
        if ends_with(b2, "/search"@) {
            b2
        } else {
            b2 + "/search"@
        }
    }
}

/// The Serper endpoint to post to.
pub fn serper_endpoint(base_url: &str) -> (r: String)
    ensures
        r@ == serper_url(base_url@),
{
    let cs = chars_of(base_url);
    let b = trim_chars(&cs);
    if b.len() == 0 {
        return SERPER_DEFAULT_ENDPOINT.to_string();
    }
    let mut b2 = trim_end_char_chars(&b, '/');
    let suffix = chars_of("/search");
    if !has_suffix(&b2, &suffix) {
        extend_chars(&mut b2, &suffix);
    }
    string_of(&b2)
}

/// Bing endpoint for a base URL: the default when blank, else the base without
/// trailing slashes.
pub open spec fn bing_url(base_url: Seq<char>) -> Seq<char> {
    let b = trim(base_url);
    if b.len() == 0 {
        BING_DEFAULT_ENDPOINT@
    } else {
        trim_end_char(b, '/')
    }
}

/// The Bing endpoint to query.
pub fn bing_endpoint(base_url: &str) -> (r: String)
    ensures
        r@ == bing_url(base_url@),
{
    let cs = chars_of(base_url);
    let b = trim_chars(&cs);
    if b.len() == 0 {
        return BING_DEFAULT_ENDPOINT.to_string();
    }
    let b2 = trim_end_char_chars(&b, '/');
    string_of(&b2)
}

/// `s` cut to `max` characters, with `...` appended when it was longer.
pub open spec fn truncated(s: Seq<char>, max: nat) -> Seq<char> {
    if s.len() <= max {
        s
    } else {
        s.subrange(0, max as int) + "..."@
    }
}

/// Cuts `s` to `max` characters, marking a cut with `...`.
pub fn truncate(s: &str, max: usize) -> (r: String)
    ensures
        r@ == truncated(s@, max as nat),
{
    let cs = chars_of(s);
    if cs.len() <= max {
        string_of(&cs)
    } else {
        let mut v = slice_chars(&cs, 0, max);
        let dots = chars_of("...");
        extend_chars(&mut v, &dots);
        string_of(&v)
    }
}

/// Whether the engine name is `bing`, ignoring ASCII case.
pub fn is_bing(engine: &str) -> (b: bool)
    ensures
        b == (folded(engine@) == "bing"@),
{
    let cs = chars_of(engine);
    let mut f: Vec<char> = Vec::new();
    let mut i: usize = 0;
    while i < cs.len()
        invariant
            i <= cs.len(),
            f@ == folded(cs@).subrange(0, i as int),
        decreases cs.len() - i,
    {
        f.push(fold_char(cs[i]));
        i = i + 1;
        assert(f@ =~= folded(cs@).subrange(0, i as int));
    }
    assert(f@ =~= folded(cs@));
    let bing = chars_of("bing");
    eq_chars(&f, &bing)
}

/// Text of result `i` and those after it.
pub open spec fn results_from(rs: Seq<SearchResult>, i: int) -> Seq<char>
    decreases rs.len() - i,
{
    if i < 0 || i >= rs.len() {
        Seq::empty()
    } else {
        dec((i + 1) as nat) + ". ["@ + rs[i].title@ + "]("@ + rs[i].url@ + ")\n"@ + "   "@
            + rs[i].snippet@ + "\n"@ + (if i + 1 < rs.len() {
            "\n"@
        } else {
            Seq::empty()
        }) + results_from(rs, i + 1)
    }
}

/// The result list shown to the model.
pub open spec fn results_text(query: Seq<char>, rs: Seq<SearchResult>) -> Seq<char> {
    "搜索 \""@ + query + "\" 共找到 "@ + dec(rs.len()) + " 条结果：\n\n"@ + results_from(rs, 0)
}

fn push_str(v: &mut Vec<char>, s: &str)
    ensures
        final(v)@ == old(v)@ + s@,
{
    let c = chars_of(s);
    extend_chars(v, &c);
}

/// Formats search results for the model: a header with the query and count,
/// then per result its number, title, URL and snippet.
pub fn format_results(query: &str, results: &[SearchResult]) -> (r: String)
    ensures
        r@ == results_text(query@, results@),
{
    let mut out: Vec<char> = Vec::new();
    push_str(&mut out, "搜索 \"");
    push_str(&mut out, query);
    push_str(&mut out, "\" 共找到 ");
    let n = dec_chars(results.len() as u64);
    extend_chars(&mut out, &n);
    push_str(&mut out, " 条结果：\n\n");
    let ghost head = out@;
    assert(head =~= "搜索 \""@ + query@ + "\" 共找到 "@ + dec(results@.len()) + " 条结果：\n\n"@);
    let mut i: usize = 0;
    while i < results.len()
        invariant
            i <= results.len(),
            out@ + results_from(results@, i as int) == head + results_from(results@, 0),
        decreases results.len() - i,
    {
        let ghost before = out@;
        let num = dec_chars((i + 1) as u64);
        extend_chars(&mut out, &num);
        push_str(&mut out, ". [");
        push_str(&mut out, results[i].title.as_str());
        push_str(&mut out, "](");
        push_str(&mut out, results[i].url.as_str());
        push_str(&mut out, ")\n");
        push_str(&mut out, "   ");
        push_str(&mut out, results[i].snippet.as_str());
        push_str(&mut out, "\n");
        if i + 1 < results.len() {
            push_str(&mut out, "\n");
        } else {
            proof { reveal_strlit(""); }
        }
        assert(out@ + results_from(results@, i + 1) =~= before + results_from(results@, i as int));
        i = i + 1;
    }
    assert(results_from(results@, i as int) =~= Seq::<char>::empty());
    string_of(&out)
}

/// A checked search request: trimmed query, result count, and whether Bing serves it.
pub struct SearchRequest {
    pub query: String,
    pub num: usize,
    pub bing: bool,
}

/// Checks a search request against the configuration: the trimmed query must
/// not be empty, then an engine must be configured.
pub fn plan_web_search(args: &WebSearchArgs, config: Option<&WebSearchConfig>) -> (r: Result<SearchRequest, WebSearchError>)
    ensures
        trim(args.query@).len() == 0 ==> (r matches Err(e) && e.0@ == "查询不能为空"@),
        trim(args.query@).len() > 0 && config is None ==> (r matches Err(e) && e.0@
            == "未配置搜索引擎（api_key/base_url/engine），web_search 工具不可用"@),
        trim(args.query@).len() > 0 && config is Some ==> r is Ok,
        r matches Ok(q) ==> {
            &&& q.query@ == trim(args.query@)
            &&& q.num == num_results(args.num)
            &&& config matches Some(c) && q.bing == (folded(c.engine@) == "bing"@)
        },
{
    let cs = chars_of(args.query.as_str());
    let t = trim_chars(&cs);
    if t.len() == 0 {
        return Err(WebSearchError("查询不能为空".to_string()));
    }
    match config {
        None => Err(WebSearchError("未配置搜索引擎（api_key/base_url/engine），web_search 工具不可用".to_string())),
        Some(c) => Ok(SearchRequest {
            query: string_of(&t),
            num: resolve_num(args.num),
            bing: is_bing(c.engine.as_str()),
        }),
    }
}

} // verus!

verus! {

spec fn result_block(rs: Seq<SearchResult>, i: int) -> Seq<char> {
    dec((i + 1) as nat) + ". ["@ + rs[i].title@ + "]("@ + rs[i].url@ + ")\n"@ + "   "@ + rs[i].snippet@ + "\n"@ + (if i + 1
        < rs.len() {
        "\n"@
    } else {
        Seq::empty()
    })
}

proof fn lemma_results_from_flatten(rs: Seq<SearchResult>, i: int)
    requires
        0 <= i <= rs.len(),
    ensures
        results_from(rs, i) == Seq::new((rs.len() - i) as nat, |k: int| result_block(rs, i + k)).flatten(),
    decreases rs.len() - i,
{
    let f = Seq::new((rs.len() - i) as nat, |k: int| result_block(rs, i + k));
    if i == rs.len() {
        assert(f =~= Seq::<Seq<char>>::empty());
    } else {
        lemma_results_from_flatten(rs, i + 1);
        assert(f.drop_first() =~= Seq::new((rs.len() - (i + 1)) as nat, |k: int| result_block(rs, i + 1 + k)));
        assert(f.first() == result_block(rs, i));
        assert(results_from(rs, i) =~= result_block(rs, i) + results_from(rs, i + 1));
    }
}

/// The reply lists every result in order: after a header with the query and
/// the number of results, result `i` gets its number, its title linked to
/// its URL, and on the next line its snippet, indented by three spaces;
/// results are separated by a blank line.
pub proof fn lemma_results_list_every_snippet(query: Seq<char>, rs: Seq<SearchResult>)
    ensures
        results_text(query, rs) == "搜索 \""@ + query + "\" 共找到 "@ + dec(rs.len()) + " 条结果：\n\n"@ + Seq::new(
            rs.len(),
            |i: int|
                dec((i + 1) as nat) + ". ["@ + rs[i].title@ + "]("@ + rs[i].url@ + ")\n"@ + "   "@ + rs[i].snippet@
                    + "\n"@ + (if i + 1 < rs.len() {
                    "\n"@
                } else {
                    Seq::empty()
                }),
        ).flatten(),
{
    lemma_results_from_flatten(rs, 0);
    assert(Seq::new(rs.len(), |k: int| result_block(rs, 0 + k)) =~= Seq::new(
        rs.len(),
        |i: int|
            dec((i + 1) as nat) + ". ["@ + rs[i].title@ + "]("@ + rs[i].url@ + ")\n"@ + "   "@ + rs[i].snippet@ + "\n"@
                + (if i + 1 < rs.len() {
                "\n"@
            } else {
                Seq::empty()
            }),
    ));
}

} // verus!
