//! Natural-language code search: keyword extraction, file scoring, block
//! location and file filtering.

pub mod keywords;
pub mod report;
pub mod scorer;
pub mod walker;

use vstd::prelude::*;
use crate::text::{strs, trim};

verus! {

/// Default number of results.
pub const MAX_RESULTS: usize = 20;
/// Largest number of results that may be asked for.
pub const MAX_RESULTS_CAP: usize = 50;
/// Most files scanned in one search.
pub const MAX_SCAN_FILES: usize = 20_000;
/// Files larger than this many bytes are skipped (4 MiB).
pub const MAX_FILE_BYTES: u64 = 4194304;

/// Arguments of a code search.
pub struct SearchCodebaseArgs {
    /// Natural-language description of the code sought.
    pub query: String,
    /// Root directories to search (absolute or relative to the workspace).
    pub target_directories: Option<Vec<String>>,
    /// Largest number of results, 20 by default.
    pub max_results: Option<usize>,
}

/// Error of a code search.
pub struct SearchCodebaseError(pub String);

/// The code search tool; `cwd` is the workspace that relative roots are taken from.
pub struct SearchCodebaseTool {
    pub cwd: Option<String>,
}

impl SearchCodebaseTool {
    /// A tool without workspace.
    pub fn new() -> (t: Self)
        ensures
            t.cwd is None,
    {
        SearchCodebaseTool { cwd: None }
    }

    /// A tool that searches the workspace `cwd` by default.
    pub fn with_cwd(cwd: String) -> (t: Self)
        ensures
            t.cwd == Some(cwd),
    {
        SearchCodebaseTool { cwd: Some(cwd) }
    }
}

/// Number of results for a request: 20 by default, clamped into `1..=50`.
pub open spec fn result_limit(max_results: Option<usize>) -> usize {
    let m = match max_results {
        Some(m) => m,
        None => MAX_RESULTS,
    };
    if m < 1 {
        1
    } else if m > MAX_RESULTS_CAP {
        MAX_RESULTS_CAP
    } else {
        m
    }
}

/// Query, keywords and result limit of a search, once the request is checked.
pub struct SearchPlan {
    pub query: String,
    pub keywords: Vec<String>,
    pub max_results: usize,
}

/// Checks a search request: the trimmed query must not be empty and must yield
/// at least one keyword.
pub fn plan_search(args: &SearchCodebaseArgs) -> (r: Result<SearchPlan, SearchCodebaseError>)
    ensures
        trim(args.query@).len() == 0 ==> (r matches Err(e) && e.0@ == "query 不能为空"@),
        trim(args.query@).len() > 0 && keywords::keywords(trim(args.query@)).len() == 0 ==> (r matches Err(
            e,
        ) && e.0@ == "无法从查询「"@ + trim(args.query@) + "」中提取有效关键词（请提供更具体的描述）"@),
        r matches Ok(p) ==> {
            &&& p.query@ == trim(args.query@)
            &&& strs(p.keywords@) == keywords::keywords(trim(args.query@))
            &&& p.keywords@.len() > 0
            &&& p.max_results == result_limit(args.max_results)
        },
        trim(args.query@).len() > 0 && keywords::keywords(trim(args.query@)).len() > 0 ==> r is Ok,
{
    let cs = crate::text::chars_of(args.query.as_str());
    let t = crate::text::trim_chars(&cs);
    if t.len() == 0 {
        return Err(SearchCodebaseError("query 不能为空".to_string()));
    }
    let q = crate::text::string_of(&t);
    let kws = keywords::extract_keywords(q.as_str());
    if kws.len() == 0 {
        let msg = crate::text::str_cat3("无法从查询「", q.as_str(), "」中提取有效关键词（请提供更具体的描述）");
        return Err(SearchCodebaseError(msg));
    }
    let m = match args.max_results {
        Some(m) => m,
        None => MAX_RESULTS,
    };
    let m = if m < 1 { 1 } else if m > MAX_RESULTS_CAP { MAX_RESULTS_CAP } else { m };
    Ok(SearchPlan { query: q, keywords: kws, max_results: m })
}

} // verus!
