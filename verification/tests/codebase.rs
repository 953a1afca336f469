use effisuite_logic::codebase::keywords::{extract_keywords, select_keywords};
use effisuite_logic::codebase::report::{render_code_search, search_roots, RankedHit};
use effisuite_logic::codebase::scorer::{find_code_block, is_definition_line, score_file, MAX_BLOCK_LINES};
use effisuite_logic::codebase::walker::is_code_file;

/// The relevance score of a file, from the weighted occurrences (in half
/// units) that `score_file` returns.
fn score_for_test(lines: &[&str], keywords: &[String]) -> (f64, Vec<String>, Vec<usize>) {
    let lower: Vec<String> = lines.iter().map(|l| l.to_lowercase()).collect();
    let lower_refs: Vec<&str> = lower.iter().map(|s| s.as_str()).collect();
    let (half_units, matched, hits) = score_file(lines, &lower_refs, keywords);
    if half_units == 0 {
        return (0.0, matched, hits);
    }
    let total = half_units as f64 / 2.0;
    let normalized = total / (lines.len() as f64).sqrt().max(1.0);
    let coverage = matched.len() as f64 / keywords.len() as f64;
    (normalized * (1.0 + coverage), matched, hits)
}

#[test]
fn extract_keywords_basic() {
    let kws = extract_keywords("how does authentication work");
    assert!(kws.iter().any(|k| k == "authentication"));
    assert!(kws.iter().any(|k| k == "work"));
    assert!(!kws.iter().any(|k| k == "how"));
    assert!(!kws.iter().any(|k| k == "does"));
}

#[test]
fn extract_keywords_chinese() {
    let kws = extract_keywords("处理 用户 登录 逻辑");
    assert!(kws.iter().any(|k| k == "处理"));
    assert!(kws.iter().any(|k| k == "用户"));
    assert!(kws.iter().any(|k| k == "登录"));
    assert!(kws.iter().any(|k| k == "逻辑"));
}

#[test]
fn extract_keywords_chinese_single_chars() {
    let kws = extract_keywords("处理用户登录的逻辑");
    assert!(!kws.iter().any(|k| k == "的"));
    assert!(kws.iter().any(|k| k == "处"));
    assert!(kws.iter().any(|k| k == "理"));
    assert!(kws.iter().any(|k| k == "登"));
    assert!(kws.iter().any(|k| k == "录"));
}

#[test]
fn extract_keywords_dedup() {
    let kws = extract_keywords("auth auth auth");
    assert_eq!(kws, vec!["auth"]);
}

#[test]
fn extract_keywords_strips_short_english() {
    let kws = extract_keywords("a b auth");
    assert_eq!(kws, vec!["auth"]);
}

#[test]
fn extract_keywords_empty_query() {
    assert!(extract_keywords("").is_empty());
    assert!(extract_keywords("   ").is_empty());
    assert!(extract_keywords("the a an is").is_empty());
}

#[test]
fn is_definition_line_detects_rust() {
    assert!(is_definition_line("pub fn verify_token(token: &str) -> Result<Claims> {"));
    assert!(is_definition_line("struct User {"));
    assert!(is_definition_line("enum Role {"));
    assert!(is_definition_line("impl User {"));
    assert!(is_definition_line("async fn fetch() {"));
    assert!(is_definition_line("pub(crate) fn helper() {"));
}

#[test]
fn is_definition_line_detects_python() {
    assert!(is_definition_line("def verify_token(token):"));
    assert!(is_definition_line("class User:"));
    assert!(is_definition_line("async def fetch():"));
}

#[test]
fn is_definition_line_detects_other_langs() {
    assert!(is_definition_line("function foo() {"));
    assert!(is_definition_line("func bar() {"));
    assert!(is_definition_line("interface Baz {"));
    assert!(is_definition_line("type Quux = {"));
}

#[test]
fn is_definition_line_ignores_comments() {
    assert!(!is_definition_line("// fn commented_out() {"));
    assert!(!is_definition_line("# def commented():"));
    assert!(!is_definition_line("/* class Old { */"));
    assert!(!is_definition_line("-- fn sql_comment"));
}

#[test]
fn is_definition_line_ignores_empty() {
    assert!(!is_definition_line(""));
    assert!(!is_definition_line("   "));
}

#[test]
fn is_code_file_recognizes_extensions() {
    assert!(is_code_file("main.rs"));
    assert!(is_code_file("app.py"));
    assert!(is_code_file("index.ts"));
    assert!(is_code_file("Component.tsx"));
    assert!(is_code_file("main.go"));
    assert!(is_code_file("Cargo.toml"));
    assert!(is_code_file("README.md"));
}

#[test]
fn is_code_file_rejects_non_code() {
    assert!(!is_code_file("auth.txt"));
    assert!(!is_code_file("Cargo.lock"));
    assert!(!is_code_file("image.png"));
    assert!(!is_code_file("archive.tar.gz"));
    assert!(!is_code_file("noext"));
}

#[test]
fn find_code_block_expands_to_function() {
    let lines: Vec<&str> = vec![
        "use std::io;",
        "",
        "pub fn verify_token(token: &str) -> Result<Claims> {",
        "    let key = get_secret_key();",
        "    let claims = decode::<Claims>(token, &key)?;",
        "    Ok(claims)",
        "}",
        "",
        "pub fn other_function() {",
        "    todo!()",
        "}",
    ];
    let (start, end) = find_code_block(&lines, 4);
    assert_eq!(start, 3);
    assert_eq!(end, 7);
}

#[test]
fn find_code_block_falls_back_when_no_def() {
    let lines: Vec<&str> = vec![
        "let a = 1;",
        "let b = 2;",
        "let c = 3;",
        "let d = 4;",
        "let e = 5;",
        "let f = 6;",
        "let g = 7;",
        "let h = 8;",
        "let i = 9;",
        "let j = 10;",
        "let k = 11;",
    ];
    let (start, end) = find_code_block(&lines, 6);
    assert_eq!(start, 1);
    assert_eq!(end, 11);
}

#[test]
fn find_code_block_python_stops_at_next_def() {
    let lines: Vec<&str> = vec![
        "def verify_token(token):",
        "    key = get_secret()",
        "    return token == key",
        "",
        "def other_function():",
        "    pass",
    ];
    let (start, end) = find_code_block(&lines, 2);
    assert_eq!(start, 1);
    assert_eq!(end, 4);
}

#[test]
fn find_code_block_clamps_to_max_block_lines() {
    let owned: Vec<String> = (0..200).map(|i| format!("    let v{i} = {i};")).collect();
    let lines: Vec<&str> = owned.iter().map(|s| s.as_str()).collect();
    let (start, end) = find_code_block(&lines, 100);
    assert!(end - start + 1 <= MAX_BLOCK_LINES, "block too large: {}", end - start + 1);
}

#[test]
fn score_file_ranks_definition_higher() {
    let def_lines: Vec<&str> = vec![
        "pub fn auth_verify(token: &str) -> bool {",
        "    let key = \"secret\";",
        "    token == key",
        "}",
    ];
    let non_def_lines: Vec<&str> = vec![
        "    let s = \"auth_verify\";",
        "    let t = \"hello\";",
        "    let u = \"world\";",
        "    let v = \"foo\";",
    ];
    let keywords = vec!["auth".to_string(), "verify".to_string()];
    let (def_score, _, _) = score_for_test(&def_lines, &keywords);
    let (non_def_score, _, _) = score_for_test(&non_def_lines, &keywords);
    assert!(def_score > non_def_score, "def: {def_score}, non_def: {non_def_score}");
}

#[test]
fn score_file_rewards_keyword_coverage() {
    let lines: Vec<&str> = vec![
        "pub fn auth_verify(token: &str) -> bool {",
        "    let key = get_secret();",
        "    token == key",
        "}",
    ];
    let single_kw = vec!["auth".to_string()];
    let multi_kw = vec!["auth".to_string(), "verify".to_string()];
    let (single_score, _, _) = score_for_test(&lines, &single_kw);
    let (multi_score, _, _) = score_for_test(&lines, &multi_kw);
    assert!(multi_score > single_score, "single: {single_score}, multi: {multi_score}");
}

#[test]
fn score_file_empty_inputs() {
    let empty: Vec<&str> = vec![];
    let kws = vec!["auth".to_string()];
    let (s, m, h) = score_for_test(&empty, &kws);
    assert_eq!(s, 0.0);
    assert!(m.is_empty());
    assert!(h.is_empty());

    let lines = vec!["pub fn auth() {}"];
    let empty_kws: Vec<String> = vec![];
    let (s, _, _) = score_for_test(&lines, &empty_kws);
    assert_eq!(s, 0.0);
}

#[test]
fn score_file_no_match_returns_zero() {
    let lines: Vec<&str> = vec!["fn main() {", "    println!(\"hi\");", "}"];
    let kws = vec!["auth".to_string(), "token".to_string()];
    let (s, m, h) = score_for_test(&lines, &kws);
    assert_eq!(s, 0.0);
    assert!(m.is_empty());
    assert!(h.is_empty());
}

fn words(ws: &[&str]) -> Vec<String> {
    ws.iter().map(|w| w.to_string()).collect()
}

#[test]
fn select_keywords_drops_stop_words_and_short_words() {
    let kws = select_keywords(&words(&["the", "auth", "x", "of", "token", "的"]));
    assert_eq!(kws, vec!["auth".to_string(), "token".to_string()]);
}

#[test]
fn select_keywords_keeps_first_occurrence_once() {
    let kws = select_keywords(&words(&["login", "user", "login", "user"]));
    assert_eq!(kws, vec!["login".to_string(), "user".to_string()]);
}

#[test]
fn select_keywords_splits_pure_cjk_words() {
    let kws = select_keywords(&words(&["登录", "登", "录的"]));
    assert_eq!(
        kws,
        vec!["登录".to_string(), "登".to_string(), "录".to_string(), "录的".to_string()]
    );
}

#[test]
fn select_keywords_takes_words_as_given() {
    // Upper-case words are not lowered again here: lowering is the caller's step.
    let kws = select_keywords(&words(&["Auth", "auth"]));
    assert_eq!(kws, vec!["Auth".to_string(), "auth".to_string()]);
}

fn strings(ws: &[&str]) -> Vec<String> {
    ws.iter().map(|w| w.to_string()).collect()
}

#[test]
fn code_search_report_lists_ranked_blocks() {
    let hit = RankedHit {
        display_path: "src/a.rs".to_string(),
        matched_keywords: strings(&["auth", "login"]),
        block_lines: strings(&["fn a() {", "}"]),
        total_lines: 12,
        block_start: 9,
        score_text: "1.00".to_string(),
    };
    let out = render_code_search("登录", &strings(&["auth", "login"]), &vec![hit], 5, true);
    assert_eq!(
        out,
        "找到 1 个相关代码块（查询：「登录」，关键词: auth, login）：\n\n\
         1. src/a.rs（共 12 行，得分: 1.00）\n   匹配关键词: auth, login\n\n 9  fn a() {\n10  }\n\n\
         [已达到扫描文件数上限 20000，部分文件未扫描]"
    );
}

#[test]
fn code_search_report_when_nothing_found() {
    let out = render_code_search("q", &strings(&["x1", "y2"]), &Vec::new(), 3, false);
    assert_eq!(out, "未找到与「q」相关的代码（共扫描 3 个文件，关键词: x1, y2）");
}

#[test]
fn search_roots_trims_and_skips_blank() {
    assert_eq!(search_roots(&None), None);
    assert_eq!(search_roots(&Some(Vec::new())), None);
    assert_eq!(search_roots(&Some(strings(&[" src ", "  ", "lib"]))), Some(strings(&["src", "lib"])));
    assert_eq!(search_roots(&Some(strings(&[" "]))), Some(Vec::new()));
}
