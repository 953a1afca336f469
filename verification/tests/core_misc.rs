use effisuite_logic::asr::split_title_and_snippet;
use effisuite_logic::clawhub::{check_entry_name, check_entry_parts, parse_skill_md, urlencoding_encode, PathPart};
use effisuite_logic::config::builtin_presets;
use effisuite_logic::memory::{entry_position, make_snippet, term_counts, tokenize, IndexBook, SNIPPET_MAX_CHARS};
use effisuite_logic::tools::sub_agent::build_sub_agent_preamble;

#[test]
fn split_title_and_snippet_works() {
    let (title, snippet) = split_title_and_snippet("标题\n摘要内容");
    assert_eq!(title, "标题");
    assert_eq!(snippet, "摘要内容");

    let (title, snippet) = split_title_and_snippet("只有标题");
    assert_eq!(title, "只有标题");
    assert!(snippet.is_empty());
}

#[test]
fn clawhub_parse_skill_md_with_frontmatter() {
    let content = "---\nname: weather\ndescription: Get current weather\nversion: 1.0.0\n---\n# Weather\nQuick one-liner:\n```\ncurl wttr.in\n```\n";
    let parsed = parse_skill_md(content);
    assert_eq!(parsed.name, "weather");
    assert_eq!(parsed.description, "Get current weather");
    assert_eq!(parsed.version, "1.0.0");
    assert!(parsed.preamble.contains("# Weather"));
    assert!(!parsed.body.starts_with("---"));
    assert!(parsed.body.starts_with("# Weather"));
    assert!(parsed.body.contains("curl wttr.in"));
}

#[test]
fn clawhub_parse_skill_md_without_frontmatter() {
    let content = "# Plain skill\nNo frontmatter here.";
    let parsed = parse_skill_md(content);
    assert!(parsed.name.is_empty());
    assert!(parsed.description.is_empty());
    assert_eq!(parsed.preamble, content);
    assert_eq!(parsed.body, content);
}

#[test]
fn clawhub_parse_skill_md_body_strips_crlf_newline() {
    let content = "---\r\nname: x\r\n---\r\nbody line";
    let parsed = parse_skill_md(content);
    assert_eq!(parsed.name, "x");
    assert_eq!(parsed.body, "body line");
}

#[test]
fn clawhub_urlencoding_encode_special_chars() {
    assert_eq!(urlencoding_encode("weather"), "weather");
    assert_eq!(urlencoding_encode("@openclaw/whatsapp"), "%40openclaw%2Fwhatsapp");
    assert_eq!(urlencoding_encode("a b/c"), "a%20b%2Fc");
}

#[test]
fn client_urlencoding_encode_special_chars() {
    assert_eq!(urlencoding_encode("weather"), "weather");
    assert_eq!(urlencoding_encode("@openclaw/whatsapp"), "%40openclaw%2Fwhatsapp");
    assert_eq!(urlencoding_encode("a b/c"), "a%20b%2Fc");
}

#[test]
fn skill_md_parse_skill_md_with_frontmatter() {
    let content = "---\nname: weather\ndescription: Get current weather\nversion: 1.0.0\n---\n# Weather\nQuick one-liner:\n```\ncurl wttr.in\n```\n";
    let parsed = parse_skill_md(content);
    assert_eq!(parsed.name, "weather");
    assert_eq!(parsed.description, "Get current weather");
    assert_eq!(parsed.version, "1.0.0");
    assert!(parsed.preamble.contains("# Weather"));
    assert!(!parsed.body.starts_with("---"));
    assert!(parsed.body.starts_with("# Weather"));
    assert!(parsed.body.contains("curl wttr.in"));
}

#[test]
fn skill_md_parse_skill_md_without_frontmatter() {
    let content = "# Plain skill\nNo frontmatter here.";
    let parsed = parse_skill_md(content);
    assert!(parsed.name.is_empty());
    assert!(parsed.description.is_empty());
    assert_eq!(parsed.preamble, content);
    assert_eq!(parsed.body, content);
}

#[test]
fn skill_md_parse_skill_md_body_strips_crlf_newline() {
    let content = "---\r\nname: x\r\n---\r\nbody line";
    let parsed = parse_skill_md(content);
    assert_eq!(parsed.name, "x");
    assert_eq!(parsed.body, "body line");
}

#[test]
fn builtin_presets_contains_openai_and_custom() {
    let presets = builtin_presets();
    assert!(presets.iter().any(|p| p.id == "openai"));
    assert!(presets.iter().any(|p| p.id == "custom"));
    assert!(presets.iter().all(|p| p.openai_compat));
}

#[test]
fn memory_tokenize_handles_mixed_punctuation() {
    let tokens = tokenize("Rust 是一门系统编程语言，rust good!");
    assert!(tokens.contains(&"rust".to_string()));
    assert!(tokens.contains(&"是".to_string()));
    assert!(tokens.contains(&"good".to_string()));
}

#[test]
fn mod_tokenize_handles_mixed_punctuation() {
    let tokens = tokenize("Rust 是一门系统编程语言，rust good!");
    assert!(tokens.contains(&"rust".to_string()));
    assert!(tokens.contains(&"是".to_string()));
    assert!(tokens.contains(&"good".to_string()));
}

#[test]
fn tokenize_cjk_single_char() {
    let tokens = tokenize("异");
    assert_eq!(tokens, vec!["异".to_string()]);
}

#[test]
fn tokenize_cjk_bigram_and_unigram() {
    let tokens = tokenize("异步编程");
    assert!(tokens.contains(&"异步".to_string()));
    assert!(tokens.contains(&"步编".to_string()));
    assert!(tokens.contains(&"编程".to_string()));
    assert!(tokens.contains(&"异".to_string()));
    assert!(tokens.contains(&"步".to_string()));
    assert!(tokens.contains(&"编".to_string()));
    assert!(tokens.contains(&"程".to_string()));
}

#[test]
fn preamble_includes_name_instructions_and_depth() {
    let p = build_sub_agent_preamble("审查员", Some("只关注安全问题"), 1);
    assert!(p.contains("审查员"));
    assert!(p.contains("只关注安全问题"));
    assert!(p.contains("嵌套层级 1"));
}

#[test]
fn preamble_skips_empty_instructions() {
    let p = build_sub_agent_preamble("A", None, 2);
    assert!(!p.contains("【任务要求】"));
    assert!(p.contains("嵌套层级 2"));
}

#[test]
fn make_snippet_cuts_by_characters() {
    assert_eq!(make_snippet("你好世界", 2), "你好…");
    assert_eq!(make_snippet("你好", 2), "你好");
    assert_eq!(make_snippet("abcdef", 3), "abc…");
    assert_eq!(make_snippet("", 0), "");
    assert_eq!(make_snippet("a", 0), "…");
    let long: String = "字".repeat(SNIPPET_MAX_CHARS + 5);
    let s = make_snippet(&long, SNIPPET_MAX_CHARS);
    assert_eq!(s.chars().count(), SNIPPET_MAX_CHARS + 1);
    assert!(s.ends_with('…'));
}

#[test]
fn tokenize_of_joined_texts_is_the_concatenation() {
    let a = "Rust 异步编程，很好";
    let b = "Tokio(runtime) 调度";
    let mut both = tokenize(a);
    both.extend(tokenize(b));
    assert_eq!(tokenize(&format!("{a} {b}")), both);
    assert_eq!(tokenize(&format!("{a}。{b}")), both);
}

#[test]
fn tokens_are_non_empty_lowercase_or_short_cjk() {
    for t in tokenize("Hello, WORLD! 异步编程 foo_bar") {
        assert!(!t.is_empty());
        assert!(!t.chars().any(|c| c.is_whitespace() || "，。、；：！？,.:;!?\"'`()[]{}【】《》".contains(c)));
        assert_eq!(t, t.to_lowercase());
    }
}

#[test]
fn zip_entry_parts_that_escape_are_refused() {
    let msg = "zip entry 路径越权（含 `..` 或绝对路径）：../x";
    assert_eq!(check_entry_parts("../x", &vec![PathPart::Parent, PathPart::Normal]), Err(msg.to_string()));
    assert!(check_entry_parts("/x", &vec![PathPart::Root, PathPart::Normal]).is_err());
    assert!(check_entry_parts("C:x", &vec![PathPart::Prefix, PathPart::Normal]).is_err());
    assert_eq!(check_entry_parts("./a/b", &vec![PathPart::Current, PathPart::Normal, PathPart::Normal]), Ok(()));
    assert_eq!(check_entry_parts("", &vec![]), Ok(()));
}

#[test]
fn zip_entry_names_are_checked_by_their_components() {
    assert_eq!(check_entry_name("skill/SKILL.md"), Ok(()));
    assert_eq!(check_entry_name("./skill/run.sh"), Ok(()));
    assert_eq!(
        check_entry_name("a/../../etc/passwd"),
        Err("zip entry 路径越权（含 `..` 或绝对路径）：a/../../etc/passwd".to_string())
    );
    assert!(check_entry_name("/etc/passwd").is_err());
    assert!(check_entry_name("..").is_err());
}

#[test]
fn term_counts_counts_each_distinct_token_in_first_order() {
    let toks: Vec<String> = ["异步", "rust", "异步", "异", "rust", "异步"].iter().map(|s| s.to_string()).collect();
    let tc = term_counts(&toks);
    let got: Vec<(String, usize)> = tc.into_iter().map(|t| (t.term, t.count)).collect();
    assert_eq!(got, vec![("异步".to_string(), 3), ("rust".to_string(), 2), ("异".to_string(), 1)]);
    assert!(term_counts(&Vec::new()).is_empty());
}

#[test]
fn entry_position_finds_the_pair_of_ids() {
    let keys = vec![
        ("c1".to_string(), "m1".to_string()),
        ("c2".to_string(), "m1".to_string()),
        ("c1".to_string(), "m2".to_string()),
    ];
    assert_eq!(entry_position(&keys, "c1", "m2"), Some(2));
    assert_eq!(entry_position(&keys, "c2", "m1"), Some(1));
    assert_eq!(entry_position(&keys, "c2", "m2"), None);
}

#[test]
fn zip_entry_names_with_dotdot_segments_or_a_root_are_refused() {
    for name in ["..", "../a", "a/..", "a/../b", "/abs", "/"] {
        assert!(check_entry_name(name).is_err(), "{name}");
    }
    for name in ["a..b", "..a/b", "a/b..", "x/.../y"] {
        assert_eq!(check_entry_name(name), Ok(()), "{name}");
    }
}

#[test]
fn index_book_adds_each_message_once_and_posts_its_terms() {
    let mut b = IndexBook::new();
    assert!(b.add("c1".to_string(), "m1".to_string(), &vec![(0, 2), (3, 1)], 3));
    assert!(!b.add("c1".to_string(), "m1".to_string(), &vec![(0, 5)], 5));
    assert!(b.add("c1".to_string(), "m2".to_string(), &vec![(3, 4)], 4));
    assert_eq!(b.keys.len(), 2);
    assert_eq!(b.lens, vec![3, 4]);
    assert_eq!(b.total_len, 7);
    assert_eq!(b.df(0), 1);
    assert_eq!(b.df(1), 0);
    assert_eq!(b.df(3), 2);
    assert_eq!(b.df(9), 0);
    assert_eq!(b.postings[3], vec![(0, 1), (1, 4)]);
    assert_eq!(b.position("c1", "m2"), Some(1));
    assert_eq!(b.position("c2", "m1"), None);
}
