use effisuite_logic::text_utils::{extract_content, numbered_lines};
use effisuite_logic::web_fetch::{collapse_whitespace, strip_html};
use effisuite_logic::web_search::{
    bing_endpoint, resolve_num, serper_endpoint, strip_lang_prefix, truncate, BING_DEFAULT_ENDPOINT,
    SERPER_DEFAULT_ENDPOINT,
};

#[test]
fn extract_xml_wrapped_content() {
    let raw = "<content>hello world</content>";
    assert_eq!(extract_content(raw), "hello world");
}

#[test]
fn extract_xml_wrapped_preserves_special_chars() {
    let raw = r#"<content>const s = "a < b && c > d"; regex = /\d+/</content>"#;
    assert_eq!(extract_content(raw), r#"const s = "a < b && c > d"; regex = /\d+/"#);
}

#[test]
fn extract_xml_wrapped_preserves_newlines() {
    let raw = "<content>line1\nline2\nline3</content>";
    assert_eq!(extract_content(raw), "line1\nline2\nline3");
}

#[test]
fn extract_cdata_wrapped() {
    let raw = "<content><![CDATA[hello <world> & friends]]></content>";
    assert_eq!(extract_content(raw), "hello <world> & friends");
}

#[test]
fn extract_cdata_with_content_literal() {
    let raw = "<content><![CDATA[<content>嵌套标签</content>]]></content>";
    assert_eq!(extract_content(raw), "<content>嵌套标签</content>");
}

#[test]
fn extract_bare_cdata_without_content_tag() {
    let raw = "<![CDATA[裸 CDATA 内容]]>";
    assert_eq!(extract_content(raw), "裸 CDATA 内容");
}

#[test]
fn extract_unclosed_content_fallback() {
    let raw = "<content>未闭合的内容";
    assert_eq!(extract_content(raw), "未闭合的内容");
}

#[test]
fn extract_unclosed_cdata_fallback() {
    let raw = "<content><![CDATA[未闭合";
    assert_eq!(extract_content(raw), "未闭合");
}

#[test]
fn extract_bare_text_passthrough() {
    let raw = "plain text content";
    assert_eq!(extract_content(raw), "plain text content");
}

#[test]
fn extract_empty_content() {
    assert_eq!(extract_content("<content></content>"), "");
    assert_eq!(extract_content("<content><![CDATA[]]></content>"), "");
}

#[test]
fn extract_xml_with_leading_text() {
    let raw = "这是文件内容：\n<content>实际内容</content>";
    assert_eq!(extract_content(raw), "实际内容");
}

#[test]
fn extract_cdata_takes_priority_over_content_tag() {
    let raw = "<content><![CDATA[CDATA 内容]]></content>";
    assert_eq!(extract_content(raw), "CDATA 内容");
}

#[test]
fn numbered_lines_basic() {
    let out = numbered_lines("fn main() {\n    println!(\"hi\");\n}");
    assert_eq!(out, "1  fn main() {\n2      println!(\"hi\");\n3  }\n");
}

#[test]
fn numbered_lines_aligns_width_by_total() {
    let content = (1..=10).map(|i| format!("line{i}")).collect::<Vec<_>>().join("\n");
    let out = numbered_lines(&content);
    assert!(out.starts_with(" 1  line1\n 2  line2\n"));
    assert!(out.contains("\n10  line10\n"));
}

#[test]
fn numbered_lines_handles_crlf_and_trailing_newline() {
    let out = numbered_lines("a\r\nb\r\n");
    assert_eq!(out, "1  a\n2  b\n");
}

#[test]
fn numbered_lines_empty() {
    assert_eq!(numbered_lines(""), "");
}

#[test]
fn strip_html_removes_tags() {
    let html = "<html><body><h1>Hello</h1><p>World &amp; <b>Rust</b></p></body></html>";
    let text = strip_html(html);
    assert!(text.contains("Hello"));
    assert!(text.contains("World & Rust"));
    assert!(!text.contains("<"));
}

#[test]
fn strip_html_removes_script_blocks() {
    let html = "<p>before</p><script>alert('x')</script><p>after</p>";
    let text = strip_html(html);
    assert!(text.contains("before"));
    assert!(text.contains("after"));
    assert!(!text.contains("alert"));
    assert!(!text.contains("<script"));
}

#[test]
fn strip_html_removes_style_blocks() {
    let html = "<style>body { color: red; }</style><p>content</p>";
    let text = strip_html(html);
    assert!(text.contains("content"));
    assert!(!text.contains("color"));
    assert!(!text.contains("<style"));
}

#[test]
fn collapse_whitespace_compacts_runs() {
    let s = "hello    world\n\n\nfoo";
    let out = collapse_whitespace(s);
    assert_eq!(out, "hello world\nfoo");
}

#[test]
fn resolve_num_clamps() {
    assert_eq!(resolve_num(None), 5);
    assert_eq!(resolve_num(Some(0)), 1);
    assert_eq!(resolve_num(Some(1)), 1);
    assert_eq!(resolve_num(Some(3)), 3);
    assert_eq!(resolve_num(Some(10)), 10);
    assert_eq!(resolve_num(Some(100)), 10);
}

#[test]
fn strip_lang_prefix_works() {
    assert_eq!(strip_lang_prefix("lang_en").as_deref(), Some("en"));
    assert_eq!(strip_lang_prefix("lang_zh").as_deref(), Some("zh"));
    assert_eq!(strip_lang_prefix("en").as_deref(), Some("en"));
    assert_eq!(strip_lang_prefix("  lang_fr  ").as_deref(), Some("fr"));
    assert_eq!(strip_lang_prefix("").as_deref(), None);
    assert_eq!(strip_lang_prefix("   ").as_deref(), None);
}

#[test]
fn serper_endpoint_resolution() {
    assert_eq!(serper_endpoint(""), SERPER_DEFAULT_ENDPOINT);
    assert_eq!(serper_endpoint("https://google.serper.dev"), "https://google.serper.dev/search");
    assert_eq!(serper_endpoint("https://google.serper.dev/"), "https://google.serper.dev/search");
    assert_eq!(serper_endpoint("https://google.serper.dev/search"), "https://google.serper.dev/search");
}

#[test]
fn bing_endpoint_resolution() {
    assert_eq!(bing_endpoint(""), BING_DEFAULT_ENDPOINT);
    assert_eq!(
        bing_endpoint("https://api.bing.microsoft.com/v7.0/search"),
        "https://api.bing.microsoft.com/v7.0/search"
    );
    assert_eq!(
        bing_endpoint("https://api.bing.microsoft.com/v7.0/search/"),
        "https://api.bing.microsoft.com/v7.0/search"
    );
}

#[test]
fn truncate_long_string() {
    let s = "x".repeat(10);
    let t = truncate(&s, 5);
    assert_eq!(t, "xxxxx...");
}

#[test]
fn truncate_short_string_unchanged() {
    let s = "hello";
    assert_eq!(truncate(s, 10), "hello");
}
