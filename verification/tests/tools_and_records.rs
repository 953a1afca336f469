use effisuite_logic::compression::id_to_file_name;
use effisuite_logic::clawhub::{check_reply, ReplyCheck};
use effisuite_logic::tools::sub_agent::{
    finish_session, plan_session, stream_step, RunDepth, RunState, SessionPlan, SessionUpdate, StreamItem, SubAgentEventKind,
};
use effisuite_logic::text_utils::extract_content;
use effisuite_logic::favorite_workspace::{FavoriteWorkspace, FavoriteWorkspaces};
use effisuite_logic::asr::{
    build_index_content, index_timestamp, remove_record, search_records, summary_hits, upsert_record,
    AsrRecord, AsrSearchQuery, AsrSource, AsrStatus,
};
use effisuite_logic::config::{AgentConfig, AsrProvider, AvailableModel, BackendKind, ModelKind, ThemeMode};
use effisuite_logic::memory::{tokenize, MemoryHit, SearchMode};
use effisuite_logic::models::{Message, Role};
use effisuite_logic::tools::search_history::{score_message, search_history, SearchHistoryArgs};
use effisuite_logic::tools::search_memory::{parse_mode, plan_memory_search, render_memory_hits, SearchMemoryArgs};
use effisuite_logic::tools::set_title::{plan_set_title, title_reply, SetTitleArgs};
use effisuite_logic::tools::shell::{effective_timeout, output_cut, report_output, timeout_message};
use effisuite_logic::tools::write_file::{prepare_write, write_report, WriteFileArgs};
use effisuite_logic::web_search::{format_results, SearchResult};

#[test]
fn score_counts_keyword_hits() {
    let msg = Message::new("m1", Role::User, "Rust 是一门系统编程语言，rust 好", 0);
    let keywords = vec!["rust".to_string(), "python".to_string()];
    let score = score_message(&msg, &keywords);
    assert_eq!(score, 1, "应只计 1 个独立关键词命中（contains 不计次数）");
}

#[test]
fn tokenize_cjk_short_query_scores_hit() {
    let msg = Message::new("m1", Role::User, "我们讨论过异步编程的优缺点", 0);
    let keywords = tokenize("异步");
    assert!(keywords.contains(&"异步".to_string()));
    assert!(score_message(&msg, &keywords) > 0);
}

#[test]
fn search_returns_relevant_messages() {
    let history = vec![
        Message::new("m1", Role::User, "今天我们聊 Rust 编程", 1),
        Message::new("m2", Role::Assistant, "Rust 是系统语言", 2),
        Message::new("m3", Role::User, "明天天气如何", 3),
    ];
    let result = search_history(&SearchHistoryArgs { query: "Rust".to_string(), limit: 5 }, &history);
    assert!(result.contains("2 条"));
    assert!(result.contains("Rust"));
    assert!(!result.contains("天气"));
}

#[test]
fn search_returns_no_results_when_unmatched() {
    let history = vec![Message::new("m1", Role::User, "hello", 1)];
    let result = search_history(&SearchHistoryArgs { query: "rust".to_string(), limit: 5 }, &history);
    assert!(result.contains("未找到"));
}

#[test]
fn history_search_ranks_by_hits_and_keeps_order_on_ties() {
    let history = vec![
        Message::new("m1", Role::User, "alpha", 1),
        Message::new("m2", Role::Assistant, "alpha beta", 2),
        Message::new("m3", Role::System, "beta", 3),
    ];
    let result = search_history(&SearchHistoryArgs { query: "alpha beta".to_string(), limit: 0 }, &history);
    assert_eq!(result, "找到 3 条相关历史消息：\n1. [助手] alpha beta\n2. [用户] alpha\n3. [系统] beta\n");
    let limited = search_history(&SearchHistoryArgs { query: "alpha beta".to_string(), limit: 1 }, &history);
    assert_eq!(limited, "找到 1 条相关历史消息：\n1. [助手] alpha beta\n");
    let none = search_history(&SearchHistoryArgs { query: "，。".to_string(), limit: 5 }, &history);
    assert_eq!(none, "无有效关键词，未检索到历史。");
}

#[test]
fn parse_mode_handles_various_inputs() {
    assert!(matches!(parse_mode(&None), SearchMode::Hybrid));
    assert!(matches!(parse_mode(&Some("lexical".into())), SearchMode::Lexical));
    assert!(matches!(parse_mode(&Some("VECTOR".into())), SearchMode::Vector));
    assert!(matches!(parse_mode(&Some("bm25".into())), SearchMode::Lexical));
    assert!(matches!(parse_mode(&Some("semantic".into())), SearchMode::Vector));
    assert!(matches!(parse_mode(&Some("unknown".into())), SearchMode::Hybrid));
}

#[test]
fn search_memory_handles_empty_query() {
    let r = plan_memory_search(&SearchMemoryArgs { query: "   ".to_string(), limit: 5, mode: None });
    match r {
        Err(t) => assert!(t.contains("查询为空")),
        Ok(_) => panic!("blank query accepted"),
    }
}

#[test]
fn memory_plan_trims_and_defaults() {
    let q = plan_memory_search(&SearchMemoryArgs { query: "  Rust 异步 ".to_string(), limit: 0, mode: Some("Keyword".into()) })
        .ok()
        .unwrap();
    assert_eq!(q.query, "Rust 异步");
    assert_eq!(q.limit, 5);
    assert!(matches!(q.mode, SearchMode::Lexical));
}

#[test]
fn search_memory_no_results_returns_message() {
    let out = render_memory_hits("nonexistent", &Vec::new());
    assert!(out.contains("未找到"));
    assert_eq!(out, "未找到与「nonexistent」相关的历史记忆。");
}

#[test]
fn memory_hits_render_short_ids() {
    let hits = vec![MemoryHit {
        conversation_id: "conv-b-123456789".to_string(),
        message_id: "m2".to_string(),
        snippet: "Rust 的 async/await 基于 Future".to_string(),
        timestamp: 2,
        role: Role::Assistant,
    }];
    let out = render_memory_hits("Rust 异步", &hits);
    assert_eq!(out, "找到 1 条相关历史记忆：\n1. [会话conv-b-1] [助手] Rust 的 async/await 基于 Future\n");
}

#[test]
fn set_title_updates_conversation() {
    let (id, title) = plan_set_title(&SetTitleArgs { title: "Rust 并发测试".to_string() }, &Some("conv".to_string()))
        .ok()
        .unwrap();
    assert_eq!(id, "conv");
    assert_eq!(title, "Rust 并发测试");
    assert!(title_reply(&title).contains("已更新会话标题为：Rust 并发测试"));
}

#[test]
fn set_title_truncates_overlong() {
    let long_title = "一二三四五六七八九十一二三四五六七八九十一二三四五六七八九十";
    assert_eq!(long_title.chars().count(), 30);
    let (_, saved) = plan_set_title(&SetTitleArgs { title: long_title.to_string() }, &Some("c".to_string()))
        .ok()
        .unwrap();
    assert_eq!(saved.chars().count(), 25);
    let expected: String = long_title.chars().take(25).collect();
    assert_eq!(saved, expected);
    assert!(title_reply(&saved).contains(&saved));
}

#[test]
fn set_title_rejects_empty() {
    let r = plan_set_title(&SetTitleArgs { title: "   ".to_string() }, &Some("conv-1".to_string()));
    assert_eq!(r.err().unwrap().0, "title 不能为空");
}

#[test]
fn set_title_rejects_without_conversation() {
    let r = plan_set_title(&SetTitleArgs { title: "无会话".to_string() }, &None);
    assert_eq!(r.err().unwrap().0, "当前未选中会话，无法设置标题");
}

#[test]
fn shell_timeout_defaults_and_floor() {
    assert_eq!(effective_timeout(None), 30000);
    assert_eq!(effective_timeout(Some(0)), 1);
    assert_eq!(effective_timeout(Some(5)), 5);
    assert_eq!(timeout_message(5, "sleep 9"), "命令超时（5ms），可能已挂死 [sleep 9]");
}

#[test]
fn shell_report_joins_streams() {
    let out = report_output(&b"out\n".to_vec(), &b"err".to_vec(), Some(0));
    assert_eq!(out, "exit code: 0\nout\nerr");
    let neg = report_output(&Vec::new(), &Vec::new(), None);
    assert_eq!(neg, "exit code: -1\n");
    let bad = report_output(&vec![0x66, 0xFF], &Vec::new(), Some(2));
    assert_eq!(bad, "exit code: 2\nf\u{FFFD}");
}

#[test]
fn shell_output_cut_at_char_boundary() {
    let mut bytes = vec![b'a'; 8190];
    bytes.extend_from_slice("中文".as_bytes());
    assert_eq!(bytes.len(), 8196);
    assert_eq!(output_cut(&bytes), 8190);
    let out = report_output(&bytes, &Vec::new(), Some(1));
    assert!(out.ends_with("\n\n[输出已截断：总 8196 字节，仅返回前 8190 字节]"));
    assert_eq!(output_cut(&vec![b'x'; 8192]), 8192);
}

#[test]
fn write_rejects_oversized_content() {
    let big = "a".repeat(1024 * 1024 + 1);
    let r = prepare_write(&WriteFileArgs { path: "big.txt".to_string(), content: big, append: None });
    let e = r.err().unwrap();
    assert!(e.0.contains("内容过大"));
    assert_eq!(e.0, "内容过大（1048577 字节），超过单次写入上限 1048576 字节");
}

#[test]
fn write_unwraps_content_and_reports() {
    let w = prepare_write(&WriteFileArgs {
        path: "t.txt".to_string(),
        content: "<content>hello & world <test> \"quoted\"</content>".to_string(),
        append: Some(true),
    })
    .ok()
    .unwrap();
    assert_eq!(w.content, "hello & world <test> \"quoted\"");
    assert!(w.append);
    assert_eq!(write_report(false, "/tmp/test.txt", 12), "已覆盖写入 /tmp/test.txt (12 字节)");
    assert_eq!(write_report(true, "a.txt", 3), "已追加写入 a.txt (3 字节)");
}

#[test]
fn format_results_renders_list() {
    let results = vec![
        SearchResult {
            title: "Asynchronous Programming in Rust".into(),
            url: "https://doc.rust-lang.org/async-book/".into(),
            snippet: "Rust 异步编程官方指南，介绍 async/await 语法和运行时...".into(),
        },
        SearchResult {
            title: "Tokio: A runtime for writing reliable async software".into(),
            url: "https://tokio.rs/".into(),
            snippet: "Tokio 是 Rust 最流行的异步运行时...".into(),
        },
    ];
    let out = format_results("rust async runtime", &results);
    assert!(out.contains("搜索 \"rust async runtime\" 共找到 2 条结果"));
    assert!(out.contains("1. [Asynchronous Programming in Rust]"));
    assert!(out.contains("https://doc.rust-lang.org/async-book/"));
    assert!(out.contains("2. [Tokio: A runtime"));
    assert!(out.contains("Tokio 是 Rust 最流行的异步运行时"));
}

#[test]
fn format_results_empty() {
    let out = format_results("nothing", &[]);
    assert!(out.contains("共找到 0 条结果"));
}

fn make_record(id: &str, title: &str, summary: &str, transcript: &str) -> AsrRecord {
    AsrRecord {
        id: id.to_string(),
        audio_path: format!("{}.wav", id),
        transcript: transcript.to_string(),
        title: title.to_string(),
        language: "zh-CN".to_string(),
        summary: Some(summary.to_string()),
        error_message: None,
        tags: vec!["test".to_string()],
        created_at_ms: 1_700_000_000_000,
        updated_at_ms: 1_700_000_000_000,
        duration_ms: 1000,
        sample_rate: 16000,
        provider: AsrProvider::VolcEngine,
        status: AsrStatus::Completed,
        source: AsrSource::Upload,
    }
}

#[test]
fn build_index_content_format() {
    let record = make_record("r1", "标题", "摘要", "转写前缀");
    let content = build_index_content(&record);
    assert_eq!(content, "标题\n摘要\n转写前缀");
}

#[test]
fn build_index_content_empty_summary() {
    let mut record = make_record("r1", "标题", "摘要", "转写");
    record.summary = None;
    let content = build_index_content(&record);
    assert_eq!(content, "标题\n\n转写");
}

#[test]
fn default_title_takes_30_chars() {
    let short = "短文本";
    assert_eq!(AsrRecord::default_title(short), "短文本");
    let long = "这是一段很长的转写文本用于测试标题截取功能应该只取前三十个字符剩下的不取";
    let title = AsrRecord::default_title(long);
    assert_eq!(title.chars().count(), 30);
}

#[test]
fn new_generates_uuid_id() {
    let record = AsrRecord::new("audio.wav", "转写内容", AsrSource::Upload);
    assert!(!record.id.is_empty());
    assert_eq!(record.id.len(), 36);
    assert_eq!(record.transcript, "转写内容");
    assert_eq!(record.title, "转写内容");
    assert!(matches!(record.status, AsrStatus::Pending));
    assert!(matches!(record.source, AsrSource::Upload));
}

fn query() -> AsrSearchQuery {
    AsrSearchQuery::default()
}

#[test]
fn search_by_keyword_in_title() {
    let records = vec![make_record("r1", "Rust 编程", "摘要内容", "内容A"), make_record("r2", "Python 入门", "摘要内容", "内容B")];
    let mut q = query();
    q.keyword = Some("rust".to_string());
    let hits = search_records(&records, &q);
    assert_eq!(hits.len(), 1);
    assert_eq!(records[hits[0]].id, "r1");
}

#[test]
fn search_by_keyword_in_transcript() {
    let records = vec![make_record("r1", "记录A", "摘要内容", "讨论了异步编程模型"), make_record("r2", "记录B", "摘要内容", "关于数据库设计")];
    let mut q = query();
    q.keyword = Some("异步".to_string());
    let hits = search_records(&records, &q);
    assert_eq!(hits, vec![0]);
}

#[test]
fn search_by_status_and_source() {
    let records = vec![make_record("r1", "A", "s", "内容A"), make_record("r2", "B", "s", "内容B")];
    let mut q = query();
    q.status = Some(AsrStatus::Completed);
    q.source = Some(AsrSource::Upload);
    assert_eq!(search_records(&records, &q).len(), 2);
    q.source = Some(AsrSource::Streaming);
    assert_eq!(search_records(&records, &q).len(), 0);
}

#[test]
fn search_with_limit() {
    let records: Vec<AsrRecord> = (0..10).map(|i| make_record(&format!("r{}", i), "标题", "s", "内容")).collect();
    let mut q = query();
    q.limit = 3;
    assert_eq!(search_records(&records, &q), vec![0, 1, 2]);
    q.limit = 0;
    assert_eq!(search_records(&records, &q).len(), 10);
}

#[test]
fn search_by_tag_summary_and_time() {
    let mut a = make_record("r1", "A", "会议纪要", "x");
    a.tags = vec!["Work".to_string()];
    a.created_at_ms = 100;
    let mut b = make_record("r2", "B", "闲聊", "y");
    b.created_at_ms = 300;
    let records = vec![a, b];
    let mut q = query();
    q.keyword = Some("WORK".to_string());
    assert_eq!(search_records(&records, &q), vec![0]);
    q.keyword = Some("闲聊".to_string());
    assert_eq!(search_records(&records, &q), vec![1]);
    let mut t = query();
    t.start_ms = Some(200);
    assert_eq!(search_records(&records, &t), vec![1]);
    t.start_ms = None;
    t.end_ms = Some(100);
    assert_eq!(search_records(&records, &t), vec![0]);
}

#[test]
fn save_updates_existing_record() {
    let mut records = Vec::new();
    upsert_record(&mut records, make_record("r1", "原标题", "s", "原转写"));
    upsert_record(&mut records, make_record("r1", "新标题", "s", "新转写"));
    assert_eq!(records.len(), 1);
    assert_eq!(records[0].title, "新标题");
    upsert_record(&mut records, make_record("r2", "另一条", "s", "t"));
    assert_eq!(records.len(), 2);
}

#[test]
fn delete_is_idempotent() {
    let mut records = vec![make_record("r1", "记录", "s", "转写内容")];
    let removed = remove_record(&mut records, "r1").unwrap();
    assert_eq!(removed.audio_path, "r1.wav");
    assert!(records.is_empty());
    assert!(remove_record(&mut records, "r1").is_none());
    assert!(remove_record(&mut records, "nonexistent").is_none());
}

fn hit(conv: &str, msg: &str, snippet: &str, ts: u64) -> MemoryHit {
    MemoryHit {
        conversation_id: conv.to_string(),
        message_id: msg.to_string(),
        snippet: snippet.to_string(),
        timestamp: ts,
        role: Role::User,
    }
}

#[test]
fn summary_search_filters_namespace_tombstones_and_time() {
    let hits = vec![
        hit("asr", "r1", "会议\n  讨论了预算", 100),
        hit("conv-x", "m1", "会议 其他", 100),
        hit("asr", "r2", "会议二", 200),
        hit("asr", "r3", "会议三\n内容", 300),
    ];
    let out = summary_hits(&hits, &vec!["r2".to_string()], None, None, 10);
    assert_eq!(out.len(), 2);
    assert_eq!(out[0].record_id, "r1");
    assert_eq!(out[0].title, "会议");
    assert_eq!(out[0].summary_snippet, "讨论了预算");
    assert_eq!(out[0].created_at_ms, 100);
    assert_eq!(out[1].record_id, "r3");
    let ranged = summary_hits(&hits, &Vec::new(), Some(150), Some(250), 10);
    assert_eq!(ranged.len(), 1);
    assert_eq!(ranged[0].record_id, "r2");
    assert_eq!(ranged[0].summary_snippet, "");
    let capped = summary_hits(&hits, &Vec::new(), None, None, 1);
    assert_eq!(capped.len(), 1);
    assert_eq!(index_timestamp(-5), 0);
    assert_eq!(index_timestamp(42), 42);
}

#[test]
fn config_default_is_mock() {
    let c = AgentConfig::default();
    assert!(matches!(c.backend, BackendKind::Mock));
    assert!(!c.is_rig_ready());
    assert!(matches!(c.theme, ThemeMode::System));
    assert!(c.models.is_empty());
}

#[test]
fn config_rig_ready_when_key_present() {
    let mut c = AgentConfig::default();
    c.backend = BackendKind::Openai;
    c.api_key = "sk-xxx".to_string();
    assert!(c.is_rig_ready());
}

fn model(id: &str, provider: &str, base: &str, name: &str, key: &str, tools: bool, window: u32, created: u64) -> AvailableModel {
    AvailableModel {
        id: id.into(),
        label: "Chat".into(),
        provider_id: provider.into(),
        base_url: base.into(),
        model_name: name.into(),
        api_key: key.into(),
        preamble: String::new(),
        image_size: None,
        image_quality: None,
        video_resolution: None,
        video_ratio: None,
        audio_language: None,
        context_window_tokens: Some(window),
        video_duration: None,
        created_at: created,
        enable_tools: tools,
        kind: ModelKind::Chat,
    }
}

#[test]
fn config_resolve_title_model_fallback() {
    let mut c = AgentConfig::default();
    c.backend = BackendKind::Openai;
    c.api_key = "inline-key".into();
    c.base_url = "https://inline/v1".into();
    c.model_name = "inline-model".into();
    let (k, b, m) = c.resolve_title_model().unwrap();
    assert_eq!(k, "inline-key");
    assert_eq!(b, "https://inline/v1");
    assert_eq!(m, "inline-model");
    c.models.push(model("chat1", "openai", "https://api.openai.com/v1", "gpt-4o-mini", "sk-active", true, 128000, 1000));
    c.active_model_id = Some("chat1".into());
    let (k, _, m) = c.resolve_title_model().unwrap();
    assert_eq!(k, "sk-active");
    assert_eq!(m, "gpt-4o-mini");
    c.models.push(model("title1", "deepseek", "https://api.deepseek.com", "deepseek-chat", "sk-title", false, 64000, 1001));
    c.title_model_id = Some("title1".into());
    let (k, _, m) = c.resolve_title_model().unwrap();
    assert_eq!(k, "sk-title");
    assert_eq!(m, "deepseek-chat");
}

#[test]
fn clawhub_reply_classification() {
    assert_eq!(check_reply(200, None), ReplyCheck::Success);
    assert_eq!(check_reply(204, Some("5")), ReplyCheck::Success);
    assert_eq!(check_reply(429, Some("30")), ReplyCheck::RateLimited { retry_after: Some(30) });
    assert_eq!(check_reply(429, Some("soon")), ReplyCheck::RateLimited { retry_after: None });
    assert_eq!(check_reply(429, None), ReplyCheck::RateLimited { retry_after: None });
    assert_eq!(check_reply(404, None), ReplyCheck::Api { status: 404 });
    assert_eq!(check_reply(500, Some("1")), ReplyCheck::Api { status: 500 });
}

#[test]
fn sub_agent_stream_steps() {
    let mut st = RunState::new();
    let (e, stop) = stream_step(&mut st, StreamItem::Text("he".to_string()));
    assert!(!stop);
    assert_eq!(e.len(), 1);
    assert_eq!(e[0].kind, SubAgentEventKind::Token);
    assert_eq!(e[0].content, "he");
    stream_step(&mut st, StreamItem::Text("llo".to_string()));
    assert_eq!(st.full, "hello");
    let (e, _) = stream_step(
        &mut st,
        StreamItem::ToolCallStart {
            call_id: "c1".to_string(),
            tool_name: "image_gen".to_string(),
            arguments: "{\"prompt\":\"cat\"}".to_string(),
        },
    );
    assert_eq!(e[0].kind, SubAgentEventKind::ToolCall);
    assert_eq!(e[0].tool_name, "image_gen");
    assert_eq!(e[0].arguments, "{\"prompt\":\"cat\"}");
    let (e, _) = stream_step(
        &mut st,
        StreamItem::ToolResult { call_id: "c1".to_string(), output: " {\"path\":\"a.png\",\"id\":\"x\"}".to_string(), is_error: false },
    );
    assert_eq!(e.len(), 2);
    assert_eq!(e[0].kind, SubAgentEventKind::Attachment);
    assert_eq!(e[1].kind, SubAgentEventKind::ToolResult);
    assert_eq!(e[1].tool_name, "image_gen");
    let (e, _) = stream_step(&mut st, StreamItem::ToolResult { call_id: "c9".to_string(), output: "plain".to_string(), is_error: true });
    assert_eq!(e.len(), 1);
    assert_eq!(e[0].tool_name, "");
    assert!(e[0].is_error);
    let (e, stop) = stream_step(&mut st, StreamItem::Usage);
    assert!(e.is_empty() && !stop);
    let (e, stop) = stream_step(&mut st, StreamItem::Failed("boom".to_string()));
    assert!(stop);
    assert_eq!(e[0].kind, SubAgentEventKind::Error);
    assert_eq!(e[0].content, "boom");
    assert!(e[0].is_error);
    assert_eq!(st.full, "hello");
}

#[test]
fn wrapped_content_comes_back() {
    let x = "fn main() { if a < b && c > d { \"q\" } }";
    assert_eq!(extract_content(&format!("<content>{x}</content>")), x);
    let y = "text with </content> inside";
    assert_eq!(extract_content(&format!("<content><![CDATA[{y}]]></content>")), y);
}

#[test]
fn favorites_list_newest_first() {
    let mut f = FavoriteWorkspaces::new();
    let a = f.add("/a").ok().unwrap();
    let b = f.add("  /b ").ok().unwrap();
    assert_eq!(f.add("/a").ok().unwrap(), a);
    let list = f.list();
    assert_eq!(list.len(), 2);
    assert_eq!(list[0].id, b);
    assert_eq!(list[0].path, "/b");
    assert_eq!(list[1].id, a);
    assert!(list[0].created_at > list[1].created_at);
    assert!(f.add("   ").is_err());
}

#[test]
fn store_id_filename_safe() {
    assert_eq!(id_to_file_name("a/b"), "a__b");
    assert_eq!(id_to_file_name("plain-id"), "plain-id");
    assert_eq!(id_to_file_name("/x//y/"), "__x____y__");
}

#[test]
fn favorite_created_at_is_one_past_the_latest_when_it_is_ahead_of_the_clock() {
    let mut f = FavoriteWorkspaces::new();
    let far = (i64::MAX as u64) + 10;
    f.workspaces.push(FavoriteWorkspace { id: "old".to_string(), path: "/old".to_string(), created_at: far });
    let id = f.add("/new").ok().unwrap();
    let list = f.list();
    assert_eq!(list[0].id, id);
    assert_eq!(list[0].created_at, far + 1);
    let id2 = f.add("/newer").ok().unwrap();
    assert_eq!(f.list()[0].id, id2);
    assert_eq!(f.list()[0].created_at, far + 2);
}

#[test]
fn favorite_created_at_follows_the_clock_on_an_empty_list() {
    let mut f = FavoriteWorkspaces::new();
    f.add("/a").ok().unwrap();
    let t = f.list()[0].created_at;
    // Milliseconds since the epoch, plus one: after 2020-01-01.
    assert!(t > 1_577_836_800_000);
}

fn table(rows: &[(&str, u64)]) -> Vec<(String, u64)> {
    rows.iter().map(|(k, t)| (k.to_string(), *t)).collect()
}

#[test]
fn plan_session_reuses_creates_and_evicts_the_oldest() {
    let t = table(&[("a", 5), ("b", 2), ("c", 9)]);
    assert!(matches!(plan_session(&t, "b", 16), SessionPlan::Reuse(1)));
    assert!(matches!(plan_session(&t, "d", 16), SessionPlan::Create { evict: None }));
    assert!(matches!(plan_session(&t, "d", 3), SessionPlan::Create { evict: Some(1) }));
    let tie = table(&[("a", 4), ("b", 4)]);
    assert!(matches!(plan_session(&tie, "z", 2), SessionPlan::Create { evict: Some(0) }));
    assert!(matches!(plan_session(&Vec::new(), "z", 0), SessionPlan::Create { evict: None }));
}

#[test]
fn finish_session_closes_or_keeps_the_last_messages() {
    let ms: Vec<Message> = (0..3).map(|i| Message::new(&format!("m{i}"), Role::User, "x", i)).collect();
    let reply = Message::new("r", Role::Assistant, "done", 9);
    assert!(matches!(finish_session(ms.clone(), reply.clone(), true, 40), SessionUpdate::Close));
    match finish_session(ms, reply, false, 2) {
        SessionUpdate::Keep(kept) => {
            let ids: Vec<&str> = kept.iter().map(|m| m.id.as_str()).collect();
            assert_eq!(ids, vec!["m2", "r"]);
        }
        SessionUpdate::Close => panic!("kept sessions are not closed"),
    }
}

#[test]
fn run_depth_refuses_and_restores() {
    let mut d = RunDepth::new(2);
    assert_eq!(d.enter("  ").unwrap_err().0, "prompt 不能为空");
    assert_eq!(d.current, 0);
    assert_eq!(d.enter("hi").unwrap(), 1);
    assert_eq!(d.enter("hi").unwrap(), 2);
    let e = d.enter("hi").unwrap_err();
    assert!(e.0.contains("嵌套深度"));
    assert_eq!(d.current, 2);
    d.leave();
    d.leave();
    assert_eq!(d.current, 0);
    assert_eq!(d.max, 2);
}
