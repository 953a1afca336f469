use effisuite_logic::clawhub::parse_skill_md;
use effisuite_logic::skills::{find_detail_skill, find_enable_skill, find_first_prefix, find_unique, resolve_preamble, Skill};
use effisuite_logic::tools::skill_tools::{
    already_installed_text, check_uninstallable, enabled_text, installed_text, no_preamble_text, not_found_text,
    enable_step, install_finish, install_step, render_installed_list, render_skill_detail, search_limit, short_id,
    skill_detail_reply, trimmed_arg, uninstall_step, uninstalled_text, InstallStep, SkillSummary, UninstallStep,
};
use effisuite_logic::tools::sub_agent::{default_name, pool_done_report, pool_error_report, pool_start_report};

fn make_skill(id: &str, name: &str, desc: &str, preamble: &str) -> Skill {
    Skill {
        id: id.to_string(),
        name: name.to_string(),
        description: desc.to_string(),
        preamble: preamble.to_string(),
        tools: Vec::new(),
        working_dir: None,
        created_at: 0,
        builtin: false,
        source: None,
        source_slug: None,
        source_owner: None,
        source_version: None,
    }
}

fn summary(s: &Skill) -> SkillSummary {
    SkillSummary { id: s.id.clone(), name: s.name.clone(), description: s.description.clone(), builtin: s.builtin }
}

#[test]
fn list_installed_skills_empty() {
    let out = render_installed_list(&Vec::new());
    assert!(out.contains("没有任何已安装技能"));
    assert!(out.contains("search_clawhub_skills"));
}

#[test]
fn list_installed_skills_with_entries() {
    let mut b = make_skill("builtin-1", "Builtin", "built-in", "");
    b.builtin = true;
    let list = vec![summary(&make_skill("weather", "Weather", "forecast", "")), summary(&b)];
    let out = render_installed_list(&list);
    assert!(out.contains("2 个已安装技能"));
    assert!(out.contains("Weather"));
    assert!(out.contains("[内置]"));
}

#[test]
fn get_skill_detail_by_prefix() {
    let all = vec![make_skill("abcdef-1234", "Test", "desc", "preamble content")];
    let i = find_unique(&all, "abcdef").unwrap();
    let out = render_skill_detail(&all[i]);
    assert!(out.contains("Test"));
    assert!(out.contains("preamble content"));
}

#[test]
fn get_skill_detail_not_found() {
    let all = vec![make_skill("abcdef-1234", "Test", "desc", "")];
    assert!(find_unique(&all, "nonexistent").is_none());
    let out = not_found_text("nonexistent");
    assert!(out.contains("未找到"));
}

#[test]
fn get_skill_detail_rejects_empty_id() {
    assert!(trimmed_arg("  ").is_none());
    assert_eq!(trimmed_arg("  ab ").unwrap(), "ab");
}

#[test]
fn unique_match_needs_one_prefix_or_an_exact_id() {
    let all = vec![make_skill("ab-1", "A", "", ""), make_skill("ab-2", "B", "", ""), make_skill("x", "X", "", "")];
    assert!(find_unique(&all, "ab").is_none());
    assert_eq!(find_unique(&all, "ab-2"), Some(1));
    assert_eq!(find_unique(&all, "x"), Some(2));
    assert_eq!(find_first_prefix(&all, "ab"), Some(0));
    assert_eq!(find_first_prefix(&all, "zz"), None);
}

#[test]
fn resolve_preamble_uses_persisted_value() {
    let skill = make_skill("a", "A", "desc", "persisted preamble");
    assert_eq!(resolve_preamble(&skill, None), "persisted preamble");
}

#[test]
fn resolve_preamble_empty_when_no_working_dir() {
    let skill = make_skill("a", "A", "desc", "");
    assert!(resolve_preamble(&skill, None).is_empty());
    let from_file = resolve_preamble(&skill, Some("---\nname: A\n---\nDo things\n"));
    assert!(from_file.contains("Do things"));
}

#[test]
fn uninstall_skill_rejects_builtin() {
    let mut b = make_skill("agent-reach", "Agent Reach", "", "");
    b.builtin = true;
    let e = check_uninstallable(&b).err().unwrap();
    assert!(e.0.contains("内置技能"));
    assert!(check_uninstallable(&make_skill("c", "Custom", "", "")).is_ok());
}

#[test]
fn uninstall_skill_by_prefix_reports() {
    let out = uninstalled_text("Custom", &short_id("abcdef-1234"));
    assert!(out.contains("已卸载技能"));
    assert!(out.contains("Custom"));
    assert_eq!(out, "已卸载技能「Custom」（id=abcdef-1）。索引已重建，agent 将不再看到此技能。");
}

#[test]
fn skill_replies_render_exactly() {
    let mut s = make_skill("0123456789", "Weather", "", "p");
    assert_eq!(enabled_text(&s), "已启用技能「Weather」（id=01234567）。技能指令已注入会话上下文，后续对话将遵循此指令。");
    s.working_dir = Some("/skills/weather".to_string());
    assert!(enabled_text(&s).ends_with("\n工作目录也已注入，可用 read_file / list_files / shell 访问技能资源。"));
    assert_eq!(no_preamble_text("W"), "技能「W」无可用指令（preamble 为空），仅工作目录已注入会话。");
    assert_eq!(
        already_installed_text("W", "weather", "0123456789"),
        "技能「W」（slug=weather）已安装，无需重复安装。可调用 enable_skill(id=01234567) 启用。"
    );
    assert!(installed_text("W", "weather", "0123456789").contains("slug=weather，id=01234567"));
    assert_eq!(search_limit(0), 10);
    assert_eq!(search_limit(3), 3);
}

#[test]
fn pool_reports_render() {
    assert_eq!(pool_start_report("研究员"), "子 agent「研究员」已开始执行任务");
    assert!(pool_done_report("研究员", "").contains("已执行完成"));
    assert!(pool_done_report("研究员", "结论").contains("已完成：结论"));
    assert!(pool_error_report("研究员", "超时").contains("执行出错：超时"));
}

#[test]
fn detail_prefers_exact_id_over_ambiguous_prefix() {
    let all = vec![make_skill("abc", "短", "d1", "p1"), make_skill("abcdef", "长", "d2", "p2")];
    // "abc" is a prefix of both ids, but one id equals it exactly.
    assert_eq!(find_unique(&all, "abc"), None);
    assert_eq!(find_detail_skill(&all, "abc"), Some(0));
    assert_eq!(find_detail_skill(&all, "abcd"), Some(1));
    assert_eq!(find_detail_skill(&all, "zzz"), None);
}

#[test]
fn skill_detail_reply_cases() {
    let all = vec![make_skill("abc", "短", "d1", "p1"), make_skill("abcdef", "长", "d2", "p2")];
    let e = skill_detail_reply(&all, "   ").unwrap_err();
    assert_eq!(e.0, "id 不能为空");
    assert_eq!(skill_detail_reply(&all, " abc ").unwrap(), render_skill_detail(&all[0]));
    assert_eq!(skill_detail_reply(&all, "abcde").unwrap(), render_skill_detail(&all[1]));
    assert_eq!(skill_detail_reply(&all, "x1").unwrap(), not_found_text("x1"));
}

#[test]
fn default_name_takes_bytes_three_to_eight() {
    assert_eq!(default_name("sa_1a2b3c4d"), "子 agent · 1a2b3");
    assert_eq!(default_name("s1"), "子 agent · ");
    assert_eq!(default_name("abcdef"), "子 agent · def");
    // Bytes 3 to 8, widened to character boundaries.
    assert_eq!(default_name("会话一二三四五六七"), "子 agent · 话一");
    assert_eq!(default_name("abc你defgh"), "子 agent · 你de");
    assert_eq!(default_name("ab你cdefgh"), "子 agent · cde");
}

#[test]
fn install_step_refuses_blank_answers_installed_and_fetches_new() {
    let e = install_step("   ", None).unwrap_err();
    assert_eq!(e.0, "slug 不能为空");
    let mut k = make_skill("weather-pro", "天气", "d", "p");
    k.source_slug = Some("weather-pro".to_string());
    match install_step(" weather-pro ", Some(&k)).unwrap() {
        InstallStep::Reply(t) => assert_eq!(t, already_installed_text("天气", "weather-pro", "weather-pro")),
        InstallStep::Fetch { .. } => panic!("an installed slug is not fetched again"),
    }
    match install_step(" weather-pro ", None).unwrap() {
        InstallStep::Fetch { slug } => assert_eq!(slug, "weather-pro"),
        InstallStep::Reply(_) => panic!("a new slug is fetched"),
    }
}

#[test]
fn install_finish_builds_skill_and_reply() {
    let md = "---\nname: 天气助手\ndescription: 查天气\nversion: 2.0.0\n---\n正文";
    let (s, reply) = install_finish("weather", Some(md), "1.0.0", "alice", "/skills/weather".to_string(), 7);
    assert_eq!(s.id, "weather");
    assert_eq!(s.name, "天气助手");
    assert_eq!(s.working_dir.as_deref(), Some("/skills/weather"));
    assert_eq!(s.source.as_deref(), Some("clawhub"));
    assert_eq!(reply, installed_text("天气助手", "weather", "weather"));
    let (s2, _) = install_finish("weather", None, "1.0.0", "", "/d".to_string(), 7);
    assert_eq!(s2.name, "weather");
    assert_eq!(s2.description, "ClawHub 技能: weather");
    assert_eq!(s2.source_owner, None);
    assert_eq!(s2.source_version.as_deref(), Some("1.0.0"));
}

#[test]
fn enable_step_refusals() {
    let all = vec![make_skill("abc", "甲", "d", "p")];
    assert_eq!(enable_step(" ", Some("c1"), &all, false, None).unwrap_err().0, "id 不能为空");
    assert_eq!(enable_step("abc", None, &all, false, None).unwrap_err().0, "当前没有活动会话，无法启用技能");
}

#[test]
fn enable_step_picks_exact_then_prefix_and_sets_directory_once() {
    let mut a = make_skill("abcdef", "长", "d", "指令A");
    a.working_dir = Some("/w/a".to_string());
    let b = make_skill("abc", "短", "d", "指令B");
    let all = vec![a.clone(), b.clone()];
    assert_eq!(find_enable_skill(&all, "abc"), Some(1));
    assert_eq!(find_enable_skill(&all, "abcd"), Some(0));
    let o = enable_step("abcd", Some("c1"), &all, false, None).unwrap();
    assert_eq!(o.set_working_dir.as_deref(), Some("/w/a"));
    assert_eq!(o.system_message.as_deref(), Some("指令A"));
    assert_eq!(o.reply, enabled_text(&a));
    let o2 = enable_step("abcd", Some("c1"), &all, true, None).unwrap();
    assert_eq!(o2.set_working_dir, None);
    let o3 = enable_step("abc", Some("c1"), &all, false, None).unwrap();
    assert_eq!(o3.set_working_dir, None);
    assert_eq!(o3.reply, enabled_text(&b));
    let o4 = enable_step("zz", Some("c1"), &all, false, None).unwrap();
    assert_eq!(o4.reply, not_found_text("zz"));
    assert!(o4.system_message.is_none());
}

#[test]
fn enable_step_reads_skill_md_when_preamble_is_empty() {
    let mut a = make_skill("s1", "空", "d", "");
    a.working_dir = Some("/w".to_string());
    let all = vec![a];
    let md = "---\nname: x\n---\n正文指令";
    let o = enable_step("s1", Some("c"), &all, false, Some(md)).unwrap();
    assert_eq!(o.system_message, Some(parse_skill_md(md).body));
    assert!(o.system_message.as_deref().unwrap().contains("正文指令"));
    let o2 = enable_step("s1", Some("c"), &all, false, None).unwrap();
    assert!(o2.system_message.is_none());
    assert_eq!(o2.reply, no_preamble_text("空"));
    assert_eq!(o2.set_working_dir.as_deref(), Some("/w"));
}

#[test]
fn uninstall_step_cases() {
    let mut builtin = make_skill("core-1", "内置", "d", "p");
    builtin.builtin = true;
    let all = vec![builtin, make_skill("abc", "短", "d", "p"), make_skill("abcdef", "长", "d", "p")];
    assert_eq!(uninstall_step(&all, " ").unwrap_err().0, "id 不能为空");
    assert_eq!(uninstall_step(&all, "core").unwrap_err().0, "技能「内置」（id=core-1）是内置技能，不可卸载");
    match uninstall_step(&all, "abc").unwrap() {
        UninstallStep::Delete { id, reply } => {
            assert_eq!(id, "abc");
            assert_eq!(reply, uninstalled_text("短", "abc"));
        }
        UninstallStep::Reply(_) => panic!("an exact id is found"),
    }
    match uninstall_step(&all, "zz").unwrap() {
        UninstallStep::Reply(t) => assert_eq!(t, not_found_text("zz")),
        UninstallStep::Delete { .. } => panic!("nothing matches"),
    }
}
