//! The skill tools: listing, describing, enabling, searching, installing and
//! uninstalling skills.

use vstd::prelude::*;
use crate::clawhub::Owner;
use crate::memory::{ceil_prefix, cut_at_boundary};
use crate::skills::Skill;
use crate::text::{chars_of, dec, dec_chars, ends_with, extend_chars, string_of, trim, trim_chars};

verus! {

/// Listing takes no arguments.
pub struct ListInstalledSkillsArgs {}

/// A refused or failed call, by its message.
#[derive(Debug)]
pub struct ListInstalledSkillsError(pub String);

impl ListInstalledSkillsError {
    /// The text the error shows.
    pub fn message(&self) -> (r: String)
        ensures
            r@ == "list installed skills error: "@ + self.0@,
    {
        crate::text::str_cat("list installed skills error: ", self.0.as_str())
    }
}

/// Arguments: a skill id, whole or its first 8 characters.
pub struct GetSkillDetailArgs {
    pub id: String,
}

/// A refused or failed call, by its message.
#[derive(Debug)]
pub struct GetSkillDetailError(pub String);

impl GetSkillDetailError {
    /// The text the error shows.
    pub fn message(&self) -> (r: String)
        ensures
            r@ == "get skill detail error: "@ + self.0@,
    {
        crate::text::str_cat("get skill detail error: ", self.0.as_str())
    }
}

/// Arguments: a skill id, whole or its first 8 characters.
pub struct EnableSkillArgs {
    pub id: String,
}

/// A refused or failed call, by its message.
#[derive(Debug)]
pub struct EnableSkillError(pub String);

impl EnableSkillError {
    /// The text the error shows.
    pub fn message(&self) -> (r: String)
        ensures
            r@ == "enable skill error: "@ + self.0@,
    {
        crate::text::str_cat("enable skill error: ", self.0.as_str())
    }
}

/// Arguments of a ClawHub search.
pub struct SearchClawHubSkillsArgs {
    pub query: String,
    /// Most results (10 by default).
    pub limit: u32,
}

/// A refused or failed call, by its message.
#[derive(Debug)]
pub struct SearchClawHubSkillsError(pub String);

impl SearchClawHubSkillsError {
    /// The text the error shows.
    pub fn message(&self) -> (r: String)
        ensures
            r@ == "search clawhub skills error: "@ + self.0@,
    {
        crate::text::str_cat("search clawhub skills error: ", self.0.as_str())
    }
}

/// Arguments: the slug of the ClawHub skill to install.
pub struct InstallClawHubSkillArgs {
    pub slug: String,
}

/// A refused or failed call, by its message.
#[derive(Debug)]
pub struct InstallClawHubSkillError(pub String);

impl InstallClawHubSkillError {
    /// The text the error shows.
    pub fn message(&self) -> (r: String)
        ensures
            r@ == "install clawhub skill error: "@ + self.0@,
    {
        crate::text::str_cat("install clawhub skill error: ", self.0.as_str())
    }
}

/// Arguments: the id of the skill to remove.
pub struct UninstallSkillArgs {
    pub id: String,
}

/// A refused or failed call, by its message.
#[derive(Debug)]
pub struct UninstallSkillError(pub String);

impl UninstallSkillError {
    /// The text the error shows.
    pub fn message(&self) -> (r: String)
        ensures
            r@ == "uninstall skill error: "@ + self.0@,
    {
        crate::text::str_cat("uninstall skill error: ", self.0.as_str())
    }
}

} // verus!

verus! {

fn push_text(out: &mut Vec<char>, s: &str)
    ensures
        final(out)@ == old(out)@ + s@,
{
    let c = chars_of(s);
    extend_chars(out, &c);
}

fn push_num(out: &mut Vec<char>, n: usize)
    ensures
        final(out)@ == old(out)@ + dec(n as nat),
{
    let d = dec_chars(n as u64);
    extend_chars(out, &d);
}

/// A skill id as shown: its first 8 bytes, extended to a character boundary.
pub fn short_id(id: &str) -> (r: String)
    ensures
        r@ == ceil_prefix(id@, 8),
{
    let c = chars_of(id);
    let (v, _) = cut_at_boundary(&c, 8);
    string_of(&v)
}

/// A blank id or slug, refused.
pub open spec fn blank(s: Seq<char>) -> bool {
    trim(s).len() == 0
}

/// The trimmed argument, when it is not blank.
pub fn trimmed_arg(s: &str) -> (r: Option<String>)
    ensures
        r matches Some(t) ==> t@ == trim(s@) && !blank(s@),
        r is None ==> blank(s@),
{
    let c = chars_of(s);
    let t = trim_chars(&c);
    if t.len() == 0 {
        None
    } else {
        Some(string_of(&t))
    }
}

/// An installed skill as the list shows it.
pub struct SkillSummary {
    pub id: String,
    pub name: String,
    pub description: String,
    pub builtin: bool,
}

/// The list line of skill `s` at position `i`.
pub open spec fn summary_line(i: nat, s: SkillSummary) -> Seq<char> {
    dec(i + 1) + ". (id="@ + ceil_prefix(s.id@, 8) + ") "@ + (if s.builtin { "[内置]"@ } else { Seq::empty() }) + s.name@
        + " — "@ + s.description@ + "\n"@
}

pub open spec fn summary_lines(list: Seq<SkillSummary>, n: nat) -> Seq<char>
    decreases n,
{
    if n == 0 {
        Seq::empty()
    } else {
        summary_lines(list, (n - 1) as nat) + summary_line((n - 1) as nat, list[n - 1])
    }
}

/// The reply listing the installed skills.
pub open spec fn installed_list_text(list: Seq<SkillSummary>) -> Seq<char> {
    if list.len() == 0 {
        "当前没有任何已安装技能。可调用 search_clawhub_skills 从 ClawHub 查找并安装。"@
    } else {
        "当前共 "@ + dec(list.len()) + " 个已安装技能：\n"@ + summary_lines(list, list.len())
            + "\n提示：调用 get_skill_detail(id) 可获取技能完整说明；调用 enable_skill(id) 把技能指令注入会话上下文。"@
    }
}

/// Lists the installed skills (see `installed_list_text`).
pub fn render_installed_list(list: &Vec<SkillSummary>) -> (r: String)
    ensures
        r@ == installed_list_text(list@),
{
    if list.len() == 0 {
        return "当前没有任何已安装技能。可调用 search_clawhub_skills 从 ClawHub 查找并安装。".to_string();
    }
    let mut out: Vec<char> = Vec::new();
    push_text(&mut out, "当前共 ");
    push_num(&mut out, list.len());
    push_text(&mut out, " 个已安装技能：\n");
    let ghost head = out@;
    let mut i: usize = 0;
    while i < list.len()
        invariant
            i <= list.len(),
            out@ == head + summary_lines(list@, i as nat),
        decreases list.len() - i,
    {
        let s = &list[i];
        let ghost before = out@;
        push_num(&mut out, i + 1);
        push_text(&mut out, ". (id=");
        let sid = short_id(s.id.as_str());
        push_text(&mut out, sid.as_str());
        push_text(&mut out, ") ");
        if s.builtin {
            push_text(&mut out, "[内置]");
        }
        push_text(&mut out, s.name.as_str());
        push_text(&mut out, " — ");
        push_text(&mut out, s.description.as_str());
        push_text(&mut out, "\n");
        assert(out@ =~= before + summary_line(i as nat, list@[i as int]));
        i = i + 1;
    }
    push_text(&mut out, "\n提示：调用 get_skill_detail(id) 可获取技能完整说明；调用 enable_skill(id) 把技能指令注入会话上下文。");
    string_of(&out)
}

/// The reply when no skill matches `target`.
pub open spec fn not_found_reply(target: Seq<char>) -> Seq<char> {
    "未找到 id 包含「"@ + target + "」的技能。可调用 list_installed_skills 查看全部已安装技能。"@
}

/// Builds the reply when no skill matches `target` (see `not_found_reply`).
pub fn not_found_text(target: &str) -> (r: String)
    ensures
        r@ == not_found_reply(target@),
{
    let mut out: Vec<char> = Vec::new();
    push_text(&mut out, "未找到 id 包含「");
    push_text(&mut out, target);
    push_text(&mut out, "」的技能。可调用 list_installed_skills 查看全部已安装技能。");
    string_of(&out)
}

/// The detail of a skill: name and short id, description, its kind or
/// source, its directory, and its instructions between markers.
pub open spec fn skill_detail_text(s: Skill) -> Seq<char> {
    "技能："@ + s.name@ + "（id="@ + ceil_prefix(s.id@, 8) + "）\n"@ + "简介："@ + s.description@ + "\n"@
        + (if s.builtin {
        "类型：内置\n"@
    } else if crate::skills::opt_view(s.source) == Some("clawhub"@) {
        "来源：ClawHub\n"@
    } else {
        Seq::empty()
    }) + (match s.working_dir {
        Some(wd) => "工作目录："@ + wd@ + "\n"@ + "（可用 read_file / list_files / shell 工具访问此目录下的资源）\n"@,
        None => Seq::empty(),
    }) + "\n--- 技能指令（preamble）---\n"@ + (if s.preamble@.len() == 0 {
        "（preamble 为空，技能无显式指令；可能仅提供工作目录资源）\n"@
    } else if ends_with(s.preamble@, "\n"@) {
        s.preamble@
    } else {
        s.preamble@ + "\n"@
    }) + "\n--- 结束 ---\n"@ + "如需把此技能指令注入会话上下文以便后续对话遵循，调用 enable_skill(id)。"@
}

/// The reply to a detail request for `id` among the installed skills `all`:
/// a blank id is refused; else the trimmed id names a skill (see
/// `detail_match`) whose detail is shown, or the not-found reply is given.
pub fn skill_detail_reply(all: &Vec<Skill>, id: &str) -> (r: Result<String, GetSkillDetailError>)
    ensures
        r is Err <==> blank(id@),
        r matches Err(e) ==> e.0@ == "id 不能为空"@,
        r matches Ok(s) ==> s@ == match crate::skills::detail_match(all@, trim(id@)) {
            Some(i) => skill_detail_text(all@[i]),
            None => "未找到 id 包含「"@ + trim(id@) + "」的技能。可调用 list_installed_skills 查看全部已安装技能。"@,
        },
{
    match trimmed_arg(id) {
        None => Err(GetSkillDetailError("id 不能为空".to_string())),
        Some(t) => match crate::skills::find_detail_skill(all, t.as_str()) {
            Some(i) => Ok(render_skill_detail(&all[i])),
            None => Ok(not_found_text(t.as_str())),
        },
    }
}

fn is_clawhub(source: &Option<String>) -> (b: bool)
    ensures
        b == (crate::skills::opt_view(*source) == Some("clawhub"@)),
{
    match source {
        Some(s) => {
            let c = chars_of(s.as_str());
            let k = chars_of("clawhub");
            crate::text::eq_chars(&c, &k)
        },
        None => false,
    }
}

/// Describes a skill (see `skill_detail_text`).
#[verifier::spinoff_prover]
#[verifier::rlimit(40)]
pub fn render_skill_detail(s: &Skill) -> (r: String)
    ensures
        r@ == skill_detail_text(*s),
{
    let mut out: Vec<char> = Vec::new();
    push_text(&mut out, "技能：");
    push_text(&mut out, s.name.as_str());
    push_text(&mut out, "（id=");
    let sid = short_id(s.id.as_str());
    push_text(&mut out, sid.as_str());
    push_text(&mut out, "）\n");
    push_text(&mut out, "简介：");
    push_text(&mut out, s.description.as_str());
    push_text(&mut out, "\n");
    if s.builtin {
        push_text(&mut out, "类型：内置\n");
    } else if is_clawhub(&s.source) {
        push_text(&mut out, "来源：ClawHub\n");
    }
    match &s.working_dir {
        Some(wd) => {
            push_text(&mut out, "工作目录：");
            push_text(&mut out, wd.as_str());
            push_text(&mut out, "\n");
            push_text(&mut out, "（可用 read_file / list_files / shell 工具访问此目录下的资源）\n");
        },
        None => {},
    }
    push_text(&mut out, "\n--- 技能指令（preamble）---\n");
    let pc = chars_of(s.preamble.as_str());
    if pc.len() == 0 {
        push_text(&mut out, "（preamble 为空，技能无显式指令；可能仅提供工作目录资源）\n");
    } else {
        extend_chars(&mut out, &pc);
        let nl = chars_of("\n");
        if !crate::text::has_suffix(&pc, &nl) {
            push_text(&mut out, "\n");
        }
    }
    push_text(&mut out, "\n--- 结束 ---\n");
    push_text(&mut out, "如需把此技能指令注入会话上下文以便后续对话遵循，调用 enable_skill(id)。");
    string_of(&out)
}

/// The reply after enabling a skill, noting its directory when it has one.
pub open spec fn enabled_reply(s: Skill) -> Seq<char> {
    "已启用技能「"@ + s.name@ + "」（id="@ + ceil_prefix(s.id@, 8) + "）。技能指令已注入会话上下文，后续对话将遵循此指令。"@
        + (if s.working_dir is Some {
        "\n工作目录也已注入，可用 read_file / list_files / shell 访问技能资源。"@
    } else {
        Seq::empty()
    })
}

/// Builds the reply after enabling a skill (see `enabled_reply`).
pub fn enabled_text(s: &Skill) -> (r: String)
    ensures
        r@ == enabled_reply(*s),
{
    let mut out: Vec<char> = Vec::new();
    push_text(&mut out, "已启用技能「");
    push_text(&mut out, s.name.as_str());
    push_text(&mut out, "」（id=");
    let sid = short_id(s.id.as_str());
    push_text(&mut out, sid.as_str());
    push_text(&mut out, "）。技能指令已注入会话上下文，后续对话将遵循此指令。");
    if s.working_dir.is_some() {
        push_text(&mut out, "\n工作目录也已注入，可用 read_file / list_files / shell 访问技能资源。");
    }
    string_of(&out)
}

/// The reply when an enabled skill has no instructions.
pub open spec fn no_preamble_reply(name: Seq<char>) -> Seq<char> {
    "技能「"@ + name + "」无可用指令（preamble 为空），仅工作目录已注入会话。"@
}

/// Builds the reply when an enabled skill has no instructions (see `no_preamble_reply`).
pub fn no_preamble_text(name: &str) -> (r: String)
    ensures
        r@ == no_preamble_reply(name@),
{
    let mut out: Vec<char> = Vec::new();
    push_text(&mut out, "技能「");
    push_text(&mut out, name);
    push_text(&mut out, "」无可用指令（preamble 为空），仅工作目录已注入会话。");
    string_of(&out)
}

/// The reply when a slug is already installed.
pub open spec fn already_installed_reply(name: Seq<char>, slug: Seq<char>, id: Seq<char>) -> Seq<char> {
    "技能「"@ + name + "」（slug="@ + slug + "）已安装，无需重复安装。可调用 enable_skill(id="@ + ceil_prefix(id, 8)
        + ") 启用。"@
}

/// Builds the reply when a slug is already installed (see `already_installed_reply`).
pub fn already_installed_text(name: &str, slug: &str, id: &str) -> (r: String)
    ensures
        r@ == already_installed_reply(name@, slug@, id@),
{
    let mut out: Vec<char> = Vec::new();
    push_text(&mut out, "技能「");
    push_text(&mut out, name);
    push_text(&mut out, "」（slug=");
    push_text(&mut out, slug);
    push_text(&mut out, "）已安装，无需重复安装。可调用 enable_skill(id=");
    let sid = short_id(id);
    push_text(&mut out, sid.as_str());
    push_text(&mut out, ") 启用。");
    string_of(&out)
}

/// The reply after installing a skill.
pub open spec fn installed_reply(name: Seq<char>, slug: Seq<char>, id: Seq<char>) -> Seq<char> {
    "已安装技能「"@ + name + "」（slug="@ + slug + "，id="@ + ceil_prefix(id, 8)
        + "）。下一轮对话的 RAG 自动注入会包含它，也可直接调用 enable_skill(id="@ + ceil_prefix(id, 8)
        + ") 启用。"@
}

/// Builds the reply after installing a skill (see `installed_reply`).
pub fn installed_text(name: &str, slug: &str, id: &str) -> (r: String)
    ensures
        r@ == installed_reply(name@, slug@, id@),
{
    let sid = short_id(id);
    let mut out: Vec<char> = Vec::new();
    push_text(&mut out, "已安装技能「");
    push_text(&mut out, name);
    push_text(&mut out, "」（slug=");
    push_text(&mut out, slug);
    push_text(&mut out, "，id=");
    push_text(&mut out, sid.as_str());
    push_text(&mut out, "）。下一轮对话的 RAG 自动注入会包含它，也可直接调用 enable_skill(id=");
    push_text(&mut out, sid.as_str());
    push_text(&mut out, ") 启用。");
    string_of(&out)
}

/// Uninstalling is refused for a built-in skill.
pub fn check_uninstallable(s: &Skill) -> (r: Result<(), UninstallSkillError>)
    ensures
        r is Ok <==> !s.builtin,
        r matches Err(e) ==> e.0@ == "技能「"@ + s.name@ + "」（id="@ + ceil_prefix(s.id@, 8) + "）是内置技能，不可卸载"@,
{
    if !s.builtin {
        return Ok(());
    }
    let mut out: Vec<char> = Vec::new();
    push_text(&mut out, "技能「");
    push_text(&mut out, s.name.as_str());
    push_text(&mut out, "」（id=");
    let sid = short_id(s.id.as_str());
    push_text(&mut out, sid.as_str());
    push_text(&mut out, "）是内置技能，不可卸载");
    Err(UninstallSkillError(string_of(&out)))
}

/// The reply after uninstalling a skill.
pub fn uninstalled_text(name: &str, short: &str) -> (r: String)
    ensures
        r@ == "已卸载技能「"@ + name@ + "」（id="@ + short@ + "）。索引已重建，agent 将不再看到此技能。"@,
{
    let mut out: Vec<char> = Vec::new();
    push_text(&mut out, "已卸载技能「");
    push_text(&mut out, name);
    push_text(&mut out, "」（id=");
    push_text(&mut out, short);
    push_text(&mut out, "）。索引已重建，agent 将不再看到此技能。");
    string_of(&out)
}

/// A ClawHub search result, as the reply shows it.
pub struct SkillSearchHit {
    pub slug: Option<String>,
    pub display_name: Option<String>,
    pub summary: Option<String>,
    pub version: Option<String>,
    pub owner_handle: Option<String>,
    pub owner: Option<Owner>,
}

pub open spec fn text_or(o: Option<String>, d: Seq<char>) -> Seq<char> {
    match o {
        Some(s) => s@,
        None => d,
    }
}

/// The owner shown: the hit's own handle, else its owner's handle, else unknown.
pub open spec fn owner_text(h: SkillSearchHit) -> Seq<char> {
    match h.owner_handle {
        Some(s) => s@,
        None => match h.owner {
            Some(o) => text_or(o.handle, "(未知)"@),
            None => "(未知)"@,
        },
    }
}

pub open spec fn hit_line(i: nat, h: SkillSearchHit) -> Seq<char> {
    dec(i + 1) + ". [slug="@ + text_or(h.slug, "(无 slug)"@) + "] "@ + text_or(h.display_name, "(未命名)"@)
        + " (v"@ + text_or(h.version, "?"@) + ", by "@ + owner_text(h) + ")\n   "@ + text_or(
        h.summary,
        "(无简介)"@,
    ) + "\n"@
}

pub open spec fn hit_lines(hits: Seq<SkillSearchHit>, n: nat) -> Seq<char>
    decreases n,
{
    if n == 0 {
        Seq::empty()
    } else {
        hit_lines(hits, (n - 1) as nat) + hit_line((n - 1) as nat, hits[n - 1])
    }
}

/// The reply to a ClawHub search for `query`.
pub open spec fn clawhub_search_text(query: Seq<char>, hits: Seq<SkillSearchHit>) -> Seq<char> {
    if hits.len() == 0 {
        "未在 ClawHub 找到与「"@ + query + "」相关的技能。"@
    } else {
        "在 ClawHub 找到 "@ + dec(hits.len()) + " 个相关技能：\n"@ + hit_lines(hits, hits.len())
            + "\n提示：用 install_clawhub_skill(slug) 安装选定技能。"@
    }
}

fn push_or(out: &mut Vec<char>, o: &Option<String>, d: &str)
    ensures
        final(out)@ == old(out)@ + text_or(*o, d@),
{
    match o {
        Some(s) => push_text(out, s.as_str()),
        None => push_text(out, d),
    }
}

fn push_owner(out: &mut Vec<char>, h: &SkillSearchHit)
    ensures
        final(out)@ == old(out)@ + owner_text(*h),
{
    match &h.owner_handle {
        Some(s) => push_text(out, s.as_str()),
        None => match &h.owner {
            Some(o) => push_or(out, &o.handle, "(未知)"),
            None => push_text(out, "(未知)"),
        },
    }
}

fn push_hit_line(out: &mut Vec<char>, i: usize, h: &SkillSearchHit)
    requires
        i < usize::MAX,
    ensures
        final(out)@ == old(out)@ + hit_line(i as nat, *h),
{
    let ghost before = out@;
    push_num(out, i + 1);
    push_text(out, ". [slug=");
    push_or(out, &h.slug, "(无 slug)");
    push_text(out, "] ");
    push_or(out, &h.display_name, "(未命名)");
    push_text(out, " (v");
    push_or(out, &h.version, "?");
    push_text(out, ", by ");
    push_owner(out, h);
    push_text(out, ")\n   ");
    push_or(out, &h.summary, "(无简介)");
    push_text(out, "\n");
    assert(out@ =~= before + hit_line(i as nat, *h));
}

/// Renders a ClawHub search (see `clawhub_search_text`).
pub fn render_clawhub_search(query: &str, hits: &Vec<SkillSearchHit>) -> (r: String)
    ensures
        r@ == clawhub_search_text(query@, hits@),
{
    let mut out: Vec<char> = Vec::new();
    if hits.len() == 0 {
        push_text(&mut out, "未在 ClawHub 找到与「");
        push_text(&mut out, query);
        push_text(&mut out, "」相关的技能。");
        return string_of(&out);
    }
    push_text(&mut out, "在 ClawHub 找到 ");
    push_num(&mut out, hits.len());
    push_text(&mut out, " 个相关技能：\n");
    let ghost head = out@;
    let mut i: usize = 0;
    while i < hits.len()
        invariant
            i <= hits.len(),
            out@ == head + hit_lines(hits@, i as nat),
        decreases hits.len() - i,
    {
        push_hit_line(&mut out, i, &hits[i]);
        i = i + 1;
    }
    push_text(&mut out, "\n提示：用 install_clawhub_skill(slug) 安装选定技能。");
    string_of(&out)
}

/// The number of results asked of ClawHub: 10 when the limit is 0.
pub fn search_limit(limit: u32) -> (r: u32)
    ensures
        r == if limit == 0 { 10 } else { limit },
{
    if limit == 0 { 10 } else { limit }
}

/// What an install request does next.
#[derive(Debug)]
pub enum InstallStep {
    /// Answer at once: the slug is already installed.
    Reply(String),
    /// Fetch the skill with this (trimmed) slug from ClawHub and install it.
    Fetch { slug: String },
}

/// The first step of installing the ClawHub skill `slug`, given the skill
/// already installed from that slug, if any: a blank slug is refused; an
/// installed one is answered without fetching anything (installing is
/// idempotent); otherwise the trimmed slug is fetched.
pub fn install_step(slug: &str, installed: Option<&Skill>) -> (r: Result<InstallStep, InstallClawHubSkillError>)
    ensures
        r is Err <==> blank(slug@),
        r matches Err(e) ==> e.0@ == "slug 不能为空"@,
        (r matches Ok(InstallStep::Reply(_))) <==> !blank(slug@) && installed is Some,
        r matches Ok(InstallStep::Reply(t)) ==> t@ == already_installed_reply(
            installed.unwrap().name@,
            trim(slug@),
            installed.unwrap().id@,
        ),
        r matches Ok(InstallStep::Fetch { slug: s }) ==> s@ == trim(slug@),
{
    match trimmed_arg(slug) {
        None => Err(InstallClawHubSkillError("slug 不能为空".to_string())),
        Some(s) => match installed {
            Some(k) => Ok(InstallStep::Reply(already_installed_text(k.name.as_str(), s.as_str(), k.id.as_str()))),
            None => Ok(InstallStep::Fetch { slug: s }),
        },
    }
}

/// The last step of installing: the skill stored for the fetched `slug`
/// (see `is_clawhub_skill`) and the reply that announces it.
pub fn install_finish(
    slug: &str,
    skill_md_text: Option<&str>,
    version: &str,
    owner_handle: &str,
    dest_dir: String,
    created_at: u64,
) -> (r: (Skill, String))
    ensures
        crate::skills::is_clawhub_skill(
            r.0,
            slug@,
            match skill_md_text {
                Some(t) => Some(t@),
                None => None,
            },
            version@,
            owner_handle@,
            dest_dir@,
            created_at,
        ),
        r.1@ == installed_reply(r.0.name@, slug@, slug@),
{
    let s = crate::skills::clawhub_skill(slug, skill_md_text, version, owner_handle, dest_dir, created_at);
    let reply = installed_text(s.name.as_str(), slug, s.id.as_str());
    (s, reply)
}

/// What enabling a skill does to the conversation, and the reply.
#[derive(Debug)]
pub struct EnableOutcome {
    /// The reply to the caller.
    pub reply: String,
    /// The directory to set as the conversation's working directory.
    pub set_working_dir: Option<String>,
    /// The instructions to append to the conversation as a system message.
    pub system_message: Option<String>,
}

/// The effect on the conversation of enabling `s`, whose instructions are
/// `preamble`, when the conversation has (`working_dir_set`) or lacks a
/// working directory.
pub open spec fn enable_effect(s: Skill, preamble: Seq<char>, working_dir_set: bool, o: EnableOutcome) -> bool {
    &&& crate::skills::opt_view(o.set_working_dir) == (if !working_dir_set {
        crate::skills::opt_view(s.working_dir)
    } else {
        None
    })
    &&& crate::skills::opt_view(o.system_message) == (if preamble.len() > 0 {
        Some(preamble)
    } else {
        None
    })
    &&& o.reply@ == (if preamble.len() > 0 {
        enabled_reply(s)
    } else {
        no_preamble_reply(s.name@)
    })
}

/// Enables a skill in the current conversation: a blank id is refused, then
/// a missing conversation; the trimmed id names a skill (see `enable_match`)
/// or the not-found reply is given and nothing changes. The skill's
/// directory becomes the conversation's working directory when it has none;
/// its instructions (`resolve_preamble` with `skill_md`, the `SKILL.md` text
/// read from the skill's directory) are appended as a system message, or,
/// when there are none, the reply says so.
pub fn enable_step(
    target: &str,
    conversation: Option<&str>,
    skills: &Vec<Skill>,
    working_dir_set: bool,
    skill_md: Option<&str>,
) -> (r: Result<EnableOutcome, EnableSkillError>)
    ensures
        r is Err <==> blank(target@) || conversation is None,
        r matches Err(e) ==> e.0@ == if blank(target@) {
            "id 不能为空"@
        } else {
            "当前没有活动会话，无法启用技能"@
        },
        r matches Ok(o) ==> match crate::skills::enable_match(skills@, trim(target@)) {
            None => o.reply@ == not_found_reply(trim(target@)) && o.set_working_dir is None
                && o.system_message is None,
            Some(i) => enable_effect(
                skills@[i],
                crate::skills::effective_preamble(
                    skills@[i].preamble@,
                    match skill_md {
                        Some(t) => Some(t@),
                        None => None,
                    },
                ),
                working_dir_set,
                o,
            ),
        },
{
    let t = match trimmed_arg(target) {
        None => {
            return Err(EnableSkillError("id 不能为空".to_string()));
        },
        Some(t) => t,
    };
    if conversation.is_none() {
        return Err(EnableSkillError("当前没有活动会话，无法启用技能".to_string()));
    }
    match crate::skills::find_enable_skill(skills, t.as_str()) {
        None => Ok(EnableOutcome { reply: not_found_text(t.as_str()), set_working_dir: None, system_message: None }),
        Some(i) => {
            let s = &skills[i];
            let set_working_dir = if working_dir_set {
                None
            } else {
                match &s.working_dir {
                    Some(w) => Some(w.clone()),
                    None => None,
                }
            };
            let p = crate::skills::resolve_preamble(s, skill_md);
            if p.as_str().is_empty() {
                Ok(EnableOutcome { reply: no_preamble_text(s.name.as_str()), set_working_dir, system_message: None })
            } else {
                Ok(EnableOutcome { reply: enabled_text(s), set_working_dir, system_message: Some(p) })
            }
        },
    }
}

/// What an uninstall request does.
#[derive(Debug)]
pub enum UninstallStep {
    /// Answer only: no skill matches.
    Reply(String),
    /// Delete the skill with this id, then answer with `reply`.
    Delete { id: String, reply: String },
}

/// Uninstalling `id` among the installed skills `all`: a blank id is
/// refused; the trimmed id names a skill (see `detail_match`) or the
/// not-found reply is given; a built-in skill is refused; any other is
/// deleted, with the reply that says so.
pub fn uninstall_step(all: &Vec<Skill>, id: &str) -> (r: Result<UninstallStep, UninstallSkillError>)
    ensures
        r is Err <==> blank(id@) || (crate::skills::detail_match(all@, trim(id@)) matches Some(i)
            && all@[i].builtin),
        r matches Err(e) ==> e.0@ == if blank(id@) {
            "id 不能为空"@
        } else {
            let s = all@[crate::skills::detail_match(all@, trim(id@))->0];
            "技能「"@ + s.name@ + "」（id="@ + ceil_prefix(s.id@, 8) + "）是内置技能，不可卸载"@
        },
        r matches Ok(UninstallStep::Reply(t)) ==> crate::skills::detail_match(all@, trim(id@)) is None
            && t@ == not_found_reply(trim(id@)),
        r matches Ok(UninstallStep::Delete { id: d, reply }) ==> crate::skills::detail_match(all@, trim(id@))
            matches Some(i) && d@ == all@[i].id@ && reply@ == "已卸载技能「"@ + all@[i].name@ + "」（id="@
            + ceil_prefix(all@[i].id@, 8) + "）。索引已重建，agent 将不再看到此技能。"@,
        !blank(id@) && crate::skills::detail_match(all@, trim(id@)) is None ==> r is Ok,
{
    let t = match trimmed_arg(id) {
        None => {
            return Err(UninstallSkillError("id 不能为空".to_string()));
        },
        Some(t) => t,
    };
    match crate::skills::find_detail_skill(all, t.as_str()) {
        None => Ok(UninstallStep::Reply(not_found_text(t.as_str()))),
        Some(i) => {
            let s = &all[i];
            check_uninstallable(s)?;
            let short = short_id(s.id.as_str());
            Ok(UninstallStep::Delete { id: s.id.clone(), reply: uninstalled_text(s.name.as_str(), short.as_str()) })
        },
    }
}

} // verus!
