//! Sub-agents: their arguments, events, system prompt, model choice, and
//! the decisions of a run.

use vstd::prelude::*;
use crate::memory::{ceil_chars, cut_at_boundary, lemma_ceil_chars_bounds, lemma_ceil_chars_exact};
use crate::config::{model_index, AgentConfig, ModelKind};
use crate::models::{message_views, Message, MessageModel};
use crate::text::{
    strs, trim_start, trim_start_chars, starts_with,
    byte_len, char_width, chars_of, dec, dec_chars, extend_chars, slice_chars,
    string_of, trim, trim_chars, eq_chars,
};

verus! {

/// Kind of a sub-agent event.
#[derive(Debug, Clone, Copy, PartialEq, Eq, Structural)]
pub enum SubAgentEventKind {
    /// The run started (content: the task).
    Started,
    /// A piece of the reply.
    Token,
    ToolCall,
    ToolResult,
    /// A generated image (content: its JSON record).
    Attachment,
    /// The run finished (content: the whole reply).
    Done,
    Error,
}

/// An event of a sub-agent run, as the front end receives it.
#[derive(Debug, Clone)]
pub struct SubAgentEvent {
    /// The main conversation.
    pub conversation_id: String,
    pub session_id: String,
    pub name: String,
    pub model: String,
    /// Nesting depth (1 when the main agent called it).
    pub depth: usize,
    pub kind: SubAgentEventKind,
    pub content: String,
    pub tool_name: String,
    pub arguments: String,
    pub is_error: bool,
}

/// Arguments of a sub-agent call.
pub struct SubAgentArgs {
    pub prompt: String,
    /// Reuse a session to continue it; a new one is made when absent.
    pub session_id: Option<String>,
    pub name: Option<String>,
    pub model_id: Option<String>,
    /// Added to the system prompt.
    pub instructions: Option<String>,
    /// Allowed tools; absent means the default set, empty means none.
    pub tools: Option<Vec<String>>,
    /// Close the session after the run.
    pub close: Option<bool>,
}

/// A refused or failed call, by its message.
#[derive(Debug)]
pub struct SubAgentError(pub String);

impl SubAgentError {
    /// The text the error shows.
    pub fn message(&self) -> (r: String)
        ensures
            r@ == "sub_agent error: "@ + self.0@,
    {
        crate::text::str_cat("sub_agent error: ", self.0.as_str())
    }
}

} // verus!

verus! {

/// Deepest nesting allowed (the main agent is at depth 0).
pub const DEFAULT_MAX_DEPTH: usize = 2;
/// Most sessions kept at once.
pub const DEFAULT_MAX_SESSIONS: usize = 16;
/// Most messages kept per session.
pub const DEFAULT_MAX_MESSAGES: usize = 40;

/// The fixed part of a sub-agent's system prompt, after its name and depth.
pub open spec fn preamble_rules() -> Seq<char> {
    "。你的任务由主 agent 下达。\n执行准则：\n1. 直接执行任务，不要寒暄，不要复述任务。\n2. 需要读取文件、搜索代码、执行命令时，主动调用对应工具。\n3. 若任务超出能力或信息不足，明确说明缺什么。\n4. 完成时用简洁的最终答复总结结果（主 agent 会直接读取你的最终回复）。"@
}

/// A sub-agent's system prompt: who it is and at which depth, the rules it
/// follows, and the task's instructions when they are not blank.
pub open spec fn sub_agent_preamble(name: Seq<char>, instructions: Option<Seq<char>>, depth: nat) -> Seq<char> {
    let base = "你是被主 agent 召唤的子 agent「"@ + name + "」（嵌套层级 "@ + dec(depth) + "）"@ + preamble_rules();
    match instructions {
        Some(i) => if trim(i).len() > 0 {
            base + "\n\n【任务要求】\n"@ + trim(i)
        } else {
            base
        },
        None => base,
    }
}

fn push_text(out: &mut Vec<char>, s: &str)
    ensures
        final(out)@ == old(out)@ + s@,
{
    let c = chars_of(s);
    extend_chars(out, &c);
}

/// Builds a sub-agent's system prompt (see `sub_agent_preamble`).
pub fn build_sub_agent_preamble(name: &str, instructions: Option<&str>, depth: usize) -> (r: String)
    ensures
        r@ == sub_agent_preamble(name@, match instructions { Some(i) => Some(i@), None => None }, depth as nat),
{
    let mut p: Vec<char> = Vec::new();
    push_text(&mut p, "你是被主 agent 召唤的子 agent「");
    push_text(&mut p, name);
    push_text(&mut p, "」（嵌套层级 ");
    let d = dec_chars(depth as u64);
    extend_chars(&mut p, &d);
    push_text(&mut p, "）");
    push_text(&mut p, "。你的任务由主 agent 下达。\n执行准则：\n1. 直接执行任务，不要寒暄，不要复述任务。\n2. 需要读取文件、搜索代码、执行命令时，主动调用对应工具。\n3. 若任务超出能力或信息不足，明确说明缺什么。\n4. 完成时用简洁的最终答复总结结果（主 agent 会直接读取你的最终回复）。");
    match instructions {
        Some(i) => {
            let ic = chars_of(i);
            let t = trim_chars(&ic);
            if t.len() > 0 {
                push_text(&mut p, "\n\n【任务要求】\n");
                extend_chars(&mut p, &t);
            }
        },
        None => {},
    }
    string_of(&p)
}

/// The first `max` characters of `s`, with `…` appended when it was longer.
pub open spec fn pool_text(s: Seq<char>, max: nat) -> Seq<char> {
    if s.len() > max {
        s.subrange(0, max as int).push('…')
    } else {
        s
    }
}

/// Cuts a text for the agent pool (see `pool_text`).
pub fn truncate_for_pool(s: &str, max: usize) -> (r: String)
    ensures
        r@ == pool_text(s@, max as nat),
{
    let cs = chars_of(s);
    if cs.len() > max {
        let mut v = slice_chars(&cs, 0, max);
        v.push('…');
        string_of(&v)
    } else {
        string_of(&cs)
    }
}

/// How a model kind is written in messages.
pub open spec fn kind_name(k: ModelKind) -> Seq<char> {
    match k {
        ModelKind::Chat => "Chat"@,
        ModelKind::ImageGen => "ImageGen"@,
        ModelKind::VideoGen => "VideoGen"@,
        ModelKind::AudioTranscribe => "AudioTranscribe"@,
    }
}

fn kind_label(k: ModelKind) -> (s: &'static str)
    ensures
        s@ == kind_name(k),
{
    match k {
        ModelKind::Chat => "Chat",
        ModelKind::ImageGen => "ImageGen",
        ModelKind::VideoGen => "VideoGen",
        ModelKind::AudioTranscribe => "AudioTranscribe",
    }
}

/// The model settings `(api_key, base_url, model_name, enable_tools)`.
pub type ModelSettings = (String, String, String, bool);

/// What a sub-agent runs on: the model `model_id` names (which must exist, be
/// a chat model and have a key), else the active model when it has a key,
/// else the inline configuration when it has a key; otherwise an error.
pub open spec fn model_choice(c: AgentConfig, model_id: Option<Seq<char>>) -> Result<(Seq<char>, Seq<char>, Seq<char>, bool), Seq<char>> {
    match model_id {
        Some(id) => match model_index(c.models@, id, 0) {
            None => Err("模型 "@ + id + " 不存在（manage_model list 可查看可用 id）"@),
            Some(i) => {
                let m = c.models@[i];
                if m.kind != ModelKind::Chat {
                    Err("模型 "@ + id + " 不是对话模型（kind="@ + kind_name(m.kind) + "），子 agent 只能使用 kind=chat 的模型"@)
                } else if trim(m.api_key@).len() == 0 {
                    Err("模型 "@ + id + " 未配置 api_key"@)
                } else {
                    Ok((m.api_key@, m.base_url@, m.model_name@, m.enable_tools))
                }
            },
        },
        None => {
            let active = match c.active_model_id {
                Some(a) => match model_index(c.models@, a@, 0) {
                    Some(i) => if trim(c.models@[i].api_key@).len() > 0 { Some(i) } else { None },
                    None => None,
                },
                None => None,
            };
            match active {
                Some(i) => {
                    let m = c.models@[i];
                    Ok((m.api_key@, m.base_url@, m.model_name@, m.enable_tools))
                },
                None => if trim(c.api_key@).len() == 0 {
                    Err("未配置任何可用的对话模型（api_key 为空）"@)
                } else {
                    Ok((c.api_key@, c.base_url@, c.model_name@, c.enable_tools))
                },
            }
        },
    }
}

fn find_model_index(models: &Vec<crate::config::AvailableModel>, id: &str) -> (r: Option<usize>)
    ensures
        r matches Some(i) ==> i < models.len() && model_index(models@, id@, 0) == Some(i as int),
        r is None ==> model_index(models@, id@, 0) is None,
{
    let target = chars_of(id);
    let mut i: usize = 0;
    while i < models.len()
        invariant
            i <= models.len(),
            target@ == id@,
            model_index(models@, id@, 0) == model_index(models@, id@, i as int),
        decreases models.len() - i,
    {
        let c = chars_of(models[i].id.as_str());
        if crate::text::eq_chars(&c, &target) {
            return Some(i);
        }
        i = i + 1;
    }
    None
}

fn blank(s: &str) -> (b: bool)
    ensures
        b == (trim(s@).len() == 0),
{
    let c = chars_of(s);
    trim_chars(&c).len() == 0
}

/// Chooses the model of a sub-agent (see `model_choice`).
pub fn resolve_model_config(config: &AgentConfig, model_id: Option<&str>) -> (r: Result<ModelSettings, String>)
    ensures
        match model_choice(*config, match model_id { Some(i) => Some(i@), None => None }) {
            Ok(t) => r matches Ok(x) && (x.0@, x.1@, x.2@, x.3) == t,
            Err(m) => r matches Err(e) && e@ == m,
        },
{
    match model_id {
        Some(id) => {
            match find_model_index(&config.models, id) {
                None => {
                    let mut v: Vec<char> = Vec::new();
                    push_text(&mut v, "模型 ");
                    push_text(&mut v, id);
                    push_text(&mut v, " 不存在（manage_model list 可查看可用 id）");
                    Err(string_of(&v))
                },
                Some(i) => {
                    let m = &config.models[i];
                    if m.kind != ModelKind::Chat {
                        let mut v: Vec<char> = Vec::new();
                        push_text(&mut v, "模型 ");
                        push_text(&mut v, id);
                        push_text(&mut v, " 不是对话模型（kind=");
                        push_text(&mut v, kind_label(m.kind));
                        push_text(&mut v, "），子 agent 只能使用 kind=chat 的模型");
                        Err(string_of(&v))
                    } else if blank(m.api_key.as_str()) {
                        let mut v: Vec<char> = Vec::new();
                        push_text(&mut v, "模型 ");
                        push_text(&mut v, id);
                        push_text(&mut v, " 未配置 api_key");
                        Err(string_of(&v))
                    } else {
                        Ok((m.api_key.clone(), m.base_url.clone(), m.model_name.clone(), m.enable_tools))
                    }
                },
            }
        },
        None => {
            let active: Option<usize> = match &config.active_model_id {
                Some(a) => match find_model_index(&config.models, a.as_str()) {
                    Some(i) => if !blank(config.models[i].api_key.as_str()) { Some(i) } else { None },
                    None => None,
                },
                None => None,
            };
            match active {
                Some(i) => {
                    let m = &config.models[i];
                    Ok((m.api_key.clone(), m.base_url.clone(), m.model_name.clone(), m.enable_tools))
                },
                None => if blank(config.api_key.as_str()) {
                    Err("未配置任何可用的对话模型（api_key 为空）".to_string())
                } else {
                    Ok((config.api_key.clone(), config.base_url.clone(), config.model_name.clone(), config.enable_tools))
                },
            }
        },
    }
}

} // verus!

verus! {

/// Refuses a run before it starts: a blank task, or a nesting depth at the limit.
pub fn check_run(prompt: &str, current_depth: usize, max_depth: usize) -> (r: Result<(), SubAgentError>)
    ensures
        r is Ok <==> trim(prompt@).len() > 0 && current_depth < max_depth,
        r matches Err(e) ==> e.0@ == if trim(prompt@).len() == 0 {
            "prompt 不能为空"@
        } else {
            "子 agent 嵌套深度已达上限 "@ + dec(max_depth as nat) + "("@ + dec(current_depth as nat)
                + ")，禁止继续嵌套。请在主 agent 层直接处理或合并任务。"@
        },
{
    if blank(prompt) {
        return Err(SubAgentError("prompt 不能为空".to_string()));
    }
    if current_depth >= max_depth {
        let mut v: Vec<char> = Vec::new();
        push_text(&mut v, "子 agent 嵌套深度已达上限 ");
        let a = dec_chars(max_depth as u64);
        extend_chars(&mut v, &a);
        push_text(&mut v, "(");
        let b = dec_chars(current_depth as u64);
        extend_chars(&mut v, &b);
        push_text(&mut v, ")，禁止继续嵌套。请在主 agent 层直接处理或合并任务。");
        return Err(SubAgentError(string_of(&v)));
    }
    Ok(())
}

/// The nesting depth of running sub-agents and its limit.
#[derive(Debug, Clone, Copy)]
pub struct RunDepth {
    pub current: usize,
    pub max: usize,
}

/// Whether a run with `prompt` may start at depth `d`.
pub open spec fn may_enter(d: RunDepth, prompt: Seq<char>) -> bool {
    trim(prompt).len() > 0 && d.current < d.max
}

impl RunDepth {
    /// No run in progress, at most `max` nested.
    pub fn new(max: usize) -> (d: RunDepth)
        ensures
            d.current == 0,
            d.max == max,
    {
        RunDepth { current: 0, max }
    }

    /// Starts a run: refused (as `check_run` words it) for a blank prompt or
    /// at the limit, the depth unchanged; else the depth goes up by one and
    /// the run's depth is returned.
    pub fn enter(&mut self, prompt: &str) -> (r: Result<usize, SubAgentError>)
        ensures
            r is Ok <==> may_enter(*old(self), prompt@),
            *final(self) == depth_after_enter(*old(self), prompt@),
            r matches Ok(d) ==> d == old(self).current + 1 && *final(self) == (RunDepth {
                current: d,
                max: old(self).max,
            }),
            r is Err ==> *final(self) == *old(self),
            r matches Err(e) ==> e.0@ == if trim(prompt@).len() == 0 {
                "prompt 不能为空"@
            } else {
                "子 agent 嵌套深度已达上限 "@ + dec(old(self).max as nat) + "("@ + dec(old(self).current as nat)
                    + ")，禁止继续嵌套。请在主 agent 层直接处理或合并任务。"@
            },
    {
        check_run(prompt, self.current, self.max)?;
        self.current = self.current + 1;
        Ok(self.current)
    }

    /// Ends a run: the depth goes down by one.
    pub fn leave(&mut self)
        requires
            old(self).current > 0,
        ensures
            *final(self) == (RunDepth { current: (old(self).current - 1) as usize, max: old(self).max }),
    {
        self.current = self.current - 1;
    }
}

/// The depth after a run with `prompt` started at `d`, whether it was
/// admitted or refused.
pub open spec fn depth_after_enter(d: RunDepth, prompt: Seq<char>) -> RunDepth {
    if may_enter(d, prompt) {
        RunDepth { current: (d.current + 1) as usize, max: d.max }
    } else {
        d
    }
}

/// A run leaves the depth as it found it: a refused run never raises it,
/// and an admitted one raises it by one and lowers it by one when it ends.
pub proof fn lemma_run_restores_depth(d: RunDepth, prompt: Seq<char>)
    ensures
        !may_enter(d, prompt) ==> depth_after_enter(d, prompt) == d,
        may_enter(d, prompt) ==> depth_after_enter(d, prompt).current > 0 && (RunDepth {
            current: (depth_after_enter(d, prompt).current - 1) as usize,
            max: depth_after_enter(d, prompt).max,
        }) == d,
{
}

/// The default display name of a session: `子 agent · ` and bytes 3 to 8 of
/// its id, each end moved forward to the next character boundary when it
/// falls inside a character, and cut at the end of a shorter id.
pub open spec fn default_session_name(session_id: Seq<char>) -> Seq<char> {
    "子 agent · "@ + session_id.subrange(
        ceil_chars(session_id, 3) as int,
        ceil_chars(session_id, 8) as int,
    )
}

/// The default name of a new session (see `default_session_name`).
pub fn default_name(session_id: &str) -> (r: String)
    ensures
        r@ == default_session_name(session_id@),
{
    let cs = chars_of(session_id);
    let (a, _) = cut_at_boundary(&cs, 3);
    let (b, _) = cut_at_boundary(&cs, 8);
    let lo = a.len();
    let hi = b.len();
    proof {
        lemma_ceil_chars_bounds(cs@, 3, 8);
        lemma_ceil_chars_bounds(cs@, 8, 8);
    }
    let mut v: Vec<char> = Vec::new();
    push_text(&mut v, "子 agent · ");
    let mid = slice_chars(&cs, lo, hi);
    extend_chars(&mut v, &mid);
    string_of(&v)
}

/// When bytes 3 and 8 of an id fall on character boundaries, its default
/// name holds exactly the bytes 3 to 8 (what `&id[3..8]` gives).
pub proof fn lemma_default_name_bytes(s: Seq<char>, i3: int, i8: int)
    requires
        0 <= i3 <= i8 <= s.len(),
        byte_len(s.subrange(0, i3)) == 3,
        byte_len(s.subrange(0, i8)) == 8,
    ensures
        default_session_name(s) == "子 agent · "@ + s.subrange(i3, i8),
{
    lemma_ceil_chars_exact(s, i3, 3);
    lemma_ceil_chars_exact(s, i8, 8);
}

/// Position of the session unused the longest (the first such), if any.
pub fn oldest_session(last_active: &Vec<u64>) -> (r: Option<usize>)
    ensures
        r is None <==> last_active.len() == 0,
        r matches Some(i) ==> i < last_active.len() && forall|j: int| 0 <= j < last_active.len() ==> last_active@[i as int] <= #[trigger] last_active@[j],
        r matches Some(i) ==> forall|j: int| 0 <= j < i ==> last_active@[i as int] < #[trigger] last_active@[j],
{
    if last_active.len() == 0 {
        return None;
    }
    let mut best: usize = 0;
    let mut i: usize = 1;
    while i < last_active.len()
        invariant
            1 <= i <= last_active.len(),
            best < i,
            forall|j: int| 0 <= j < i ==> last_active@[best as int] <= #[trigger] last_active@[j],
            forall|j: int| 0 <= j < best ==> last_active@[best as int] < #[trigger] last_active@[j],
        decreases last_active.len() - i,
    {
        if last_active[i] < last_active[best] {
            best = i;
        }
        i = i + 1;
    }
    Some(best)
}

/// Position of the first session, from `from` on, whose id is `id`.
pub open spec fn session_position(sessions: Seq<(String, u64)>, id: Seq<char>, from: int) -> Option<int>
    decreases sessions.len() - from,
{
    if from < 0 || from >= sessions.len() {
        None
    } else if sessions[from].0@ == id {
        Some(from)
    } else {
        session_position(sessions, id, from + 1)
    }
}

/// What a run does with the session table before it starts.
#[derive(Debug)]
pub enum SessionPlan {
    /// Continue the session at this position.
    Reuse(usize),
    /// Open a new session, first dropping the one at `evict` when the table is full.
    Create { evict: Option<usize> },
}

/// Plans a run on the session table `sessions` (each session's id and last
/// use): a session with id `session_id` is continued; otherwise a new one is
/// opened, and when the table already holds `max_sessions` sessions the one
/// unused the longest (the first such) is dropped to make room.
pub fn plan_session(sessions: &Vec<(String, u64)>, session_id: &str, max_sessions: usize) -> (r: SessionPlan)
    ensures
        match session_position(sessions@, session_id@, 0) {
            Some(i) => r matches SessionPlan::Reuse(k) && k == i,
            None => r matches SessionPlan::Create { evict } && (evict is Some <==> sessions.len() >= max_sessions
                && sessions.len() > 0) && (evict matches Some(k) ==> k < sessions.len() && (forall|j: int|
                0 <= j < sessions.len() ==> sessions@[k as int].1 <= #[trigger] sessions@[j].1) && (forall|j: int|
                0 <= j < k ==> sessions@[k as int].1 < #[trigger] sessions@[j].1)),
        },
{
    let target = chars_of(session_id);
    let mut i: usize = 0;
    while i < sessions.len()
        invariant
            i <= sessions.len(),
            target@ == session_id@,
            session_position(sessions@, session_id@, 0) == session_position(sessions@, session_id@, i as int),
        decreases sessions.len() - i,
    {
        let c = chars_of(sessions[i].0.as_str());
        if eq_chars(&c, &target) {
            return SessionPlan::Reuse(i);
        }
        i = i + 1;
    }
    if sessions.len() < max_sessions {
        return SessionPlan::Create { evict: None };
    }
    let mut times: Vec<u64> = Vec::new();
    let mut j: usize = 0;
    while j < sessions.len()
        invariant
            j <= sessions.len(),
            times@.len() == j,
            forall|k: int| 0 <= k < j ==> times@[k] == #[trigger] sessions@[k].1,
        decreases sessions.len() - j,
    {
        times.push(sessions[j].1);
        j = j + 1;
    }
    let evict = oldest_session(&times);
    proof {
        assert forall|k: int| 0 <= k < sessions.len() implies times@[k] == #[trigger] sessions@[k].1 by {}
    }
    SessionPlan::Create { evict }
}

/// What a finished run leaves in the session table.
#[derive(Debug)]
pub enum SessionUpdate {
    /// Drop the session.
    Close,
    /// Keep the session with this history (and mark it used now).
    Keep(Vec<Message>),
}

/// The history a session keeps: its last `max` messages.
pub open spec fn kept_history(ms: Seq<MessageModel>, max: nat) -> Seq<MessageModel> {
    if ms.len() > max {
        ms.subrange(ms.len() - max, ms.len() as int)
    } else {
        ms
    }
}

/// The session table's update after a run that ended with `reply`: a
/// session asked to close is dropped; otherwise it keeps its history with the
/// reply appended, cut to the last `max_messages` messages.
pub fn finish_session(messages: Vec<Message>, reply: Message, close: bool, max_messages: usize) -> (r: SessionUpdate)
    ensures
        close <==> r is Close,
        r matches SessionUpdate::Keep(v) ==> message_views(v@) == kept_history(
            message_views(messages@.push(reply)),
            max_messages as nat,
        ),
{
    if close {
        return SessionUpdate::Close;
    }
    let mut ms = messages;
    let ghost before = ms@;
    ms.push(reply);
    assert(ms@ == before.push(reply));
    trim_history(&mut ms, max_messages);
    SessionUpdate::Keep(ms)
}

/// Keeps the last `max` messages of a session.
pub fn trim_history(messages: &mut Vec<Message>, max: usize)
    ensures
        message_views(final(messages)@) == if old(messages)@.len() > max {
            message_views(old(messages)@).subrange(old(messages)@.len() - max, old(messages)@.len() as int)
        } else {
            message_views(old(messages)@)
        },
{
    if messages.len() <= max {
        return;
    }
    let ghost mv = message_views(messages@);
    let start = messages.len() - max;
    let mut kept: Vec<Message> = Vec::new();
    let mut i: usize = start;
    while i < messages.len()
        invariant
            start <= i <= messages.len(),
            start == messages.len() - max,
            mv == message_views(messages@),
            message_views(kept@) == mv.subrange(start as int, i as int),
        decreases messages.len() - i,
    {
        let ghost before = kept@;
        kept.push(messages[i].duplicate());
        assert(message_views(kept@) =~= message_views(before).push(mv[i as int]));
        assert(mv.subrange(start as int, i + 1) =~= mv.subrange(start as int, i as int).push(mv[i as int]));
        i = i + 1;
    }
    *messages = kept;
}

/// Whether a sub-agent gets tools: the model allows them and the allow-list
/// is not explicitly empty.
pub fn tools_enabled(tools: &Option<Vec<String>>, model_tools: bool) -> (b: bool)
    ensures
        b == (model_tools && !(tools matches Some(t) && t@.len() == 0)),
{
    let disabled = match tools {
        Some(t) => t.len() == 0,
        None => false,
    };
    !disabled && model_tools
}

/// What the main agent receives when a run finishes.
pub open spec fn run_report(name: Seq<char>, session_id: Seq<char>, model: Seq<char>, depth: nat, full: Seq<char>) -> Seq<char> {
    "[子 agent「"@ + name + "」完成：会话 "@ + session_id + "，模型 "@ + model + "，嵌套深度 "@ + dec(depth) + "]\n"@ + full
}

/// Builds the final report of a run (see `run_report`).
pub fn finish_report(name: &str, session_id: &str, model: &str, depth: usize, full: &str) -> (r: String)
    ensures
        r@ == run_report(name@, session_id@, model@, depth as nat, full@),
{
    let mut v: Vec<char> = Vec::new();
    push_text(&mut v, "[子 agent「");
    push_text(&mut v, name);
    push_text(&mut v, "」完成：会话 ");
    push_text(&mut v, session_id);
    push_text(&mut v, "，模型 ");
    push_text(&mut v, model);
    push_text(&mut v, "，嵌套深度 ");
    let d = dec_chars(depth as u64);
    extend_chars(&mut v, &d);
    push_text(&mut v, "]\n");
    push_text(&mut v, full);
    string_of(&v)
}

/// The pool status a run reports when it finishes: done, with the first 500
/// characters of its reply when there is one.
pub fn pool_done_report(name: &str, full: &str) -> (r: String)
    ensures
        r@ == if pool_text(full@, 500).len() == 0 {
            "子 agent「"@ + name@ + "」已执行完成"@
        } else {
            "子 agent「"@ + name@ + "」已完成："@ + pool_text(full@, 500)
        },
{
    let summary = truncate_for_pool(full, 500);
    let mut v: Vec<char> = Vec::new();
    push_text(&mut v, "子 agent「");
    push_text(&mut v, name);
    if summary.as_str().is_empty() {
        push_text(&mut v, "」已执行完成");
    } else {
        push_text(&mut v, "」已完成：");
        push_text(&mut v, summary.as_str());
    }
    string_of(&v)
}

/// The pool status a run reports when it fails, with the first 300
/// characters of the error.
pub fn pool_error_report(name: &str, err: &str) -> (r: String)
    ensures
        r@ == "子 agent「"@ + name@ + "」执行出错："@ + pool_text(err@, 300),
{
    let e = truncate_for_pool(err, 300);
    let mut v: Vec<char> = Vec::new();
    push_text(&mut v, "子 agent「");
    push_text(&mut v, name);
    push_text(&mut v, "」执行出错：");
    push_text(&mut v, e.as_str());
    string_of(&v)
}

/// The pool status a run reports when it starts.
pub fn pool_start_report(name: &str) -> (r: String)
    ensures
        r@ == "子 agent「"@ + name@ + "」已开始执行任务"@,
{
    let mut v: Vec<char> = Vec::new();
    push_text(&mut v, "子 agent「");
    push_text(&mut v, name);
    push_text(&mut v, "」已开始执行任务");
    string_of(&v)
}

/// The error a failed run returns.
pub fn run_failure(name: &str, err: &str) -> (e: SubAgentError)
    ensures
        e.0@ == "子 agent「"@ + name@ + "」执行失败: "@ + err@,
{
    let mut v: Vec<char> = Vec::new();
    push_text(&mut v, "子 agent「");
    push_text(&mut v, name);
    push_text(&mut v, "」执行失败: ");
    push_text(&mut v, err);
    SubAgentError(string_of(&v))
}

} // verus!

verus! {

/// The shape of a generated session id: `sa_` and 8 lower-case hex digits.
pub open spec fn fresh_session_id(s: Seq<char>) -> bool {
    &&& s.len() == 11
    &&& s[0] == 's' && s[1] == 'a' && s[2] == '_'
    &&& forall|i: int| 3 <= i < 11 ==> crate::ids::is_lower_hex(#[trigger] s[i])
}

/// The session id of a run: the given id, trimmed, when it is not blank,
/// else a new one made of `sa_` and the first 8 digits of a fresh random UUID.
pub fn new_session_id(given: Option<&str>) -> (r: String)
    ensures
        (given matches Some(g) && trim(g@).len() > 0) ==> r@ == trim(given.unwrap()@),
        !(given matches Some(g) && trim(g@).len() > 0) ==> fresh_session_id(r@),
{
    match given {
        Some(g) => {
            let c = chars_of(g);
            let t = trim_chars(&c);
            if t.len() > 0 {
                return string_of(&t);
            }
        },
        None => {},
    }
    let u = crate::ids::new_uuid();
    let uc = chars_of(u.as_str());
    let head = slice_chars(&uc, 0, 8);
    let mut v: Vec<char> = Vec::new();
    v.push('s');
    v.push('a');
    v.push('_');
    extend_chars(&mut v, &head);
    proof {
        assert forall|i: int| 3 <= i < 11 implies crate::ids::is_lower_hex(#[trigger] v@[i]) by {
            assert(v@[i] == uc@[i - 3]);
        }
    }
    string_of(&v)
}

proof fn lemma_ascii_prefix_bytes(s: Seq<char>, k: int)
    requires
        0 <= k <= s.len(),
        forall|i: int| 0 <= i < k ==> char_width(#[trigger] s[i]) == 1,
    ensures
        byte_len(s.subrange(0, k)) == k,
    decreases k,
{
    if k == 0 {
        assert(s.subrange(0, 0) =~= Seq::<char>::empty());
    } else {
        lemma_ascii_prefix_bytes(s, k - 1);
        crate::text::lemma_byte_len_prefix_step(s, k - 1);
    }
}

/// A generated session id is named by its 5 hex digits after `sa_`.
pub proof fn lemma_fresh_session_name(s: Seq<char>)
    requires
        fresh_session_id(s),
    ensures
        default_session_name(s) == "子 agent · "@ + s.subrange(3, 8),
{
    assert forall|i: int| 0 <= i < 8 implies char_width(#[trigger] s[i]) == 1 by {
        if i >= 3 {
            assert(crate::ids::is_lower_hex(s[i]));
        }
    }
    lemma_ascii_prefix_bytes(s, 3);
    lemma_ascii_prefix_bytes(s, 8);
    lemma_default_name_bytes(s, 3, 8);
}

} // verus!

verus! {

/// The keys of the JSON object that `text` holds, when `serde_json` parses
/// it as one (`None` for any other JSON value and for text that does not parse).
pub uninterp spec fn json_object_keys(text: Seq<char>) -> Option<Seq<Seq<char>>>;

/// `serde_json::from_str::<serde_json::Value>(text)`, reduced to the keys of
/// the object it yields. What the parser accepts is not restated here: the
/// result is only named, as a function of the text.
#[verifier::external_body]
fn parse_object_keys(text: &str) -> (r: Option<Vec<String>>)
    ensures
        r matches Some(v) ==> json_object_keys(text@) == Some(strs(v@)),
        r is None ==> json_object_keys(text@) is None,
{
    match serde_json::from_str::<serde_json::Value>(text) {
        Ok(serde_json::Value::Object(m)) => Some(m.keys().cloned().collect()),
        _ => None,
    }
}

fn has_key(keys: &Vec<String>, key: &str) -> (b: bool)
    ensures
        b == strs(keys@).contains(key@),
{
    let k = chars_of(key);
    let mut i: usize = 0;
    while i < keys.len()
        invariant
            i <= keys.len(),
            k@ == key@,
            forall|j: int| 0 <= j < i ==> strs(keys@)[j] != key@,
        decreases keys.len() - i,
    {
        let c = chars_of(keys[i].as_str());
        if crate::text::eq_chars(&c, &k) {
            assert(strs(keys@)[i as int] == key@);
            return true;
        }
        i = i + 1;
    }
    false
}

/// A tool result announces a generated image: after leading white space it
/// starts with `{`, and it is a JSON object with both a `path` and an `id` key.
pub open spec fn announces_attachment(output: Seq<char>) -> bool {
    &&& starts_with(trim_start(output), seq!['{'])
    &&& json_object_keys(output) matches Some(ks) && ks.contains("path"@) && ks.contains("id"@)
}

/// Whether a tool result announces a generated image (see `announces_attachment`).
pub fn is_attachment_result(output: &str) -> (b: bool)
    ensures
        b == announces_attachment(output@),
{
    let cs = chars_of(output);
    let t = trim_start_chars(&cs);
    if t.len() == 0 || t[0] != '{' {
        proof {
            if t@.len() > 0 {
                assert(t@.subrange(0, 1)[0] == t@[0]);
                assert(seq!['{'][0] == '{');
            }
        }
        return false;
    }
    assert(t@.subrange(0, 1) =~= seq![t@[0]]);
    match parse_object_keys(output) {
        Some(keys) => has_key(&keys, "path") && has_key(&keys, "id"),
        None => false,
    }
}

/// One item of a sub-agent's reply stream.
pub enum StreamItem {
    /// A piece of reply text.
    Text(String),
    /// The model calls a tool (arguments as JSON text).
    ToolCallStart { call_id: String, tool_name: String, arguments: String },
    ToolResult { call_id: String, output: String, is_error: bool },
    Reasoning,
    Usage,
    /// The stream failed with this message.
    Failed(String),
}

/// An event to send for a stream item, without the run's fixed fields.
pub struct Emit {
    pub kind: SubAgentEventKind,
    pub content: String,
    pub tool_name: String,
    pub arguments: String,
    pub is_error: bool,
}

/// What an emitted event holds, as the contracts see it.
pub struct EmitModel {
    pub kind: SubAgentEventKind,
    pub content: Seq<char>,
    pub tool_name: Seq<char>,
    pub arguments: Seq<char>,
    pub is_error: bool,
}

impl View for Emit {
    type V = EmitModel;

    open spec fn view(&self) -> EmitModel {
        EmitModel {
            kind: self.kind,
            content: self.content@,
            tool_name: self.tool_name@,
            arguments: self.arguments@,
            is_error: self.is_error,
        }
    }
}

pub open spec fn emit_views(v: Seq<Emit>) -> Seq<EmitModel> {
    v.map_values(|e: Emit| e@)
}

pub open spec fn emitted(kind: SubAgentEventKind, content: Seq<char>, tool_name: Seq<char>, arguments: Seq<char>, is_error: bool) -> EmitModel {
    EmitModel { kind, content, tool_name, arguments, is_error }
}

/// A run in progress: the reply so far, and the tool called under each call
/// id, in the order the calls started.
pub struct RunState {
    pub full: String,
    pub calls: Vec<(String, String)>,
}

pub open spec fn call_views(v: Seq<(String, String)>) -> Seq<(Seq<char>, Seq<char>)> {
    v.map_values(|p: (String, String)| (p.0@, p.1@))
}

/// The tool name last recorded for a call id (empty when none).
pub open spec fn call_name(calls: Seq<(Seq<char>, Seq<char>)>, id: Seq<char>) -> Seq<char>
    decreases calls.len(),
{
    if calls.len() == 0 {
        Seq::empty()
    } else if calls.last().0 == id {
        calls.last().1
    } else {
        call_name(calls.drop_last(), id)
    }
}

impl RunState {
    /// A run that has produced nothing yet.
    pub fn new() -> (s: RunState)
        ensures
            s.full@.len() == 0,
            s.calls@.len() == 0,
    {
        RunState { full: String::new(), calls: Vec::new() }
    }
}

fn lookup_call(calls: &Vec<(String, String)>, id: &str) -> (r: String)
    ensures
        r@ == call_name(call_views(calls@), id@),
{
    let key = chars_of(id);
    let ghost cv = call_views(calls@);
    let mut i: usize = calls.len();
    assert(cv.subrange(0, i as int) =~= cv);
    while i > 0
        invariant
            i <= calls.len(),
            cv == call_views(calls@),
            key@ == id@,
            call_name(cv, id@) == call_name(cv.subrange(0, i as int), id@),
        decreases i,
    {
        let c = chars_of(calls[i - 1].0.as_str());
        assert(cv.subrange(0, i as int).drop_last() =~= cv.subrange(0, i - 1));
        assert(cv.subrange(0, i as int).last() == cv[i - 1]);
        if eq_chars(&c, &key) {
            return calls[i - 1].1.clone();
        }
        i = i - 1;
    }
    String::new()
}

/// What one stream item does to a run. Text is appended to the reply and
/// sent as a token; a tool call is remembered by its id and announced; a tool
/// result is sent with the name of its tool, preceded by an attachment event
/// when it announces a generated image; reasoning and usage are not sent; a
/// failure is sent as an error and stops the run (`true`).
pub open spec fn step_effect(full: Seq<char>, calls: Seq<(Seq<char>, Seq<char>)>, item: StreamItem) -> (Seq<char>, Seq<(Seq<char>, Seq<char>)>, Seq<EmitModel>, bool) {
    match item {
        StreamItem::Text(c) => (full + c@, calls, seq![emitted(SubAgentEventKind::Token, c@, Seq::empty(), Seq::empty(), false)], false),
        StreamItem::ToolCallStart { call_id, tool_name, arguments } => (
            full,
            calls.push((call_id@, tool_name@)),
            seq![emitted(SubAgentEventKind::ToolCall, Seq::empty(), tool_name@, arguments@, false)],
            false,
        ),
        StreamItem::ToolResult { call_id, output, is_error } => {
            let result = emitted(SubAgentEventKind::ToolResult, output@, call_name(calls, call_id@), Seq::empty(), is_error);
            (
                full,
                calls,
                if announces_attachment(output@) {
                    seq![emitted(SubAgentEventKind::Attachment, output@, Seq::empty(), Seq::empty(), false), result]
                } else {
                    seq![result]
                },
                false,
            )
        },
        StreamItem::Reasoning => (full, calls, Seq::empty(), false),
        StreamItem::Usage => (full, calls, Seq::empty(), false),
        StreamItem::Failed(e) => (full, calls, seq![emitted(SubAgentEventKind::Error, e@, Seq::empty(), Seq::empty(), true)], true),
    }
}

fn emit(kind: SubAgentEventKind, content: String, tool_name: String, arguments: String, is_error: bool) -> (e: Emit)
    ensures
        e@ == emitted(kind, content@, tool_name@, arguments@, is_error),
{
    Emit { kind, content, tool_name, arguments, is_error }
}

/// Applies one stream item to a run (see `step_effect`); returns the events
/// to send and whether the run stops.
pub fn stream_step(state: &mut RunState, item: StreamItem) -> (r: (Vec<Emit>, bool))
    ensures
        ({
            let (f, c, es, stop) = step_effect(old(state).full@, call_views(old(state).calls@), item);
            &&& final(state).full@ == f
            &&& call_views(final(state).calls@) == c
            &&& emit_views(r.0@) == es
            &&& r.1 == stop
        }),
{
    let ghost item0 = item;
    let ghost cv0 = call_views(state.calls@);
    let mut out: Vec<Emit> = Vec::new();
    match item {
        StreamItem::Text(c) => {
            let mut full = chars_of(state.full.as_str());
            let cc = chars_of(c.as_str());
            extend_chars(&mut full, &cc);
            state.full = string_of(&full);
            out.push(emit(SubAgentEventKind::Token, c, String::new(), String::new(), false));
            assert(emit_views(out@) =~= seq![emitted(SubAgentEventKind::Token, cc@, Seq::empty(), Seq::empty(), false)]);
            (out, false)
        },
        StreamItem::ToolCallStart { call_id, tool_name, arguments } => {
            let name_copy = tool_name.clone();
            state.calls.push((call_id, tool_name));
            assert(call_views(state.calls@) =~= cv0.push((call_id@, name_copy@)));
            out.push(emit(SubAgentEventKind::ToolCall, String::new(), name_copy, arguments, false));
            assert(emit_views(out@) =~= seq![emitted(SubAgentEventKind::ToolCall, Seq::empty(), name_copy@, arguments@, false)]);
            (out, false)
        },
        StreamItem::ToolResult { call_id, output, is_error } => {
            let name = lookup_call(&state.calls, call_id.as_str());
            if is_attachment_result(output.as_str()) {
                out.push(emit(SubAgentEventKind::Attachment, output.clone(), String::new(), String::new(), false));
            }
            out.push(emit(SubAgentEventKind::ToolResult, output, name, String::new(), is_error));
            assert(emit_views(out@) =~= step_effect(state.full@, cv0, item0).2);
            (out, false)
        },
        StreamItem::Reasoning => {
            assert(emit_views(out@) =~= Seq::<EmitModel>::empty());
            (out, false)
        },
        StreamItem::Usage => {
            assert(emit_views(out@) =~= Seq::<EmitModel>::empty());
            (out, false)
        },
        StreamItem::Failed(e) => {
            out.push(emit(SubAgentEventKind::Error, e, String::new(), String::new(), true));
            assert(emit_views(out@) =~= step_effect(state.full@, cv0, item0).2);
            (out, true)
        },
    }
}

} // verus!
