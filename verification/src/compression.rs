//! Message compression: parsing the compression agent's `<act>` decisions,
//! applying them to a conversation, and building the prompt that asks for them.

use vstd::prelude::*;
use crate::error::CoreError;
use crate::models::{message_views, Message, MessageModel, Role};
use crate::text::{
    chars_of, dec, dec_chars, eq_chars, extend_chars, find, find_chars, find_from,
    lemma_find_from_bounds, lemma_suffix_step, match_at, replace_all, replace_chars, slice_chars,
    split_chars, split_on, string_of, strs, trim, trim_chars, views,
};

verus! {

/// What a compression action is, as the contracts see it.
pub enum ActionModel {
    Keep { reason: Seq<char>, ids: Seq<Seq<char>> },
    Hide { reason: Seq<char>, ids: Seq<Seq<char>> },
    Replace { reason: Seq<char>, ids: Seq<Seq<char>>, new_content: Seq<char> },
}

impl ActionModel {
    pub open spec fn ids(self) -> Seq<Seq<char>> {
        match self {
            ActionModel::Keep { ids, .. } => ids,
            ActionModel::Hide { ids, .. } => ids,
            ActionModel::Replace { ids, .. } => ids,
        }
    }

    pub open spec fn reason(self) -> Seq<char> {
        match self {
            ActionModel::Keep { reason, .. } => reason,
            ActionModel::Hide { reason, .. } => reason,
            ActionModel::Replace { reason, .. } => reason,
        }
    }
}

/// One compression decision on a set of messages.
#[derive(Debug, Clone, PartialEq, Eq)]
pub enum CompressionAction {
    /// Leave the messages as they are.
    Keep { reason: String, message_ids: Vec<String> },
    /// Leave the messages out of the prompt.
    Hide { reason: String, message_ids: Vec<String> },
    /// Show `new_content` in place of the messages' content.
    Replace { reason: String, message_ids: Vec<String>, new_content: String },
}

impl View for CompressionAction {
    type V = ActionModel;

    open spec fn view(&self) -> ActionModel {
        match self {
            CompressionAction::Keep { reason, message_ids } => ActionModel::Keep {
                reason: reason@,
                ids: strs(message_ids@),
            },
            CompressionAction::Hide { reason, message_ids } => ActionModel::Hide {
                reason: reason@,
                ids: strs(message_ids@),
            },
            CompressionAction::Replace { reason, message_ids, new_content } => ActionModel::Replace {
                reason: reason@,
                ids: strs(message_ids@),
                new_content: new_content@,
            },
        }
    }
}

impl CompressionAction {
    /// The ids of the messages the action concerns.
    pub fn message_ids(&self) -> (r: &[String])
        ensures
            strs(r@) == self@.ids(),
    {
        match self {
            CompressionAction::Keep { message_ids, .. } => message_ids.as_slice(),
            CompressionAction::Hide { message_ids, .. } => message_ids.as_slice(),
            CompressionAction::Replace { message_ids, .. } => message_ids.as_slice(),
        }
    }

    /// Why the action was taken.
    pub fn reason(&self) -> (r: &str)
        ensures
            r@ == self@.reason(),
    {
        match self {
            CompressionAction::Keep { reason, .. } => reason.as_str(),
            CompressionAction::Hide { reason, .. } => reason.as_str(),
            CompressionAction::Replace { reason, .. } => reason.as_str(),
        }
    }
}

/// The views of a sequence of actions.
pub open spec fn action_views(v: Seq<CompressionAction>) -> Seq<ActionModel> {
    v.map_values(|a: CompressionAction| a@)
}

/// The compression state of one conversation: its actions in the order they
/// were taken (a later action overrides an earlier one on the same message).
#[derive(Debug, Clone, PartialEq, Eq)]
pub struct CompressionState {
    pub actions: Vec<CompressionAction>,
    /// When it was last compressed, in milliseconds.
    pub updated_at: u64,
}

impl Default for CompressionState {
    /// No actions, never compressed.
    fn default() -> (s: CompressionState)
        ensures
            s.actions@.len() == 0,
            s.updated_at == 0,
    {
        CompressionState { actions: Vec::new(), updated_at: 0 }
    }
}

/// The file name (without extension) under which a conversation's state is
/// stored: the id with each `/` written as `__`.
pub fn id_to_file_name(id: &str) -> (r: String)
    ensures
        r@ == replace_all(id@, seq!['/'], seq!['_', '_']),
{
    let s = chars_of(id);
    let slash = crate::text::single('/');
    let mut sep: Vec<char> = Vec::new();
    sep.push('_');
    sep.push('_');
    assert(sep@ =~= seq!['_', '_']);
    let v = replace_chars(&s, &slash, &sep);
    string_of(&v)
}

} // verus!

verus! {

/// The text between the first `open` and the first `close` after it.
pub open spec fn tag_content(block: Seq<char>, open: Seq<char>, close: Seq<char>) -> Option<
    Seq<char>,
> {
    match find(block, open) {
        None => None,
        Some(i) => match find_from(block, close, i + open.len()) {
            None => None,
            Some(j) => Some(block.subrange(i + open.len(), j)),
        },
    }
}

/// `s` without any leading `c`.
pub open spec fn strip_lead(s: Seq<char>, c: char) -> Seq<char>
    decreases s.len(),
{
    if s.len() > 0 && s[0] == c {
        strip_lead(s.drop_first(), c)
    } else {
        s
    }
}

/// `s` without any trailing `c`.
pub open spec fn strip_trail(s: Seq<char>, c: char) -> Seq<char>
    decreases s.len(),
{
    if s.len() > 0 && s.last() == c {
        strip_trail(s.drop_last(), c)
    } else {
        s
    }
}

/// The trimmed pieces that are not empty, in order.
pub open spec fn nonempty_trimmed(pieces: Seq<Seq<char>>) -> Seq<Seq<char>>
    decreases pieces.len(),
{
    if pieces.len() == 0 {
        Seq::empty()
    } else {
        let rest = nonempty_trimmed(pieces.drop_last());
        let t = trim(pieces.last());
        if t.len() > 0 {
            rest.push(t)
        } else {
            rest
        }
    }
}

/// The ids of a `<completionId>` value: `[a, b, ...]` or `a, b, ...`,
/// brackets and blanks dropped, empty items skipped.
pub open spec fn id_list(raw: Seq<char>) -> Seq<Seq<char>> {
    nonempty_trimmed(split_on(strip_trail(strip_lead(trim(raw), '['), ']'), ','))
}

/// What one `<act>` block parses to: the action, or the message of the error.
pub open spec fn act_outcome(block: Seq<char>) -> Result<ActionModel, Seq<char>> {
    match tag_content(block, "<reason>"@, "</reason>"@) {
        None => Err("<act> 缺少 <reason> 标签"@),
        Some(r) => match tag_content(block, "<method>"@, "</method>"@) {
            None => Err("<act> 缺少 <method> 标签"@),
            Some(m) => match tag_content(block, "<completionId>"@, "</completionId>"@) {
                None => Err("<act> 缺少 <completionId> 标签"@),
                Some(raw) => {
                    let ids = id_list(raw);
                    let reason = trim(r);
                    let method = trim(m);
                    if ids.len() == 0 {
                        Err("<completionId> 解析后为空数组"@)
                    } else if method == "保持"@ {
                        Ok(ActionModel::Keep { reason, ids })
                    } else if method == "隐藏"@ {
                        Ok(ActionModel::Hide { reason, ids })
                    } else if method == "替换"@ {
                        match tag_content(block, "<newContent>"@, "</newContent>"@) {
                            None => Err("method=替换 缺少 <newContent> 标签"@),
                            Some(n) => Ok(
                                ActionModel::Replace { reason, ids, new_content: trim(n) },
                            ),
                        }
                    } else {
                        Err("未知 method: "@ + method + "（必须是 保持/隐藏/替换）"@)
                    }
                },
            },
        },
    }
}

pub open spec fn act_open() -> Seq<char> {
    seq!['<', 'a', 'c', 't', '>']
}

pub open spec fn act_close() -> Seq<char> {
    seq!['<', '/', 'a', 'c', 't', '>']
}

/// The actions of the closed `<act>` blocks of `t` from position `pos` on;
/// blocks that do not parse are skipped, and an unclosed block ends the scan.
pub open spec fn acts_from(t: Seq<char>, pos: nat) -> Seq<ActionModel>
    decreases t.len() - pos,
{
    if pos >= t.len() {
        Seq::empty()
    } else {
        match find_from(t, act_open(), pos as int) {
            None => Seq::empty(),
            Some(o) => {
                let cs = o + act_open().len();
                match find_from(t, act_close(), cs) {
                    None => Seq::empty(),
                    Some(c) => {
                        proof {
                            lemma_find_from_bounds(t, act_open(), pos as int);
                            lemma_find_from_bounds(t, act_close(), cs);
                        }
                        let rest = acts_from(t, (c + act_close().len()) as nat);
                        match act_outcome(t.subrange(cs, c)) {
                            Ok(a) => seq![a] + rest,
                            Err(_) => rest,
                        }
                    },
                }
            },
        }
    }
}

/// The actions that a compression response `t` holds.
pub open spec fn parsed_actions(t: Seq<char>) -> Seq<ActionModel> {
    acts_from(t, 0)
}

} // verus!

verus! {

/// The text between the first `open` and the first `close` after it.
fn extract_tag_content(block: &[char], open: &str, close: &str) -> (r: Option<Vec<char>>)
    ensures
        r matches Some(v) ==> tag_content(block@, open@, close@) == Some(v@),
        r is None ==> tag_content(block@, open@, close@) is None,
{
    let o = chars_of(open);
    let c = chars_of(close);
    match find_chars(block, &o, 0) {
        None => None,
        Some(i) => {
            let start = i + o.len();
            match find_chars(block, &c, start) {
                None => None,
                Some(j) => Some(slice_chars(block, start, j)),
            }
        },
    }
}

fn strip_lead_chars(s: &[char], c: char) -> (v: Vec<char>)
    ensures
        v@ == strip_lead(s@, c),
{
    let mut i: usize = 0;
    assert(s@.subrange(0, s@.len() as int) =~= s@);
    while i < s.len() && s[i] == c
        invariant
            i <= s.len(),
            strip_lead(s@.subrange(i as int, s@.len() as int), c) == strip_lead(s@, c),
        decreases s.len() - i,
    {
        proof {
            lemma_suffix_step(s@, i as int);
        }
        i = i + 1;
    }
    if i < s.len() {
        proof {
            lemma_suffix_step(s@, i as int);
        }
    }
    slice_chars(s, i, s.len())
}

fn strip_trail_chars(s: &[char], c: char) -> (v: Vec<char>)
    ensures
        v@ == strip_trail(s@, c),
{
    let mut j: usize = s.len();
    assert(s@.subrange(0, s@.len() as int) =~= s@);
    while j > 0 && s[j - 1] == c
        invariant
            j <= s.len(),
            strip_trail(s@.subrange(0, j as int), c) == strip_trail(s@, c),
        decreases j,
    {
        assert(s@.subrange(0, j as int).drop_last() =~= s@.subrange(0, j - 1));
        j = j - 1;
    }
    slice_chars(s, 0, j)
}

/// Parses a `<completionId>` value into its ids.
fn parse_id_array(raw: &[char]) -> (r: Vec<String>)
    ensures
        strs(r@) == id_list(raw@),
{
    let t = trim_chars(raw);
    let a = strip_lead_chars(&t, '[');
    let b = strip_trail_chars(&a, ']');
    let pieces = split_chars(&b, ',');
    let ghost pv = views(pieces@);
    let mut out: Vec<String> = Vec::new();
    let mut k: usize = 0;
    while k < pieces.len()
        invariant
            k <= pieces.len(),
            pv == views(pieces@),
            pv.len() == pieces@.len(),
            strs(out@) == nonempty_trimmed(pv.subrange(0, k as int)),
        decreases pieces.len() - k,
    {
        let piece = trim_chars(&pieces[k]);
        let ghost before = out@;
        assert(pv.subrange(0, k + 1).drop_last() =~= pv.subrange(0, k as int));
        assert(pv.subrange(0, k + 1).last() == pieces@[k as int]@);
        if piece.len() > 0 {
            out.push(string_of(&piece));
            assert(strs(out@) =~= strs(before).push(piece@));
        }
        k = k + 1;
    }
    assert(pv.subrange(0, pv.len() as int) =~= pv);
    out
}

/// Whether the characters `m` spell the literal `lit`.
fn spells(m: &[char], lit: &str) -> (b: bool)
    ensures
        b == (m@ == lit@),
{
    let l = chars_of(lit);
    eq_chars(m, &l)
}

/// Parses the inside of one `<act>` block.
fn parse_single_act(block: &[char]) -> (r: Result<CompressionAction, CoreError>)
    ensures
        r matches Ok(a) ==> act_outcome(block@) == Ok::<ActionModel, Seq<char>>(a@),
        r matches Err(e) ==> e matches CoreError::Agent(m) && act_outcome(block@) == Err::<
            ActionModel,
            Seq<char>,
        >(m@),
{
    let reason_raw = match extract_tag_content(block, "<reason>", "</reason>") {
        Some(v) => v,
        None => {
            return Err(CoreError::Agent("<act> 缺少 <reason> 标签".to_string()));
        },
    };
    let method_raw = match extract_tag_content(block, "<method>", "</method>") {
        Some(v) => v,
        None => {
            return Err(CoreError::Agent("<act> 缺少 <method> 标签".to_string()));
        },
    };
    let id_raw = match extract_tag_content(block, "<completionId>", "</completionId>") {
        Some(v) => v,
        None => {
            return Err(CoreError::Agent("<act> 缺少 <completionId> 标签".to_string()));
        },
    };
    let message_ids = parse_id_array(&id_raw);
    if message_ids.len() == 0 {
        return Err(CoreError::Agent("<completionId> 解析后为空数组".to_string()));
    }
    let reason = string_of(&trim_chars(&reason_raw));
    let method = trim_chars(&method_raw);
    if spells(&method, "保持") {
        Ok(CompressionAction::Keep { reason, message_ids })
    } else if spells(&method, "隐藏") {
        Ok(CompressionAction::Hide { reason, message_ids })
    } else if spells(&method, "替换") {
        match extract_tag_content(block, "<newContent>", "</newContent>") {
            None => Err(CoreError::Agent("method=替换 缺少 <newContent> 标签".to_string())),
            Some(n) => Ok(
                CompressionAction::Replace {
                    reason,
                    message_ids,
                    new_content: string_of(&trim_chars(&n)),
                },
            ),
        }
    } else {
        let mut msg = chars_of("未知 method: ");
        extend_chars(&mut msg, &method);
        let tail = chars_of("（必须是 保持/隐藏/替换）");
        extend_chars(&mut msg, &tail);
        Err(CoreError::Agent(string_of(&msg)))
    }
}

/// Parses the compression agent's reply: every closed `<act>` block in order,
/// skipping the blocks that do not parse; an unclosed `<act>` ends the scan.
/// It always succeeds.
pub fn parse_compression_response(text: &str) -> (r: Result<Vec<CompressionAction>, CoreError>)
    ensures
        r matches Ok(v) && action_views(v@) == parsed_actions(text@),
{
    let t = chars_of(text);
    let open = chars_of("<act>");
    let close = chars_of("</act>");
    proof {
        reveal_strlit("<act>");
        reveal_strlit("</act>");
    }
    assert(open@ =~= act_open());
    assert(close@ =~= act_close());
    let mut actions: Vec<CompressionAction> = Vec::new();
    let mut pos: usize = 0;
    while pos < t.len()
        invariant
            t@ == text@,
            open@ == act_open(),
            close@ == act_close(),
            pos <= t.len(),
            action_views(actions@) + acts_from(t@, pos as nat) == acts_from(t@, 0),
        decreases t.len() - pos,
    {
        let ghost before = actions@;
        match find_chars(&t, &open, pos) {
            None => {
                assert(action_views(actions@) =~= acts_from(t@, 0));
                return Ok(actions);
            },
            Some(o) => {
                let cs = o + open.len();
                match find_chars(&t, &close, cs) {
                    None => {
                        assert(action_views(actions@) =~= acts_from(t@, 0));
                        return Ok(actions);
                    },
                    Some(c) => {
                        let block = slice_chars(&t, cs, c);
                        let ghost rest = acts_from(t@, (c + close.len()) as nat);
                        pos = c + close.len();
                        match parse_single_act(&block) {
                            Ok(a) => {
                                actions.push(a);
                                assert(action_views(actions@) =~= action_views(before).push(
                                    a@,
                                ));
                                assert(action_views(actions@) + rest =~= action_views(before)
                                    + (seq![a@] + rest));
                            },
                            Err(_) => {},
                        }
                    },
                }
            },
        }
    }
    assert(acts_from(t@, pos as nat) =~= Seq::<ActionModel>::empty());
    assert(action_views(actions@) =~= acts_from(t@, 0));
    Ok(actions)
}

} // verus!

verus! {

/// The last action, in order, that names message `id`.
pub open spec fn ruling(acts: Seq<ActionModel>, id: Seq<char>) -> Option<ActionModel>
    decreases acts.len(),
{
    if acts.len() == 0 {
        None
    } else if acts.last().ids().contains(id) {
        Some(acts.last())
    } else {
        ruling(acts.drop_last(), id)
    }
}

/// What one message becomes under `acts`: itself when no action or a `Keep`
/// rules it, nothing when `Hide` does, and itself with the new content when
/// `Replace` does.
pub open spec fn compress_one(m: MessageModel, acts: Seq<ActionModel>) -> Seq<MessageModel> {
    match ruling(acts, m.id) {
        Some(ActionModel::Hide { .. }) => Seq::empty(),
        Some(ActionModel::Replace { new_content, .. }) => seq![
            MessageModel {
                id: m.id,
                content: new_content,
                attachments: m.attachments,
                timestamp: m.timestamp,
                role: m.role,
            },
        ],
        _ => seq![m],
    }
}

/// The messages under `acts`, in their order.
pub open spec fn compressed(ms: Seq<MessageModel>, acts: Seq<ActionModel>) -> Seq<MessageModel>
    decreases ms.len(),
{
    if ms.len() == 0 {
        Seq::empty()
    } else {
        compressed(ms.drop_last(), acts) + compress_one(ms.last(), acts)
    }
}

/// Whether `id` is one of `ids`.
fn names_id(ids: &[String], id: &String) -> (b: bool)
    ensures
        b == strs(ids@).contains(id@),
{
    let mut k: usize = 0;
    while k < ids.len()
        invariant
            k <= ids.len(),
            forall|j: int| 0 <= j < k ==> strs(ids@)[j] != id@,
        decreases ids.len() - k,
    {
        if ids[k] == *id {
            assert(strs(ids@)[k as int] == id@);
            return true;
        }
        k = k + 1;
    }
    false
}

/// Position of the last action that names `id`.
fn ruling_index(acts: &[CompressionAction], id: &String) -> (r: Option<usize>)
    ensures
        r matches Some(k) ==> k < acts.len() && ruling(action_views(acts@), id@) == Some(
            acts@[k as int]@,
        ),
        r is None ==> ruling(action_views(acts@), id@) is None,
{
    let ghost av = action_views(acts@);
    let mut i: usize = acts.len();
    assert(av.subrange(0, av.len() as int) =~= av);
    while i > 0
        invariant
            i <= acts.len(),
            av == action_views(acts@),
            ruling(av.subrange(0, i as int), id@) == ruling(av, id@),
        decreases i,
    {
        let ghost sub = av.subrange(0, i as int);
        assert(sub.drop_last() =~= av.subrange(0, i - 1));
        assert(sub.last() == acts@[i - 1]@);
        if names_id(acts[i - 1].message_ids(), id) {
            return Some(i - 1);
        }
        i = i - 1;
    }
    None
}

/// Applies the compression decisions to a message list: a `Keep`ed or
/// untouched message stays as it is, a hidden one is left out, a replaced one
/// keeps its id, role, time and attachments with the new content; when
/// several actions name a message, the last one counts.
pub fn apply_compression(messages: &[Message], state: &CompressionState) -> (r: Vec<Message>)
    ensures
        message_views(r@) == compressed(message_views(messages@), action_views(state.actions@)),
{
    let ghost mv = message_views(messages@);
    let ghost av = action_views(state.actions@);
    let mut out: Vec<Message> = Vec::new();
    let mut i: usize = 0;
    while i < messages.len()
        invariant
            i <= messages.len(),
            mv == message_views(messages@),
            av == action_views(state.actions@),
            message_views(out@) == compressed(mv.subrange(0, i as int), av),
        decreases messages.len() - i,
    {
        let m = &messages[i];
        let ghost before = out@;
        assert(mv.subrange(0, i + 1).drop_last() =~= mv.subrange(0, i as int));
        assert(mv.subrange(0, i + 1).last() == m@);
        match ruling_index(state.actions.as_slice(), &m.id) {
            None => {
                out.push(m.duplicate());
            },
            Some(k) => match &state.actions[k] {
                CompressionAction::Keep { .. } => {
                    out.push(m.duplicate());
                },
                CompressionAction::Hide { .. } => {},
                CompressionAction::Replace { new_content, .. } => {
                    let mut nm = m.duplicate();
                    nm.content = new_content.clone();
                    out.push(nm);
                },
            },
        }
        assert(message_views(out@) =~= message_views(before) + compress_one(m@, av));
        i = i + 1;
    }
    assert(mv.subrange(0, mv.len() as int) =~= mv);
    out
}

} // verus!

verus! {

/// How the prompt names a role.
pub open spec fn role_label(r: Role) -> Seq<char> {
    match r {
        Role::User => "用户"@,
        Role::Assistant => "助手"@,
        Role::System => "系统"@,
    }
}

/// Position of the last user message among the first `n`.
pub open spec fn last_user_before(ms: Seq<MessageModel>, n: int) -> Option<int>
    decreases n,
{
    if n <= 0 {
        None
    } else if ms[n - 1].role == Role::User {
        Some(n - 1)
    } else {
        last_user_before(ms, n - 1)
    }
}

/// Position of the current question: the last user message, or the length
/// of the list when there is none.
pub open spec fn current_question(ms: Seq<MessageModel>) -> int {
    match last_user_before(ms, ms.len() as int) {
        Some(i) => i,
        None => ms.len() as int,
    }
}

/// The prompt line of message `m` at position `i`.
pub open spec fn prompt_line(i: nat, m: MessageModel, current: bool) -> Seq<char> {
    dec(i + 1) + ". [id:"@ + m.id + "] ["@ + role_label(m.role) + "] "@ + (if current {
        "(当前问题，无需压缩) "@
    } else {
        Seq::empty()
    }) + m.content + "\n"@
}

/// The prompt lines of the first `n` messages.
pub open spec fn prompt_lines(ms: Seq<MessageModel>, n: nat, cur: int) -> Seq<char>
    decreases n,
{
    if n == 0 {
        Seq::empty()
    } else {
        prompt_lines(ms, (n - 1) as nat, cur) + prompt_line(
            (n - 1) as nat,
            ms[n - 1],
            n - 1 == cur,
        )
    }
}

/// The prompt that asks the compression agent for its decisions.
pub open spec fn compression_prompt(ms: Seq<MessageModel>) -> Seq<char> {
    "以下是当前对话的所有消息，每条都有一个唯一 id。请分析并给出压缩决策。\n\n"@ + "[消息列表]\n"@
        + prompt_lines(ms, ms.len(), current_question(ms))
        + "\n请按照规定的 XML 格式输出压缩决策。不需要压缩的消息可以不输出 act。"@
}

fn push_lit(out: &mut Vec<char>, s: &str)
    ensures
        final(out)@ == old(out)@ + s@,
{
    let c = chars_of(s);
    extend_chars(out, &c);
}

fn role_name(r: Role) -> (s: &'static str)
    ensures
        s@ == role_label(r),
{
    match r {
        Role::User => "用户",
        Role::Assistant => "助手",
        Role::System => "系统",
    }
}

/// Position of the current question (see `current_question`).
fn current_question_index(messages: &[Message]) -> (k: usize)
    ensures
        k == current_question(message_views(messages@)),
{
    let ghost mv = message_views(messages@);
    let mut n: usize = messages.len();
    while n > 0
        invariant
            n <= messages.len(),
            mv == message_views(messages@),
            last_user_before(mv, messages.len() as int) == last_user_before(mv, n as int),
        decreases n,
    {
        if messages[n - 1].role == Role::User {
            return n - 1;
        }
        n = n - 1;
    }
    messages.len()
}

/// Builds the prompt for the compression agent: every message with its
/// number, id and role, the last user message marked as the current question.
#[verifier::spinoff_prover]
#[verifier::rlimit(40)]
pub fn build_compression_prompt(messages: &[Message]) -> (s: String)
    ensures
        s@ == compression_prompt(message_views(messages@)),
{
    let ghost mv = message_views(messages@);
    let cur = current_question_index(messages);
    let mut out: Vec<char> = Vec::new();
    push_lit(&mut out, "以下是当前对话的所有消息，每条都有一个唯一 id。请分析并给出压缩决策。\n\n");
    push_lit(&mut out, "[消息列表]\n");
    let ghost head = out@;
    let mut i: usize = 0;
    while i < messages.len()
        invariant
            i <= messages.len(),
            mv == message_views(messages@),
            cur == current_question(mv),
            out@ == head + prompt_lines(mv, i as nat, cur as int),
        decreases messages.len() - i,
    {
        let m = &messages[i];
        let ghost before = out@;
        let num = dec_chars((i + 1) as u64);
        extend_chars(&mut out, &num);
        push_lit(&mut out, ". [id:");
        push_lit(&mut out, m.id.as_str());
        push_lit(&mut out, "] [");
        push_lit(&mut out, role_name(m.role));
        push_lit(&mut out, "] ");
        if i == cur {
            push_lit(&mut out, "(当前问题，无需压缩) ");
        }
        push_lit(&mut out, m.content.as_str());
        push_lit(&mut out, "\n");
        assert(mv[i as int] == m@);
        assert(out@ =~= before + prompt_line(i as nat, m@, i == cur));
        i = i + 1;
    }
    push_lit(&mut out, "\n请按照规定的 XML 格式输出压缩决策。不需要压缩的消息可以不输出 act。");
    string_of(&out)
}

} // verus!

verus! {

/// With no decisions every message is kept as it is.
pub proof fn lemma_no_actions_keeps_all(ms: Seq<MessageModel>)
    ensures
        compressed(ms, Seq::empty()) == ms,
    decreases ms.len(),
{
    if ms.len() > 0 {
        lemma_no_actions_keeps_all(ms.drop_last());
        assert(ms.drop_last().push(ms.last()) =~= ms);
    }
}

/// Compression never adds messages.
pub proof fn lemma_compressed_no_longer(ms: Seq<MessageModel>, acts: Seq<ActionModel>)
    ensures
        compressed(ms, acts).len() <= ms.len(),
    decreases ms.len(),
{
    if ms.len() > 0 {
        lemma_compressed_no_longer(ms.drop_last(), acts);
    }
}

/// An action taken after the others decides every message it names.
pub proof fn lemma_later_action_wins(
    m: MessageModel,
    acts: Seq<ActionModel>,
    a: ActionModel,
)
    requires
        a.ids().contains(m.id),
    ensures
        compress_one(m, acts.push(a)) == compress_one(m, seq![a]),
{
    assert(acts.push(a).last() == a);
    assert(seq![a].last() == a);
}

proof fn lemma_compress_one_stable(m: MessageModel, acts: Seq<ActionModel>)
    ensures
        compressed(compress_one(m, acts), acts) == compress_one(m, acts),
{
    let once = compress_one(m, acts);
    if once.len() == 1 {
        assert(once.drop_last() =~= Seq::<MessageModel>::empty());
        assert(once.last().id == m.id);
        assert(compressed(once, acts) =~= compressed(once.drop_last(), acts) + compress_one(
            once.last(),
            acts,
        ));
        assert(compress_one(once.last(), acts) =~= once);
    }
}

proof fn lemma_compressed_append(a: Seq<MessageModel>, b: Seq<MessageModel>, acts: Seq<ActionModel>)
    ensures
        compressed(a + b, acts) == compressed(a, acts) + compressed(b, acts),
    decreases b.len(),
{
    if b.len() == 0 {
        assert(a + b =~= a);
        assert(compressed(a, acts) + compressed(b, acts) =~= compressed(a, acts));
    } else {
        lemma_compressed_append(a, b.drop_last(), acts);
        assert((a + b).drop_last() =~= a + b.drop_last());
        assert((a + b).last() == b.last());
        assert(compressed(a, acts) + compressed(b, acts) =~= compressed(a, acts) + compressed(
            b.drop_last(),
            acts,
        ) + compress_one(b.last(), acts));
    }
}

/// Applying the same decisions a second time changes nothing.
pub proof fn lemma_compression_idempotent(ms: Seq<MessageModel>, acts: Seq<ActionModel>)
    ensures
        compressed(compressed(ms, acts), acts) == compressed(ms, acts),
    decreases ms.len(),
{
    if ms.len() > 0 {
        lemma_compression_idempotent(ms.drop_last(), acts);
        lemma_compressed_append(
            compressed(ms.drop_last(), acts),
            compress_one(ms.last(), acts),
            acts,
        );
        lemma_compress_one_stable(ms.last(), acts);
    }
}

proof fn lemma_nonempty_trimmed_items(pieces: Seq<Seq<char>>)
    ensures
        forall|k: int|
            0 <= k < nonempty_trimmed(pieces).len() ==> #[trigger] nonempty_trimmed(
                pieces,
            )[k].len() > 0,
    decreases pieces.len(),
{
    if pieces.len() > 0 {
        let rest = nonempty_trimmed(pieces.drop_last());
        lemma_nonempty_trimmed_items(pieces.drop_last());
        assert forall|k: int| 0 <= k < nonempty_trimmed(pieces).len() implies #[trigger] nonempty_trimmed(
            pieces,
        )[k].len() > 0 by {
            if k < rest.len() {
                assert(nonempty_trimmed(pieces)[k] == rest[k]);
            }
        }
    }
}

/// Every parsed action names at least one message, and no id is empty.
pub proof fn lemma_parsed_actions_name_messages(t: Seq<char>, pos: nat)
    ensures
        forall|k: int|
            0 <= k < acts_from(t, pos).len() ==> {
                let a = #[trigger] acts_from(t, pos)[k];
                &&& a.ids().len() > 0
                &&& forall|j: int| 0 <= j < a.ids().len() ==> #[trigger] a.ids()[j].len() > 0
            },
    decreases t.len() - pos,
{
    if pos < t.len() {
        match find_from(t, act_open(), pos as int) {
            None => {},
            Some(o) => {
                let cs = o + act_open().len();
                match find_from(t, act_close(), cs) {
                    None => {},
                    Some(c) => {
                        lemma_find_from_bounds(t, act_open(), pos as int);
                        lemma_find_from_bounds(t, act_close(), cs);
                        let next = (c + act_close().len()) as nat;
                        lemma_parsed_actions_name_messages(t, next);
                        let block = t.subrange(cs, c);
                        match tag_content(block, "<completionId>"@, "</completionId>"@) {
                            Some(raw) => lemma_nonempty_trimmed_items(
                                split_on(strip_trail(strip_lead(trim(raw), '['), ']'), ','),
                            ),
                            None => {},
                        }
                        let rest = acts_from(t, next);
                        match act_outcome(block) {
                            Ok(a) => {
                                assert forall|k: int|
                                    0 <= k < acts_from(t, pos).len() implies {
                                    let b = #[trigger] acts_from(t, pos)[k];
                                    &&& b.ids().len() > 0
                                    &&& forall|j: int|
                                        0 <= j < b.ids().len() ==> #[trigger] b.ids()[j].len()
                                            > 0
                                } by {
                                    if k > 0 {
                                        assert(acts_from(t, pos)[k] == rest[k - 1]);
                                    }
                                }
                            },
                            Err(_) => {},
                        }
                    },
                }
            },
        }
    }
}

} // verus!

verus! {

/// The text made of one `<act>` block per body in `bodies`, in order.
pub open spec fn act_blocks(bodies: Seq<Seq<char>>) -> Seq<char>
    decreases bodies.len(),
{
    if bodies.len() == 0 {
        Seq::empty()
    } else {
        act_open() + bodies[0] + act_close() + act_blocks(bodies.drop_first())
    }
}

/// The actions of the bodies that parse, in order.
pub open spec fn body_actions(bodies: Seq<Seq<char>>) -> Seq<ActionModel>
    decreases bodies.len(),
{
    if bodies.len() == 0 {
        Seq::empty()
    } else {
        match act_outcome(bodies[0]) {
            Ok(a) => seq![a] + body_actions(bodies.drop_first()),
            Err(_) => body_actions(bodies.drop_first()),
        }
    }
}

/// Scanning text placed after `a` gives what scanning it alone gives.
proof fn lemma_acts_shift(a: Seq<char>, b: Seq<char>, p: int)
    requires
        0 <= p,
    ensures
        acts_from(a + b, (a.len() + p) as nat) == acts_from(b, p as nat),
    decreases b.len() - p,
{
    let t = a + b;
    let n = a.len() as int;
    assert(t.subrange(n, t.len() as int) =~= b);
    if p < b.len() {
        crate::text::lemma_find_shift(t, act_open(), n, p);
        lemma_find_from_bounds(b, act_open(), p);
        match find_from(b, act_open(), p) {
            None => {},
            Some(o) => {
                let cs = o + act_open().len();
                crate::text::lemma_find_shift(t, act_close(), n, cs);
                lemma_find_from_bounds(b, act_close(), cs);
                match find_from(b, act_close(), cs) {
                    None => {},
                    Some(c) => {
                        assert(t.subrange(n + cs, n + c) =~= b.subrange(cs, c));
                        lemma_acts_shift(a, b, c + act_close().len());
                    },
                }
            },
        }
    }
}

/// No `</act>` starts inside a body that holds none and is followed by `</act>`.
proof fn lemma_no_close_inside(t: Seq<char>, x: Seq<char>, j: int)
    requires
        5 <= j < 5 + x.len(),
        t.len() >= 11 + x.len(),
        forall|i: int| 0 <= i < x.len() ==> t[5 + i] == #[trigger] x[i],
        t[5 + x.len() as int] == '<',
        find(x, act_close()) is None,
    ensures
        !match_at(t, act_close(), j),
{
    let e: int = 5 + x.len() as int;
    if match_at(t, act_close(), j) {
        if j + 6 <= e {
            assert(x.subrange(j - 5, j + 1) =~= t.subrange(j, j + 6));
            lemma_find_from_bounds(x, act_close(), 0);
            assert(match_at(x, act_close(), j - 5));
        } else {
            let k = e - j;
            assert(t.subrange(j, j + 6)[k] == t[e]);
        }
    }
}

/// In a block whose body holds no `</act>`, the first `</act>` after the
/// opening tag is the block's own.
proof fn lemma_block_close(x: Seq<char>, rest: Seq<char>)
    requires
        find(x, act_close()) is None,
    ensures
        find_from(act_open() + x + act_close() + rest, act_open(), 0) == Some(0int),
        find_from(act_open() + x + act_close() + rest, act_close(), 5) == Some(5 + x.len() as int),
        (act_open() + x + act_close() + rest).subrange(5, 5 + x.len() as int) == x,
{
    let t = act_open() + x + act_close() + rest;
    let e: int = 5 + x.len() as int;
    assert(t.subrange(0, 5) =~= act_open());
    crate::text::lemma_find_from_first(t, act_open(), 0, 0);
    assert(t.subrange(e, e + 6) =~= act_close());
    assert(t.subrange(5, e) =~= x);
    assert(t[e] == '<');
    assert forall|i: int| 0 <= i < x.len() implies t[5 + i] == #[trigger] x[i] by {
        assert(t.subrange(5, e)[i] == t[5 + i]);
    }
    assert forall|j: int| 5 <= j < e implies !#[trigger] match_at(t, act_close(), j) by {
        lemma_no_close_inside(t, x, j);
    }
    crate::text::lemma_find_from_first(t, act_close(), 5, e);
}

proof fn lemma_blocks_then(bodies: Seq<Seq<char>>, b: Seq<char>)
    requires
        forall|i: int| 0 <= i < bodies.len() ==> find(#[trigger] bodies[i], act_close()) is None,
    ensures
        acts_from(act_blocks(bodies) + b, 0) == body_actions(bodies) + acts_from(b, 0),
    decreases bodies.len(),
{
    if bodies.len() == 0 {
        assert(act_blocks(bodies) + b =~= b);
    } else {
        let x = bodies[0];
        let more = bodies.drop_first();
        assert forall|i: int| 0 <= i < more.len() implies find(#[trigger] more[i], act_close()) is None by {
            assert(more[i] == bodies[i + 1]);
        }
        lemma_blocks_then(more, b);
        let tail = act_blocks(more) + b;
        let head = act_open() + x + act_close();
        let t = act_blocks(bodies) + b;
        assert(t =~= act_open() + x + act_close() + tail);
        assert(t =~= head + tail);
        lemma_block_close(x, tail);
        lemma_acts_shift(head, tail, 0);
        assert(5 + x.len() + act_close().len() == head.len());
        match act_outcome(x) {
            Ok(a) => {
                assert(seq![a] + (body_actions(more) + acts_from(b, 0)) =~= (seq![a] + body_actions(
                    more,
                )) + acts_from(b, 0));
            },
            Err(_) => {},
        }
    }
}

/// Parsing a reply that opens with whole `<act>` blocks, none of whose
/// bodies holds `</act>`, gives the actions of those blocks followed by the
/// actions of the rest of the reply, as if each part were parsed alone.
pub proof fn lemma_parse_concat(bodies: Seq<Seq<char>>, b: Seq<char>)
    requires
        forall|i: int| 0 <= i < bodies.len() ==> find(#[trigger] bodies[i], act_close()) is None,
    ensures
        parsed_actions(act_blocks(bodies) + b) == parsed_actions(act_blocks(bodies)) + parsed_actions(b),
{
    lemma_blocks_then(bodies, b);
    lemma_blocks_then(bodies, Seq::empty());
    assert(act_blocks(bodies) + Seq::<char>::empty() =~= act_blocks(bodies));
    assert(acts_from(Seq::<char>::empty(), 0) =~= Seq::<ActionModel>::empty());
    assert(body_actions(bodies) + Seq::<ActionModel>::empty() =~= body_actions(bodies));
}

} // verus!

verus! {

/// Message `i` is the last one from the user.
pub open spec fn is_last_user(ms: Seq<MessageModel>, i: int) -> bool {
    ms[i].role == Role::User && forall|j: int| i < j < ms.len() ==> (#[trigger] ms[j]).role != Role::User
}

proof fn lemma_last_user_before(ms: Seq<MessageModel>, m: int)
    requires
        0 <= m <= ms.len(),
    ensures
        last_user_before(ms, m) matches Some(i) ==> 0 <= i < m && ms[i].role == Role::User && forall|j: int|
            i < j < m ==> (#[trigger] ms[j]).role != Role::User,
        last_user_before(ms, m) is None ==> forall|j: int| 0 <= j < m ==> (#[trigger] ms[j]).role != Role::User,
    decreases m,
{
    if m > 0 && ms[m - 1].role != Role::User {
        lemma_last_user_before(ms, m - 1);
    }
}

/// The current question is the last user message, and only it.
proof fn lemma_current_is_last_user(ms: Seq<MessageModel>, k: int)
    requires
        0 <= k < ms.len(),
    ensures
        (k == current_question(ms)) == is_last_user(ms, k),
{
    lemma_last_user_before(ms, ms.len() as int);
    match last_user_before(ms, ms.len() as int) {
        Some(i) => {
            if k < i {
                assert(ms[i].role == Role::User);
            }
        },
        None => {},
    }
}

spec fn marked_line(ms: Seq<MessageModel>, i: int) -> Seq<char> {
    dec((i + 1) as nat) + ". [id:"@ + ms[i].id + "] ["@ + role_label(ms[i].role) + "] "@ + (if is_last_user(ms, i) {
        "(当前问题，无需压缩) "@
    } else {
        Seq::empty()
    }) + ms[i].content + "\n"@
}

proof fn lemma_prompt_lines_flatten(ms: Seq<MessageModel>, k: nat)
    requires
        k <= ms.len(),
    ensures
        prompt_lines(ms, k, current_question(ms)) == Seq::new(k, |i: int| marked_line(ms, i)).flatten(),
    decreases k,
{
    broadcast use Seq::lemma_flatten_push;

    let f = Seq::new(k, |i: int| marked_line(ms, i));
    if k == 0 {
        assert(f =~= Seq::<Seq<char>>::empty());
    } else {
        lemma_prompt_lines_flatten(ms, (k - 1) as nat);
        let g = Seq::new((k - 1) as nat, |i: int| marked_line(ms, i));
        assert(f =~= g.push(marked_line(ms, k - 1)));
        lemma_current_is_last_user(ms, k - 1);
        assert(prompt_line((k - 1) as nat, ms[k - 1], k - 1 == current_question(ms)) =~= marked_line(ms, k - 1));
    }
}

/// The prompt lists every message on a line of its own, numbered from 1,
/// with its id and role, and marks the last message from the user, and no
/// other, as the current question that is not to be compressed.
pub proof fn lemma_prompt_marks_last_question(ms: Seq<MessageModel>)
    ensures
        compression_prompt(ms) == "以下是当前对话的所有消息，每条都有一个唯一 id。请分析并给出压缩决策。\n\n"@
            + "[消息列表]\n"@ + Seq::new(
            ms.len(),
            |i: int|
                dec((i + 1) as nat) + ". [id:"@ + ms[i].id + "] ["@ + role_label(ms[i].role) + "] "@ + (if ms[i].role
                    == Role::User && forall|j: int| i < j < ms.len() ==> (#[trigger] ms[j]).role != Role::User {
                    "(当前问题，无需压缩) "@
                } else {
                    Seq::empty()
                }) + ms[i].content + "\n"@,
        ).flatten() + "\n请按照规定的 XML 格式输出压缩决策。不需要压缩的消息可以不输出 act。"@,
{
    lemma_prompt_lines_flatten(ms, ms.len());
    assert(Seq::new(ms.len(), |i: int| marked_line(ms, i)) =~= Seq::new(
        ms.len(),
        |i: int|
            dec((i + 1) as nat) + ". [id:"@ + ms[i].id + "] ["@ + role_label(ms[i].role) + "] "@ + (if ms[i].role
                == Role::User && forall|j: int| i < j < ms.len() ==> (#[trigger] ms[j]).role != Role::User {
                "(当前问题，无需压缩) "@
            } else {
                Seq::empty()
            }) + ms[i].content + "\n"@,
    ));
}

} // verus!
