//! Agent definitions, flows and teams: the records, their defaults, and the
//! role rules of a team.

use vstd::prelude::*;
use crate::text::chars_of;

verus! {

/// A user-defined agent.
#[derive(Debug, Clone)]
pub struct AgentDef {
    pub id: String,
    pub name: String,
    /// What the agent does.
    pub role: String,
    pub system_prompt: String,
    /// The model it uses; the active model when `None`.
    pub model_id: Option<String>,
    pub avatar: String,
    pub enable_tools: bool,
    pub created_at: u64,
    pub updated_at: u64,
}

/// Avatar of an agent that names none.
pub fn default_avatar() -> (s: String)
    ensures
        s@ == "🤖"@,
{
    "🤖".to_string()
}

/// Tools are on unless an agent says otherwise.
pub fn default_enable_tools() -> (b: bool)
    ensures
        b,
{
    true
}

/// Kind of data that flows along a flow's edge.
#[derive(Debug, Clone, Copy, PartialEq, Eq, Structural)]
pub enum FlowDataType {
    Text,
    File,
    Image,
    Audio,
    Object,
    Number,
}

impl FlowDataType {
    pub open spec fn label_text(self) -> Seq<char> {
        match self {
            FlowDataType::Text => "文本"@,
            FlowDataType::File => "文件"@,
            FlowDataType::Image => "图片"@,
            FlowDataType::Audio => "音频"@,
            FlowDataType::Object => "对象"@,
            FlowDataType::Number => "数字"@,
        }
    }

    pub open spec fn color_text(self) -> Seq<char> {
        match self {
            FlowDataType::Text => "#4a7eff"@,
            FlowDataType::File => "#f2994a"@,
            FlowDataType::Image => "#e5484d"@,
            FlowDataType::Audio => "#8e4ec6"@,
            FlowDataType::Object => "#30a46c"@,
            FlowDataType::Number => "#6e56cf"@,
        }
    }

    /// Display name of the type.
    pub fn label(&self) -> (s: &'static str)
        ensures
            s@ == self.label_text(),
    {
        match self {
            FlowDataType::Text => "文本",
            FlowDataType::File => "文件",
            FlowDataType::Image => "图片",
            FlowDataType::Audio => "音频",
            FlowDataType::Object => "对象",
            FlowDataType::Number => "数字",
        }
    }

    /// Colour of the type's ports.
    pub fn color(&self) -> (s: &'static str)
        ensures
            s@ == self.color_text(),
    {
        match self {
            FlowDataType::Text => "#4a7eff",
            FlowDataType::File => "#f2994a",
            FlowDataType::Image => "#e5484d",
            FlowDataType::Audio => "#8e4ec6",
            FlowDataType::Object => "#30a46c",
            FlowDataType::Number => "#6e56cf",
        }
    }
}

/// An edge of a flow, from one node to another.
#[derive(Debug, Clone)]
pub struct FlowEdge {
    pub id: String,
    pub from: String,
    pub to: String,
}

/// Role of a team member.
#[derive(Debug, Clone, Copy, PartialEq, Eq, Structural)]
pub enum TeamRole {
    Owner,
    Admin,
    Member,
}

impl TeamRole {
    /// Owners and admins administer the team.
    pub fn is_admin(&self) -> (b: bool)
        ensures
            b == (*self == TeamRole::Owner || *self == TeamRole::Admin),
    {
        match self {
            TeamRole::Owner => true,
            TeamRole::Admin => true,
            TeamRole::Member => false,
        }
    }
}

/// What a team member is.
#[derive(Debug, Clone, Copy, PartialEq, Eq, Structural)]
pub enum TeamMemberKind {
    User,
    Agent,
    MainAgent,
}

/// A member of a team.
#[derive(Debug, Clone)]
pub struct TeamMember {
    pub id: String,
    pub name: String,
    pub avatar: String,
    pub kind: TeamMemberKind,
    pub role: TeamRole,
    /// The agent definition behind an agent member.
    pub agent_def_id: Option<String>,
    pub joined_at: u64,
}

/// Avatar of a member that names none.
pub fn default_member_avatar() -> (s: String)
    ensures
        s@ == "🙂"@,
{
    "🙂".to_string()
}

/// Kind of a team message.
#[derive(Debug, Clone, Copy, PartialEq, Eq, Structural)]
pub enum TeamMessageKind {
    Text,
    System,
    Task,
}

/// A message in a team's conversation.
#[derive(Debug, Clone)]
pub struct TeamMessage {
    pub id: String,
    pub sender_id: String,
    pub sender_name: String,
    pub sender_avatar: String,
    pub kind: TeamMessageKind,
    pub content: String,
    /// Ids of the members it mentions.
    pub mentions: Vec<String>,
    pub task_handled: bool,
    pub reply: Option<String>,
    pub created_at: u64,
}

/// A team of users and agents.
#[derive(Debug, Clone)]
pub struct AgentTeam {
    pub id: String,
    pub name: String,
    pub description: String,
    pub owner_id: String,
    pub members: Vec<TeamMember>,
    pub messages: Vec<TeamMessage>,
    pub created_at: u64,
    pub updated_at: u64,
}

/// Position of the first member with id `id`.
pub open spec fn member_index(ms: Seq<TeamMember>, id: Seq<char>, from: int) -> Option<int>
    decreases ms.len() - from,
{
    if from < 0 || from >= ms.len() {
        None
    } else if ms[from].id@ == id {
        Some(from)
    } else {
        member_index(ms, id, from + 1)
    }
}

impl AgentTeam {
    /// The first member with id `id`.
    pub fn member(&self, id: &str) -> (r: Option<&TeamMember>)
        ensures
            r == match member_index(self.members@, id@, 0) {
                Some(i) => Some(&self.members@[i]),
                None => None::<&TeamMember>,
            },
    {
        let target = chars_of(id);
        let mut i: usize = 0;
        while i < self.members.len()
            invariant
                i <= self.members.len(),
                target@ == id@,
                member_index(self.members@, id@, 0) == member_index(self.members@, id@, i as int),
            decreases self.members.len() - i,
        {
            let c = chars_of(self.members[i].id.as_str());
            if crate::text::eq_chars(&c, &target) {
                return Some(&self.members[i]);
            }
            i = i + 1;
        }
        None
    }

    /// Whether the member with id `member_id` administers the team; an
    /// unknown member does not.
    pub fn is_admin(&self, member_id: &str) -> (b: bool)
        ensures
            b == match member_index(self.members@, member_id@, 0) {
                Some(i) => self.members@[i].role == TeamRole::Owner || self.members@[i].role == TeamRole::Admin,
                None => false,
            },
    {
        match self.member(member_id) {
            Some(m) => m.role.is_admin(),
            None => false,
        }
    }
}

} // verus!
