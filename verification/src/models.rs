//! Shared domain models: messages, devices and conversations.

use vstd::prelude::*;

verus! {

/// Author of a message.
#[derive(Debug, Clone, Copy, PartialEq, Eq, Structural)]
pub enum Role {
    System,
    User,
    Assistant,
}

/// Pairing state of a device.
#[derive(Debug, Clone, Copy, PartialEq, Eq, Structural)]
pub enum DeviceStatus {
    /// Seen but not paired.
    Discovered,
    /// Paired and online.
    Paired,
    /// Paired and offline.
    Offline,
    /// Pairing handshake in progress.
    Pairing,
}

/// Kind of a message attachment.
#[derive(Debug, Clone, Copy, PartialEq, Eq, Structural)]
pub enum AttachmentKind {
    Image,
}

/// A file attached to a message.
#[derive(Debug, Clone, PartialEq, Eq)]
pub struct Attachment {
    pub id: String,
    pub kind: AttachmentKind,
    pub path: String,
    pub name: String,
    pub mime_type: String,
    pub size: u64,
}

impl Attachment {
    /// A copy equal to `self`.
    pub fn duplicate(&self) -> (r: Attachment)
        ensures
            r == *self,
    {
        Attachment {
            id: self.id.clone(),
            kind: self.kind,
            path: self.path.clone(),
            name: self.name.clone(),
            mime_type: self.mime_type.clone(),
            size: self.size,
        }
    }
}

/// One chat message.
#[derive(Debug, Clone, PartialEq, Eq)]
pub struct Message {
    pub id: String,
    pub content: String,
    pub attachments: Vec<Attachment>,
    pub timestamp: u64,
    pub role: Role,
}

/// What a message is, as the contracts see it.
pub struct MessageModel {
    pub id: Seq<char>,
    pub content: Seq<char>,
    pub attachments: Seq<Attachment>,
    pub timestamp: u64,
    pub role: Role,
}

impl View for Message {
    type V = MessageModel;

    open spec fn view(&self) -> MessageModel {
        MessageModel {
            id: self.id@,
            content: self.content@,
            attachments: self.attachments@,
            timestamp: self.timestamp,
            role: self.role,
        }
    }
}

/// The views of a sequence of messages.
pub open spec fn message_views(ms: Seq<Message>) -> Seq<MessageModel> {
    ms.map_values(|m: Message| m@)
}

impl Message {
    /// A message without attachments; id and time come from the caller.
    pub fn new(id: &str, role: Role, content: &str, timestamp: u64) -> (m: Message)
        ensures
            m@ == (MessageModel {
                id: id@,
                content: content@,
                attachments: Seq::empty(),
                timestamp,
                role,
            }),
    {
        let m = Message {
            id: id.to_string(),
            content: content.to_string(),
            attachments: Vec::new(),
            timestamp,
            role,
        };
        assert(m.attachments@ =~= Seq::<Attachment>::empty());
        m
    }

    /// Whether the model wrote this message.
    pub fn is_assistant(&self) -> (b: bool)
        ensures
            b == (self.role == Role::Assistant),
    {
        self.role == Role::Assistant
    }

    /// A copy of `self`.
    pub fn duplicate(&self) -> (r: Message)
        ensures
            r@ == self@,
    {
        let mut atts: Vec<Attachment> = Vec::new();
        let mut i: usize = 0;
        while i < self.attachments.len()
            invariant
                i <= self.attachments.len(),
                atts@ == self.attachments@.subrange(0, i as int),
            decreases self.attachments.len() - i,
        {
            atts.push(self.attachments[i].duplicate());
            i = i + 1;
            assert(atts@ =~= self.attachments@.subrange(0, i as int));
        }
        assert(atts@ =~= self.attachments@);
        Message {
            id: self.id.clone(),
            content: self.content.clone(),
            attachments: atts,
            timestamp: self.timestamp,
            role: self.role,
        }
    }
}

/// A device the agent can act on.
#[derive(Debug, Clone, PartialEq, Eq)]
pub struct Device {
    pub id: String,
    pub name: String,
    pub address: String,
    pub last_seen: u64,
    pub status: DeviceStatus,
}

impl Device {
    /// Whether the device is paired and online.
    pub fn is_paired(&self) -> (b: bool)
        ensures
            b == (self.status == DeviceStatus::Paired),
    {
        self.status == DeviceStatus::Paired
    }
}

/// A conversation: its messages in order.
#[derive(Debug, Clone)]
pub struct Conversation {
    pub id: String,
    pub messages: Vec<Message>,
    pub device_id: Option<String>,
    pub created_at: u64,
}

impl Conversation {
    /// An empty conversation.
    pub fn new(id: &str, created_at: u64) -> (c: Conversation)
        ensures
            c.id@ == id@,
            c.messages@.len() == 0,
            c.device_id is None,
            c.created_at == created_at,
    {
        Conversation { id: id.to_string(), messages: Vec::new(), device_id: None, created_at }
    }

    /// Appends a message.
    pub fn push(&mut self, msg: Message)
        ensures
            final(self).messages@ == old(self).messages@.push(msg),
            final(self).id == old(self).id,
            final(self).device_id == old(self).device_id,
            final(self).created_at == old(self).created_at,
    {
        self.messages.push(msg);
    }

    /// The messages, oldest first.
    pub fn history(&self) -> (h: &[Message])
        ensures
            h@ == self.messages@,
    {
        self.messages.as_slice()
    }
}

} // verus!
