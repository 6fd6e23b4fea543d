//! Minimal message vocabulary. The projection reads exactly one thing of a message: whether
//! its content is empty. Beyond that the log never interprets content.

use vstd::prelude::*;

verus! {

#[derive(Clone, Copy, Debug, PartialEq, Eq)]
pub enum Role {
    User,
    Assistant,
    Tool,
}

#[derive(Debug, PartialEq)]
pub enum ContentBlock {
    Text { text: String },
    ToolCall {
        id: String,
        name: String,
        /// Unparsed JSON, byte for byte as the model produced it.
        arguments: String,
    },
    ToolResult { call_id: String, content: String, is_error: bool },
}

#[derive(Debug, PartialEq)]
pub struct Message {
    pub role: Role,
    pub content: Vec<ContentBlock>,
    /// Who produced a non-user message; shown by the UI only.
    pub source: Option<String>,
}

impl Clone for ContentBlock {
    fn clone(&self) -> (r: ContentBlock)
        ensures
            r == *self,
    {
        match self {
            ContentBlock::Text { text } => ContentBlock::Text { text: text.clone() },
            ContentBlock::ToolCall { id, name, arguments } => ContentBlock::ToolCall {
                id: id.clone(),
                name: name.clone(),
                arguments: arguments.clone(),
            },
            ContentBlock::ToolResult { call_id, content, is_error } => ContentBlock::ToolResult {
                call_id: call_id.clone(),
                content: content.clone(),
                is_error: *is_error,
            },
        }
    }
}

/// Two messages carry the same role, blocks and source.
pub open spec fn same_message(a: Message, b: Message) -> bool {
    a.role == b.role && a.content@ == b.content@ && a.source == b.source
}

impl Clone for Message {
    fn clone(&self) -> (r: Message)
        ensures
            same_message(r, *self),
    {
        let content = self.content.clone();
        assert(content@ =~= self.content@);
        let source = match &self.source {
            Some(s) => Some(s.clone()),
            None => None,
        };
        Message { role: self.role, content, source }
    }
}

impl Message {
    /// A message holding one text block.
    pub fn text(role: Role, text: String) -> (m: Message)
        ensures
            m.role == role,
            m.content@.len() == 1,
            m.content@[0] matches ContentBlock::Text { text: t } && t@ == text@,
            m.source.is_none(),
    {
        let mut content = Vec::new();
        content.push(ContentBlock::Text { text });
        Message { role, content, source: None }
    }

    pub fn user(text: String) -> (m: Message)
        ensures
            m.role == Role::User,
            m.content@.len() == 1,
            m.content@[0] matches ContentBlock::Text { text: t } && t@ == text@,
            m.source.is_none(),
    {
        Message::text(Role::User, text)
    }

    pub fn assistant(text: String) -> (m: Message)
        ensures
            m.role == Role::Assistant,
            m.content@.len() == 1,
            m.content@[0] matches ContentBlock::Text { text: t } && t@ == text@,
            m.source.is_none(),
    {
        Message::text(Role::Assistant, text)
    }

    pub fn is_empty(&self) -> (r: bool)
        ensures
            r == (self.content@.len() == 0),
    {
        self.content.len() == 0
    }
}

} // verus!
