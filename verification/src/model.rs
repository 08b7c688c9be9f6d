//! The entries of a session log.
use vstd::prelude::*;

use crate::json::Json;

verus! {

/// A part of a message.
#[derive(Debug)]
pub enum ContentBlock {
    /// Text.
    Text(String),
    /// A thought.
    Thinking(String),
    /// A call of a tool.
    ToolUse(ToolUse),
    /// The result of a call.
    ToolResult(ToolResult),
    /// Anything else.
    Other,
}

/// A call of a tool.
#[derive(Debug)]
pub struct ToolUse {
    /// The id of the call.
    pub id: String,
    /// The name of the tool.
    pub name: String,
    /// What the tool was given.
    pub input: Json,
}

/// The result of a call.
#[derive(Debug)]
pub struct ToolResult {
    /// The call that it belongs to.
    pub tool_use_id: String,
    /// The text of the result.
    pub content: Option<String>,
}

/// What the user sent.
#[derive(Debug)]
pub enum UserContent {
    /// Plain text.
    Simple(String),
    /// A list of parts.
    Blocks(Vec<ContentBlock>),
}

/// A message of the user.
#[derive(Debug)]
pub struct UserEntry {
    /// Whether it stands beside the main thread.
    pub is_sidechain: bool,
    /// What was sent.
    pub message: UserContent,
}

/// A message of the assistant.
#[derive(Debug)]
pub struct AssistantEntry {
    /// Whether it stands beside the main thread.
    pub is_sidechain: bool,
    /// Its parts.
    pub content: Vec<ContentBlock>,
}

/// A message of the system.
#[derive(Debug)]
pub struct SystemEntry {
    /// Whether it stands beside the main thread.
    pub is_sidechain: bool,
    /// Its text.
    pub content: Option<String>,
}

/// A summary of earlier messages.
#[derive(Debug)]
pub struct SummaryEntry {
    /// Its text.
    pub summary: String,
}

/// An entry of a session log.
#[derive(Debug)]
pub enum LogEntry {
    /// A message of the user.
    User(UserEntry),
    /// A message of the assistant.
    Assistant(AssistantEntry),
    /// A message of the system.
    System(SystemEntry),
    /// A summary of earlier messages.
    Summary(SummaryEntry),
    /// Anything else.
    Other {
        /// Whether it stands beside the main thread.
        is_sidechain: bool,
    },
}

impl LogEntry {
    /// The entry stands beside the main thread.
    pub open spec fn aside(&self) -> bool {
        match *self {
            LogEntry::User(e) => e.is_sidechain,
            LogEntry::Assistant(e) => e.is_sidechain,
            LogEntry::System(e) => e.is_sidechain,
            LogEntry::Summary(_) => false,
            LogEntry::Other { is_sidechain } => is_sidechain,
        }
    }

    /// Whether the entry stands beside the main thread.
    pub fn is_sidechain(&self) -> (r: bool)
        ensures
            r == self.aside(),
    {
        match self {
            LogEntry::User(e) => e.is_sidechain,
            LogEntry::Assistant(e) => e.is_sidechain,
            LogEntry::System(e) => e.is_sidechain,
            LogEntry::Summary(_) => false,
            LogEntry::Other { is_sidechain } => *is_sidechain,
        }
    }
}

/// A project directory.
#[derive(Debug, Clone, PartialEq, Eq)]
pub struct Project {
    /// The path of the project.
    pub decoded_path: String,
    /// The name of its directory.
    pub encoded_name: String,
    /// The path under which it is shown.
    pub best_path: String,
}

/// When the contents of a session begin and end, as far as its messages say.
#[derive(Debug, Clone, Copy, PartialEq, Eq)]
pub struct SessionTimes {
    /// The time of the first message.
    pub start_time: Option<i128>,
    /// The time of the last message.
    pub end_time: Option<i128>,
}

/// A stored session.
#[derive(Debug, Clone, PartialEq, Eq)]
pub struct Session {
    /// Its id.
    pub session_id: String,
    /// The path of its project.
    pub project_path: String,
    /// When its file was last modified.
    pub modified: i128,
    /// The size of its file.
    pub file_size: u64,
    /// Whether another session spawned it.
    pub is_subagent: bool,
    /// What its contents say of their times; none where they cannot be read.
    pub times: Option<SessionTimes>,
}

} // verus!
