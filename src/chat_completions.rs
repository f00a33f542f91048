//! The wire-format types of chat-completion requests and responses.

use crate::datetime::{from_unix_timestamp, MAX_UNIX_TIMESTAMP, MIN_UNIX_TIMESTAMP};
use crate::error::Error;
use crate::utils::IntoText;
use vstd::prelude::*;

verus! {

/// The author of a message.
#[derive(Debug, Clone, Copy, PartialEq, Eq, Structural)]
pub enum Role {
    System,
    User,
    Assistant,
    Unknown,
}

impl Default for Role {
    fn default() -> (r: Role)
        ensures
            r == Role::User,
    {
        Role::User
    }
}

/// A message of a chat, tagged with the role of its author.
#[derive(Debug, Clone)]
pub enum ChatCompletionMessage {
    Developer(ChatCompletionDeveloperMessage),
    System(ChatCompletionSystemMessage),
    User(ChatCompletionUserMessage),
    Assistant(ChatCompletionAssistantMessage),
}

#[derive(Debug, Clone, Default)]
pub struct ChatCompletionRequestMessageContentPartText {
    pub text: String,
}

#[derive(Debug, Clone, Default)]
pub struct ChatCompletionRequestMessageContentPartRefusal {
    pub refusal: String,
}

#[derive(Debug, Clone)]
pub struct ChatCompletionDeveloperMessage {
    pub content: ChatCompletionDeveloperMessageContent,
    pub name: Option<String>,
}

#[derive(Debug, Clone)]
pub enum ChatCompletionDeveloperMessageContent {
    String(String),
    Array(Vec<ChatCompletionRequestDeveloperMessageContentPart>),
}

#[derive(Debug, Clone)]
pub enum ChatCompletionRequestDeveloperMessageContentPart {
    Text(ChatCompletionRequestMessageContentPartText),
}

#[derive(Debug, Clone)]
pub struct ChatCompletionSystemMessage {
    pub content: ChatCompletionSystemMessageContent,
    pub name: Option<String>,
}

#[derive(Debug, Clone)]
pub enum ChatCompletionSystemMessageContent {
    String(String),
    Array(Vec<ChatCompletionRequestSystemMessageContentPart>),
}

#[derive(Debug, Clone)]
pub enum ChatCompletionRequestSystemMessageContentPart {
    Text(ChatCompletionRequestMessageContentPartText),
}

#[derive(Debug, Clone)]
pub struct ChatCompletionUserMessage {
    pub content: ChatCompletionUserMessageContent,
    pub name: Option<String>,
}

#[derive(Debug, Clone)]
pub enum ChatCompletionUserMessageContent {
    String(String),
    Array(Vec<ChatCompletionRequestUserMessageContentPart>),
}

#[derive(Debug, Clone)]
pub enum ChatCompletionRequestUserMessageContentPart {
    Text(ChatCompletionRequestMessageContentPartText),
}

#[derive(Debug, Clone)]
pub struct ChatCompletionAssistantMessage {
    pub content: Option<ChatCompletionAssistantMessageContent>,
    pub refusal: Option<String>,
    pub name: Option<String>,
}

#[derive(Debug, Clone)]
pub enum ChatCompletionAssistantMessageContent {
    Text(String),
    Array(Vec<ChatCompletionRequestAssistantMessageContentPart>),
}

#[derive(Debug, Clone)]
pub enum ChatCompletionRequestAssistantMessageContentPart {
    Text(ChatCompletionRequestMessageContentPartText),
    Refusal(ChatCompletionRequestMessageContentPartRefusal),
}

impl ChatCompletionDeveloperMessage {
    /// A developer message whose content is the plain text `content`.
    pub fn new<S: IntoText>(content: S) -> (r: Self)
        ensures
            r.content matches ChatCompletionDeveloperMessageContent::String(c) && c@ == content.text(),
            r.name is None,
    {
        ChatCompletionDeveloperMessage {
            content: ChatCompletionDeveloperMessageContent::String(content.into_text()),
            name: None,
        }
    }
}

impl ChatCompletionSystemMessage {
    /// A system message whose content is the plain text `content`.
    pub fn new<S: IntoText>(content: S) -> (r: Self)
        ensures
            r.content matches ChatCompletionSystemMessageContent::String(c) && c@ == content.text(),
            r.name is None,
    {
        ChatCompletionSystemMessage {
            content: ChatCompletionSystemMessageContent::String(content.into_text()),
            name: None,
        }
    }
}

impl ChatCompletionUserMessage {
    /// A user message whose content is the plain text `content`.
    pub fn new<S: IntoText>(content: S) -> (r: Self)
        ensures
            r.content matches ChatCompletionUserMessageContent::String(c) && c@ == content.text(),
            r.name is None,
    {
        ChatCompletionUserMessage { content: ChatCompletionUserMessageContent::String(content.into_text()), name: None }
    }
}

impl ChatCompletionAssistantMessage {
    /// An assistant message whose content is the plain text `content`, with
    /// no refusal.
    pub fn new<S: IntoText>(content: S) -> (r: Self)
        ensures
            r.content matches Some(ChatCompletionAssistantMessageContent::Text(c)) && c@ == content.text(),
            r.refusal is None,
            r.name is None,
    {
        ChatCompletionAssistantMessage {
            content: Some(ChatCompletionAssistantMessageContent::Text(content.into_text())),
            refusal: None,
            name: None,
        }
    }
}

impl ChatCompletionMessage {
    /// A plain-text message from a role named `"system"`, `"user"` or
    /// `"assistant"`; `None` for any other role name.
    pub fn from_role(role: &str, content: &str) -> (r: Option<Self>)
        ensures
            role@ == "system"@ ==> (r matches Some(ChatCompletionMessage::System(m)) && (
            m.content matches ChatCompletionSystemMessageContent::String(c) && c@ == content@)),
            role@ == "user"@ ==> (r matches Some(ChatCompletionMessage::User(m)) && (
            m.content matches ChatCompletionUserMessageContent::String(c) && c@ == content@)),
            role@ == "assistant"@ ==> (r matches Some(ChatCompletionMessage::Assistant(m)) && (
            m.content matches Some(ChatCompletionAssistantMessageContent::Text(c)) && c@ == content@)),
            r is None <==> (role@ != "system"@ && role@ != "user"@ && role@ != "assistant"@),
    {
        proof {
            reveal_strlit("system");
            reveal_strlit("user");
            reveal_strlit("assistant");
            assert("system"@.len() != "user"@.len());
            assert("system"@.len() != "assistant"@.len());
        }
        let role = role.to_owned();
        if role == "system".to_owned() {
            Some(ChatCompletionMessage::System(ChatCompletionSystemMessage::new(content)))
        } else if role == "user".to_owned() {
            Some(ChatCompletionMessage::User(ChatCompletionUserMessage::new(content)))
        } else if role == "assistant".to_owned() {
            Some(ChatCompletionMessage::Assistant(ChatCompletionAssistantMessage::new(content)))
        } else {
            None
        }
    }
}

/// Whether a client should report token usage at the end of a stream.
#[derive(Debug, Clone)]
pub struct ChatCompletionRequestStreamOptions {
    pub include_usage: Option<bool>,
}

/// A complete chat-completion response.
#[derive(Debug)]
pub struct ChatCompletionResponse {
    pub id: Option<String>,
    pub object: String,
    /// Seconds since the Unix epoch.
    pub created: u64,
    pub model: String,
    pub choices: Vec<ChatCompletionChoice>,
    pub usage: Usage,
}

/// `created` read as a signed second count, as a cast to `i64` reads it.
pub open spec fn signed_seconds(created: u64) -> int {
    if created <= i64::MAX {
        created as int
    } else {
        created as int - 0x1_0000_0000_0000_0000
    }
}

impl ChatCompletionResponse {
    /// The creation time as a date and time in UTC. Fails where `created`,
    /// read as a signed second count, lies outside the years -9999 to 9999.
    pub fn to_iso8601_created_time(&self) -> (r: Result<time::OffsetDateTime, Error>)
        ensures
            r is Ok <==> MIN_UNIX_TIMESTAMP <= signed_seconds(self.created) <= MAX_UNIX_TIMESTAMP,
            r is Err ==> r matches Err(Error::TimeComponentRangeError(_)),
    {
        let seconds: i64 = if self.created <= 0x7fff_ffff_ffff_ffff {
            self.created as i64
        } else {
            (self.created - 0x8000_0000_0000_0000) as i64 + i64::MIN
        };
        match from_unix_timestamp(seconds) {
            Ok(t) => Ok(t),
            Err(e) => Err(Error::TimeComponentRangeError(e)),
        }
    }
}

#[derive(Debug, Clone)]
pub struct ChatCompletionResponseMessage {
    pub content: Option<String>,
    pub rufusal: Option<String>,
    pub role: Role,
    pub tool_calls: Option<Vec<ChatCompletionMessageToolCall>>,
}

#[derive(Debug, Clone)]
pub enum ChatCompletionMessageToolCall {
    Function { function: FunctionCall },
}

#[derive(Debug, Clone)]
pub struct FunctionCall {
    pub name: String,
    pub arguments: String,
}

#[derive(Debug, Clone)]
pub struct ChatCompletionChoice {
    pub index: u32,
    pub message: ChatCompletionResponseMessage,
    pub finish_reason: Option<FinishReason>,
}

/// Why a model stopped generating.
#[derive(Debug, Clone, Copy, PartialEq, Eq, Structural)]
pub enum FinishReason {
    Stop,
    Length,
    ToolCalls,
    ContentFilter,
    FunctionCall,
}

/// Token counts of a request and its completion.
#[derive(Debug, Clone, Default)]
pub struct Usage {
    pub prompt_tokens: u32,
    pub completion_tokens: u32,
    pub total_tokens: u32,
}

/// One chunk of a streamed chat completion.
#[derive(Debug, Clone, Default)]
pub struct ChatCompletionChunk {
    pub id: String,
    pub object: String,
    pub created: u64,
    pub model: String,
    pub choices: Vec<ChatCompletionChunkChoice>,
    pub usage: Option<Usage>,
}

#[derive(Debug, Clone, Default)]
pub struct ChatCompletionChunkChoice {
    pub delta: ChatCompletionChunkChoiceDelta,
    pub index: u32,
    pub finish_reason: Option<FinishReason>,
}

#[derive(Debug, Clone, Default)]
pub struct ChatCompletionChunkChoiceDelta {
    pub content: Option<String>,
    pub rufusal: Option<String>,
    pub role: Option<Role>,
    pub tool_calls: Option<Vec<ChatCompletionMessageToolCall>>,
}

} // verus!
