//! The chat response of an Ollama server, and its standard form.

use crate::chat_completions::{
    ChatCompletionChoice, ChatCompletionResponse, ChatCompletionResponseMessage, FinishReason, Role, Usage,
};
use vstd::prelude::*;

verus! {

/// A chat response as an Ollama server sends it.
#[derive(Debug, Clone)]
pub struct OllamaChatCompletionResponse {
    /// Seconds since the Unix epoch.
    pub created_at: u64,
    pub model: String,
    pub message: OllamaChatCompletionResponseMessage,
    pub done_reason: FinishReason,
    pub prompt_eval_count: u32,
    pub eval_count: u32,
}

#[derive(Debug, Clone)]
pub struct OllamaChatCompletionResponseMessage {
    pub role: Role,
    pub content: String,
}

impl OllamaChatCompletionResponse {
    /// The response in standard form: one choice at index 0 holding the
    /// message; the prompt count as prompt tokens, the evaluation count as
    /// total tokens and half of it, rounded down, as completion tokens.
    pub fn into_response(self) -> (r: ChatCompletionResponse)
        ensures
            r.id is None,
            r.object@ == Seq::<char>::empty(),
            r.created == self.created_at,
            r.model == self.model,
            r.choices@.len() == 1,
            r.choices@[0].index == 0,
            r.choices@[0].message.content == Some(self.message.content),
            r.choices@[0].message.rufusal is None,
            r.choices@[0].message.role == self.message.role,
            r.choices@[0].message.tool_calls is None,
            r.choices@[0].finish_reason == Some(self.done_reason),
            r.usage.prompt_tokens == self.prompt_eval_count,
            r.usage.completion_tokens == self.eval_count / 2,
            r.usage.total_tokens == self.eval_count,
    {
        let choice = ChatCompletionChoice {
            index: 0,
            message: ChatCompletionResponseMessage {
                content: Some(self.message.content),
                rufusal: None,
                role: self.message.role,
                tool_calls: None,
            },
            finish_reason: Some(self.done_reason),
        };
        let mut choices: Vec<ChatCompletionChoice> = Vec::new();
        choices.push(choice);
        ChatCompletionResponse {
            id: None,
            object: String::new(),
            created: self.created_at,
            model: self.model,
            choices,
            usage: Usage {
                prompt_tokens: self.prompt_eval_count,
                completion_tokens: self.eval_count / 2,
                total_tokens: self.eval_count,
            },
        }
    }
}

} // verus!
