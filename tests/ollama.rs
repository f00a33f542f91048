use ai::chat_completions::{FinishReason, Role};
use ai::ollama::{OllamaChatCompletionResponse, OllamaChatCompletionResponseMessage};

#[test]
fn ollama_response_in_standard_form() {
    let r = OllamaChatCompletionResponse {
        created_at: 1736868357,
        model: "gemma3".to_string(),
        message: OllamaChatCompletionResponseMessage { role: Role::Assistant, content: "Paris".to_string() },
        done_reason: FinishReason::Stop,
        prompt_eval_count: 33,
        eval_count: 17,
    }
    .into_response();
    assert!(r.id.is_none());
    assert_eq!(r.object, "");
    assert_eq!(r.created, 1736868357);
    assert_eq!(r.model, "gemma3");
    assert_eq!(r.choices.len(), 1);
    assert_eq!(r.choices[0].index, 0);
    assert_eq!(r.choices[0].message.content.as_deref(), Some("Paris"));
    assert_eq!(r.choices[0].message.role, Role::Assistant);
    assert_eq!(r.choices[0].finish_reason, Some(FinishReason::Stop));
    assert_eq!(r.usage.prompt_tokens, 33);
    assert_eq!(r.usage.completion_tokens, 8);
    assert_eq!(r.usage.total_tokens, 17);
}
