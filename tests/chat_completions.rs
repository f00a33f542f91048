use ai::chat_completions::{
    ChatCompletionAssistantMessage, ChatCompletionAssistantMessageContent, ChatCompletionMessage,
    ChatCompletionResponse, ChatCompletionSystemMessageContent, ChatCompletionUserMessage,
    ChatCompletionUserMessageContent, Role, Usage,
};
use ai::Error;

fn response_created_at(created: u64) -> ChatCompletionResponse {
    ChatCompletionResponse {
        id: None,
        object: "chat.completion".to_string(),
        created,
        model: "gemma3".to_string(),
        choices: vec![],
        usage: Usage::default(),
    }
}

#[test]
fn message_from_role_names() {
    match ChatCompletionMessage::from_role("system", "be brief") {
        Some(ChatCompletionMessage::System(m)) => {
            assert!(matches!(m.content, ChatCompletionSystemMessageContent::String(ref c) if c == "be brief"));
            assert!(m.name.is_none());
        }
        other => panic!("unexpected {:?}", other),
    }
    assert!(matches!(ChatCompletionMessage::from_role("user", "hi"), Some(ChatCompletionMessage::User(_))));
    assert!(matches!(
        ChatCompletionMessage::from_role("assistant", "hello"),
        Some(ChatCompletionMessage::Assistant(_))
    ));
    assert!(ChatCompletionMessage::from_role("developer", "x").is_none());
    assert!(ChatCompletionMessage::from_role("", "x").is_none());
}

#[test]
fn plain_text_messages() {
    let m = ChatCompletionUserMessage::new("What is the capital of France?");
    assert!(matches!(m.content, ChatCompletionUserMessageContent::String(ref c) if c == "What is the capital of France?"));
    let m = ChatCompletionAssistantMessage::new(String::from("Paris"));
    assert!(matches!(m.content, Some(ChatCompletionAssistantMessageContent::Text(ref c)) if c == "Paris"));
    assert!(m.refusal.is_none());
    assert!(m.name.is_none());
}

#[test]
fn role_defaults_to_user() {
    assert_eq!(Role::default(), Role::User);
}

#[test]
fn created_time_within_range() {
    let t = response_created_at(1736868357).to_iso8601_created_time().unwrap();
    assert_eq!(t.unix_timestamp(), 1736868357);
    assert_eq!(t.offset(), time::UtcOffset::UTC);
    let t = response_created_at(0).to_iso8601_created_time().unwrap();
    assert_eq!(t.unix_timestamp(), 0);
    let t = response_created_at(253402300799).to_iso8601_created_time().unwrap();
    assert_eq!(t.year(), 9999);
    // A value past i64::MAX reads as a negative second count.
    let t = response_created_at(u64::MAX).to_iso8601_created_time().unwrap();
    assert_eq!(t.unix_timestamp(), -1);
}

#[test]
fn created_time_out_of_range() {
    assert!(matches!(
        response_created_at(253402300800).to_iso8601_created_time(),
        Err(Error::TimeComponentRangeError(_))
    ));
    assert!(matches!(
        response_created_at(1u64 << 63).to_iso8601_created_time(),
        Err(Error::TimeComponentRangeError(_))
    ));
}

#[test]
fn created_time_lower_bound() {
    // -377705116800 seconds, read from its two's-complement form, is -9999-01-01.
    let first = (-377705116800i64) as u64;
    let t = response_created_at(first).to_iso8601_created_time().unwrap();
    assert_eq!(t.year(), -9999);
    assert!(matches!(
        response_created_at(first - 1).to_iso8601_created_time(),
        Err(Error::TimeComponentRangeError(_))
    ));
}
