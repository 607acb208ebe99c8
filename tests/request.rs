use chat_stream::adapter::MessageContent;
use chat_stream::models::{default_max_tokens, AppError, Message, MAX_TIMESTAMP_SECS};
use chat_stream::request::{build_request, chat_request, max_tokens_for, title_from_reply, title_prompt,
    title_request};

#[test]
fn extended_reasoning_raises_low_limit() {
    let r = build_request("m".to_string(), 4096, None, vec![], true);
    assert_eq!(r.max_tokens, 16000);
    assert_eq!(r.thinking_budget, Some(10000));
    assert!(r.stream);
    assert_eq!(max_tokens_for(12000, true), 12000);
    assert_eq!(max_tokens_for(11999, true), 16000);
    assert_eq!(max_tokens_for(20000, true), 20000);
}

#[test]
fn without_extended_reasoning_limit_is_kept() {
    let r = build_request("m".to_string(), 4096, Some("sys".to_string()), vec![], false);
    assert_eq!(r.max_tokens, 4096);
    assert_eq!(r.thinking_budget, None);
    assert_eq!(r.system.as_deref(), Some("sys"));
    assert_eq!(r.model, "m");
}

#[test]
fn chat_request_adapts_history() {
    let m = Message::new_user("c".to_string(), "hello".to_string(), [7u8; 16], 1431648000, 0).unwrap();
    let r = chat_request("model-a".to_string(), default_max_tokens(), None, &vec![m], false);
    assert_eq!(r.messages.len(), 1);
    match &r.messages[0].content {
        MessageContent::Text(t) => assert_eq!(t, "hello"),
        MessageContent::Blocks(_) => panic!("expected plain text"),
    }
}

#[test]
fn title_prompt_quotes_at_most_five_hundred_characters() {
    let long: String = "é".repeat(600);
    let p = title_prompt(&"question".to_string(), &long);
    assert!(p.starts_with("Based on this conversation, generate a concise 3-5 word title"));
    assert!(p.contains("\n\nUser: question\n\nAssistant: "));
    assert!(p.ends_with(&"é".repeat(500)));
    assert!(!p.ends_with(&"é".repeat(501)));
    let short = title_prompt(&"q".to_string(), &"a".to_string());
    assert!(short.ends_with("\n\nUser: q\n\nAssistant: a"));
}

#[test]
fn title_request_is_small_and_not_streamed() {
    let r = title_request("model-t".to_string(), &"u".to_string(), &"a".to_string());
    assert_eq!(r.model, "model-t");
    assert_eq!(r.max_tokens, 20);
    assert!(!r.stream);
    assert_eq!(r.thinking_budget, None);
    assert_eq!(r.messages[0].role, "user");
}

#[test]
fn title_is_trimmed_or_falls_back() {
    assert_eq!(title_from_reply(Some("  Rust Streaming Parser \n".to_string())), "Rust Streaming Parser");
    assert_eq!(title_from_reply(None), "New Chat");
}

#[test]
fn failed_status_carries_the_body() {
    let e = AppError::api(Some("rate limited".to_string()));
    assert!(e.message.contains("rate limited"));
    assert_eq!(e.message, "API error: rate limited");
    assert_eq!(AppError::api(None).message, "API error: Unknown error");
}

#[test]
fn defaults() {
    assert_eq!(default_max_tokens(), 4096);
}

#[test]
fn new_messages_get_role_identifier_and_time() {
    let u = Message::new_user("chat".to_string(), "hi".to_string(), [0u8; 16], 1431648000, 0).unwrap();
    assert_eq!(u.role, "user");
    assert_eq!(u.chat_id, "chat");
    assert_eq!(u.content, "hi");
    assert_eq!(u.id, "00000000-0000-4000-8000-000000000000");
    assert_eq!(u.created_at, "2015-05-15T00:00:00+00:00");
    assert!(u.images.is_none() && u.documents.is_none() && u.model.is_none());
    let a = Message::new_assistant("chat".to_string(), "yo".to_string(), [0xffu8; 16], 1431648000, 500_000_000)
        .unwrap();
    assert_eq!(a.role, "assistant");
    assert_eq!(a.id, "ffffffff-ffff-4fff-bfff-ffffffffffff");
    assert_eq!(a.created_at, "2015-05-15T00:00:00.500+00:00");
    for (i, c) in a.id.chars().enumerate() {
        if [8, 13, 18, 23].contains(&i) {
            assert_eq!(c, '-');
        } else {
            assert!(c.is_ascii_digit() || ('a'..='f').contains(&c));
        }
    }
}

#[test]
fn message_time_must_be_in_range() {
    let m = |secs: i64, nanos: u32| Message::new_user("c".to_string(), "x".to_string(), [1u8; 16], secs, nanos);
    assert!(m(-1, 0).is_none());
    assert!(m(0, 1_000_000_000).is_none());
    assert!(m(MAX_TIMESTAMP_SECS, 0).is_none());
    assert_eq!(m(MAX_TIMESTAMP_SECS - 1, 0).unwrap().created_at, "9999-12-31T23:59:59+00:00");
    assert_eq!(m(0, 1_000).unwrap().created_at, "1970-01-01T00:00:00.000001+00:00");
}

#[test]
fn title_trim_removes_unicode_white_space() {
    assert_eq!(title_from_reply(Some("\u{3000}\tTitle Here\u{a0}\n".to_string())), "Title Here");
    assert_eq!(title_from_reply(Some(" \u{2003} ".to_string())), "");
}
