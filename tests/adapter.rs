use chat_stream::adapter::{adapt_message, adapt_messages, assemble_content, valid_attachments,
    AttachmentEntry, ContentBlock, MessageContent};
use chat_stream::models::{Message, MessageImage};

fn message(content: &str, images: Option<&str>, documents: Option<&str>) -> Message {
    Message {
        id: "m1".to_string(),
        chat_id: "c1".to_string(),
        role: "user".to_string(),
        content: content.to_string(),
        images: images.map(|s| s.to_string()),
        documents: documents.map(|s| s.to_string()),
        model: None,
        extended_thinking: None,
        created_at: "2024-01-01T00:00:00Z".to_string(),
    }
}

fn describe(content: &MessageContent) -> Vec<String> {
    match content {
        MessageContent::Text(t) => vec![format!("plain:{}", t)],
        MessageContent::Blocks(bs) => bs
            .iter()
            .map(|b| match b {
                ContentBlock::Text(t) => format!("text:{}", t),
                ContentBlock::Image(a) => format!("image:{}:{}", a.media_type, a.data),
                ContentBlock::Document(a) => format!("document:{}:{}", a.media_type, a.data),
            })
            .collect(),
    }
}

#[test]
fn blocks_are_text_then_images_then_documents() {
    let m = message(
        "look",
        Some(r#"[{"data":"i1","media_type":"image/png"},{"data":"i2","media_type":"image/jpeg"}]"#),
        Some(r#"[{"data":"d1","media_type":"application/pdf"}]"#),
    );
    let w = adapt_message(&m);
    assert_eq!(w.role, "user");
    assert_eq!(
        describe(&w.content),
        vec!["text:look", "image:image/png:i1", "image:image/jpeg:i2", "document:application/pdf:d1"]
    );
}

#[test]
fn no_attachments_gives_plain_text() {
    let w = adapt_message(&message("hi", None, None));
    assert_eq!(describe(&w.content), vec!["plain:hi"]);
    let w = adapt_message(&message("hi", Some(""), Some("")));
    assert_eq!(describe(&w.content), vec!["plain:hi"]);
}

#[test]
fn malformed_entries_are_skipped() {
    let m = message(
        "x",
        Some(r#"[{"data":"a"},{"media_type":"image/png"},{"data":5,"media_type":"image/png"},{"data":"ok","media_type":"image/gif"}]"#),
        None,
    );
    let w = adapt_message(&m);
    assert_eq!(describe(&w.content), vec!["text:x", "image:image/gif:ok"]);
}

#[test]
fn unreadable_or_empty_lists_give_plain_text() {
    let w = adapt_message(&message("x", Some("not json"), None));
    assert_eq!(describe(&w.content), vec!["plain:x"]);
    let w = adapt_message(&message("x", Some("[]"), Some("[]")));
    assert_eq!(describe(&w.content), vec!["plain:x"]);
    let w = adapt_message(&message("x", Some(r#"[{"data":"only"}]"#), None));
    assert_eq!(describe(&w.content), vec!["plain:x"]);
}

#[test]
fn empty_text_has_no_text_block() {
    let w = adapt_message(&message("", None, Some(r#"[{"data":"d","media_type":"text/plain"}]"#)));
    assert_eq!(describe(&w.content), vec!["document:text/plain:d"]);
}

#[test]
fn conversation_keeps_its_order() {
    let mut second = message("two", None, None);
    second.role = "assistant".to_string();
    let ws = adapt_messages(&vec![message("one", None, None), second]);
    assert_eq!(ws.len(), 2);
    assert_eq!(ws[0].role, "user");
    assert_eq!(ws[1].role, "assistant");
    assert_eq!(describe(&ws[1].content), vec!["plain:two"]);
}

#[test]
fn valid_attachments_keeps_complete_entries() {
    let entries = vec![
        AttachmentEntry { data: Some("a".to_string()), media_type: None },
        AttachmentEntry { data: Some("b".to_string()), media_type: Some("image/png".to_string()) },
        AttachmentEntry { data: None, media_type: Some("image/png".to_string()) },
    ];
    let out = valid_attachments(&entries);
    assert_eq!(out.len(), 1);
    assert_eq!(out[0].data, "b");
    assert_eq!(out[0].media_type, "image/png");
}

#[test]
fn assemble_content_orders_blocks() {
    let img = MessageImage { data: "i".to_string(), media_type: "image/png".to_string() };
    let doc = MessageImage { data: "d".to_string(), media_type: "application/pdf".to_string() };
    let c = assemble_content("t".to_string(), vec![img], vec![doc]);
    assert_eq!(describe(&c), vec!["text:t", "image:image/png:i", "document:application/pdf:d"]);
    let c = assemble_content("t".to_string(), vec![], vec![]);
    assert_eq!(describe(&c), vec!["plain:t"]);
}
