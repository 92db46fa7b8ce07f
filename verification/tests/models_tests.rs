use perplexity_stream::models::chat::ChatMessage;
use perplexity_stream::models::chat::MarkdownFile;
use perplexity_stream::models::chat::StreamEvent;

#[test]
fn markdown_file_takes_the_name_it_is_given() {
    let file = MarkdownFile::from_read(
        "/notes/today.md".to_string(),
        Some("today.md".to_string()),
        "# Today".to_string(),
    );
    assert_eq!(file.name, "today.md");
    assert_eq!(file.path, "/notes/today.md");
    assert_eq!(file.content, "# Today");
}

#[test]
fn markdown_file_without_a_name_is_named_by_its_path() {
    let file = MarkdownFile::from_read("..".to_string(), None, String::new());
    assert_eq!(file.name, "..");
    assert_eq!(file.path, "..");
    assert_eq!(file.content, "");
}

#[test]
fn chat_message_holds_role_and_content() {
    let message = ChatMessage { role: "user".to_string(), content: "hello".to_string() };
    let copy = message.clone();
    assert_eq!(copy, message);
    assert_eq!(copy.role, "user");
    assert_eq!(copy.content, "hello");
}

#[test]
fn stream_events_compare_by_variant_and_payload() {
    assert_eq!(StreamEvent::Token("a".to_string()), StreamEvent::Token("a".to_string()));
    assert_ne!(StreamEvent::Token("a".to_string()), StreamEvent::Done("a".to_string()));
    assert_ne!(StreamEvent::Done("a".to_string()), StreamEvent::Error("a".to_string()));
    assert_ne!(StreamEvent::Token("a".to_string()), StreamEvent::Token("b".to_string()));
}
