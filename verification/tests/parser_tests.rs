use off_context::parser::ancestor_dirs;
use off_context::parser::detect_project_path;
use off_context::parser::estimate_token_count;
use off_context::parser::extract_tags;
use off_context::parser::is_transcript_file;
use off_context::parser::pair_messages;
use off_context::parser::parse_claude_jsonl_transcript;
use off_context::parser::parse_transcript;
use off_context::types::TranscriptMessage;

fn msg(role: &str, content: &str) -> TranscriptMessage {
    TranscriptMessage { role: role.to_string(), content: content.to_string(), timestamp: None }
}

#[test]
fn pairing_emits_two_turns_in_order() {
    let messages = vec![msg("user", "A"), msg("assistant", "B"), msg("user", "C"), msg(
        "assistant", "D",
    )];
    let turns = pair_messages(&messages);
    assert_eq!(turns.len(), 2);
    assert_eq!(turns[0].user_message, "A");
    assert_eq!(turns[0].assistant.content, "B");
    assert_eq!(turns[1].user_message, "C");
    assert_eq!(turns[1].assistant.content, "D");
}

#[test]
fn leading_assistant_and_trailing_user_emit_nothing() {
    let turns = pair_messages(&vec![msg("assistant", "orphan")]);
    assert_eq!(turns.len(), 0);
    let turns = pair_messages(&vec![msg("user", "never answered")]);
    assert_eq!(turns.len(), 0);
    let turns = pair_messages(&vec![
        msg("assistant", "orphan"),
        msg("user", "q"),
        msg("assistant", "a"),
        msg("user", "trailing"),
    ]);
    assert_eq!(turns.len(), 1);
    assert_eq!(turns[0].user_message, "q");
}

#[test]
fn second_user_message_replaces_the_first() {
    let turns = pair_messages(&vec![msg("user", "first"), msg("user", "second"), msg(
        "assistant", "answer",
    )]);
    assert_eq!(turns.len(), 1);
    assert_eq!(turns[0].user_message, "second");
}

#[test]
fn other_roles_are_ignored() {
    let turns = pair_messages(&vec![msg("user", "q"), msg("system", "noise"), msg(
        "assistant", "a",
    )]);
    assert_eq!(turns.len(), 1);
}

#[test]
fn parse_single_document_shape() {
    let doc = r#"{"messages":[
        {"role":"user","content":"A"},
        {"role":"assistant","content":"B"},
        {"role":"user","content":"C"},
        {"role":"assistant","content":"D"}],
        "session_id":"s-1"}"#;
    let convs = parse_transcript(doc, &Some("/proj".to_string()), 777);
    assert_eq!(convs.len(), 2);
    assert_eq!(convs[0].user_message, "A");
    assert_eq!(convs[0].assistant_response, "B");
    assert_eq!(convs[1].user_message, "C");
    assert_eq!(convs[1].assistant_response, "D");
    assert_eq!(convs[0].metadata.session_id.as_deref(), Some("s-1"));
    assert_eq!(convs[0].metadata.project_path.as_deref(), Some("/proj"));
    assert_eq!(convs[0].id.chars().count(), 36);
    assert_ne!(convs[0].id, convs[1].id);
    // no source timestamps: both records carry the ingestion time
    assert_eq!(convs[0].timestamp, 777);
}

#[test]
fn parse_resolves_source_timestamps() {
    let doc = r#"{"messages":[
        {"role":"user","content":"q"},
        {"role":"assistant","content":"a","timestamp":"2024-01-15T10:30:00Z"}]}"#;
    let convs = parse_transcript(doc, &None, 0);
    assert_eq!(convs.len(), 1);
    assert_eq!(convs[0].timestamp, 1705314600000);
}

#[test]
fn malformed_timestamp_falls_back_to_now() {
    let doc = r#"{"messages":[
        {"role":"user","content":"q"},
        {"role":"assistant","content":"a","timestamp":"not a date"}]}"#;
    let convs = parse_transcript(doc, &None, 424242);
    assert_eq!(convs.len(), 1);
    assert_eq!(convs[0].timestamp, 424242);
}

#[test]
fn parse_line_delimited_shape() {
    let mut doc = String::new();
    doc.push_str(r#"{"messages":[{"role":"user","content":"q1"},{"role":"assistant","content":"a1"}]}"#);
    doc.push('\n');
    doc.push_str("not json at all\n");
    doc.push_str(r#"{"messages":[{"role":"user","content":"q2"},{"role":"assistant","content":"a2"}]}"#);
    doc.push('\n');
    let convs = parse_transcript(&doc, &None, 5);
    assert_eq!(convs.len(), 2);
    assert_eq!(convs[0].user_message, "q1");
    assert_eq!(convs[1].user_message, "q2");
}

#[test]
fn parse_discriminated_line_shape() {
    let mut doc = String::new();
    doc.push_str(r#"{"type":"user","message":{"content":"hello"},"sessionId":"sess-9"}"#);
    doc.push('\n');
    doc.push_str(r#"{"type":"assistant","message":{"content":[{"text":"hi there"}]}}"#);
    doc.push('\n');
    doc.push_str(r#"{"type":"user","message":{"content":"bye"}}"#);
    doc.push('\n');
    doc.push_str(r#"{"type":"assistant","message":{"content":"farewell"}}"#);
    doc.push('\n');
    let convs = parse_transcript(&doc, &Some("/proj".to_string()), 9);
    assert_eq!(convs.len(), 2);
    assert_eq!(convs[0].user_message, "hello");
    assert_eq!(convs[0].assistant_response, "hi there");
    assert_eq!(convs[0].metadata.session_id.as_deref(), Some("sess-9"));
    assert_eq!(convs[1].assistant_response, "farewell");
    assert_eq!(convs[1].metadata.session_id, None);
    assert_eq!(convs[0].timestamp, 9);
    // metadata follows the same rules as the other shapes
    assert_eq!(convs[0].metadata.token_count, (5 + 8) / 4);
    assert_eq!(convs[1].metadata.token_count, (3 + 8) / 4);
    assert!(convs[0].metadata.tags.is_empty());
    assert_eq!(convs[0].metadata.project_path.as_deref(), Some("/proj"));
}

#[test]
fn discriminated_line_shape_detects_tags() {
    let mut doc = String::new();
    doc.push_str(r#"{"type":"user","message":{"content":"debug my Rust code"}}"#);
    doc.push('\n');
    doc.push_str(r#"{"type":"assistant","message":{"content":"sure"}}"#);
    doc.push('\n');
    let convs = parse_claude_jsonl_transcript(&doc, &None, 4);
    assert_eq!(convs.len(), 1);
    assert_eq!(convs[0].metadata.tags, vec!["rust".to_string(), "debugging".to_string()]);
}

#[test]
fn jsonl_parser_skips_bad_lines() {
    let mut doc = String::new();
    doc.push_str("garbage\n");
    doc.push_str(r#"{"type":"user","message":{"content":"q"}}"#);
    doc.push('\n');
    doc.push_str("{broken\n");
    doc.push_str(r#"{"type":"assistant","message":{"content":"a"}}"#);
    doc.push('\n');
    let convs = parse_claude_jsonl_transcript(&doc, &None, 1);
    assert_eq!(convs.len(), 1);
    assert_eq!(convs[0].user_message, "q");
}

#[test]
fn unparsable_document_yields_no_records() {
    let convs = parse_transcript("completely plain text", &None, 1);
    assert_eq!(convs.len(), 0);
}

#[test]
fn tags_follow_table_order_without_duplicates() {
    let tags = extract_tags("How do I debug my Rust test?");
    assert_eq!(tags, vec!["rust".to_string(), "testing".to_string(), "debugging".to_string()]);
    let tags = extract_tags("RUST rust Rust");
    assert_eq!(tags, vec!["rust".to_string()]);
    let tags = extract_tags("nothing relevant here");
    assert!(tags.is_empty());
    let tags = extract_tags("auth for my api database");
    assert_eq!(tags, vec!["api".to_string(), "database".to_string(), "authentication".to_string()]);
}

#[test]
fn token_estimate_is_a_quarter_of_the_length() {
    assert_eq!(estimate_token_count("abcd", "efgh"), 2);
    assert_eq!(estimate_token_count("", ""), 0);
    assert_eq!(estimate_token_count("abc", ""), 0);
    assert_eq!(estimate_token_count("abcdefgh", "ij"), 2);
}

#[test]
fn transcript_file_detection() {
    assert!(is_transcript_file("my-transcript.json", 0));
    assert!(is_transcript_file("conversation-2.json", 0));
    assert!(is_transcript_file("whatever.json", 101));
    assert!(!is_transcript_file("whatever.json", 100));
    assert!(!is_transcript_file("transcript.txt", 5000));
}

#[test]
fn ancestors_and_marker_detection() {
    let dirs = ancestor_dirs("/home/dev/proj/file.json");
    assert_eq!(
        dirs,
        vec!["/home/dev/proj".to_string(), "/home/dev".to_string(), "/home".to_string(), ""
            .to_string()]
    );
    let markers = vec![false, true, false, false];
    assert_eq!(detect_project_path(&dirs, &markers).as_deref(), Some("/home/dev"));
    let none = vec![false, false, false, false];
    assert_eq!(detect_project_path(&dirs, &none), None);
}
