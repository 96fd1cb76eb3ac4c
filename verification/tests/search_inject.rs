use off_context::inject::inject_context_guarded;
use off_context::inject::inject_context_internal;
use off_context::inject::inject_context_simple;
use off_context::inject::is_simple_command;
use off_context::inject::should_skip_injection;
use off_context::store::Memory;
use off_context::types::Conversation;
use off_context::types::ConversationMetadata;

fn conv(id: &str, ts: i64, user: &str, assistant: &str, session: Option<&str>) -> Conversation {
    Conversation {
        id: id.to_string(),
        timestamp: ts,
        user_message: user.to_string(),
        assistant_response: assistant.to_string(),
        metadata: ConversationMetadata {
            session_id: session.map(|s| s.to_string()),
            project_path: None,
            tags: vec![],
            token_count: 0,
            embedding_model: None,
        },
    }
}

#[test]
fn single_word_scores_five_tenths() {
    let mut m = Memory::new(None).unwrap();
    m.store_conversation(&conv("a", 1, "fix the bug in parser", "done", None));
    let hits = m.search("bug", 10);
    assert_eq!(hits.len(), 1);
    assert_eq!(hits[0].score, 5);
}

#[test]
fn two_matched_words_score_one_point_zero() {
    let mut m = Memory::new(None).unwrap();
    m.store_conversation(&conv("a", 1, "fix the bug in parser", "done", None));
    let hits = m.search("bug parser", 10);
    assert_eq!(hits.len(), 1);
    assert_eq!(hits[0].score, 10);
}

#[test]
fn unmatched_query_yields_nothing() {
    let mut m = Memory::new(None).unwrap();
    m.store_conversation(&conv("a", 1, "fix the bug in parser", "done", None));
    assert!(m.search("xyz", 10).is_empty());
}

#[test]
fn assistant_side_scores_three_tenths() {
    let mut m = Memory::new(None).unwrap();
    m.store_conversation(&conv("a", 1, "hello", "the bug is gone", None));
    let hits = m.search("bug", 10);
    assert_eq!(hits.len(), 1);
    assert_eq!(hits[0].score, 3);
}

#[test]
fn search_is_case_folded() {
    let mut m = Memory::new(None).unwrap();
    m.store_conversation(&conv("a", 1, "Fix The BUG", "done", None));
    let hits = m.search("bug", 10);
    assert_eq!(hits.len(), 1);
    let hits = m.search("FIX", 10);
    assert_eq!(hits.len(), 1);
}

#[test]
fn empty_query_returns_nothing() {
    let mut m = Memory::new(None).unwrap();
    m.store_conversation(&conv("a", 1, "anything", "at all", None));
    assert!(m.search("", 100).is_empty());
    assert!(m.search("   ", 100).is_empty());
}

#[test]
fn limit_one_returns_the_highest_scoring() {
    let mut m = Memory::new(None).unwrap();
    m.store_conversation(&conv("a", 1, "bug", "other", None));
    m.store_conversation(&conv("b", 2, "bug bug", "bug fixed today", None));
    m.store_conversation(&conv("c", 3, "bug here", "nothing", None));
    m.store_conversation(&conv("d", 4, "more bug", "nothing", None));
    m.store_conversation(&conv("e", 5, "bug again", "nothing", None));
    let hits = m.search("bug", 1);
    assert_eq!(hits.len(), 1);
    assert_eq!(hits[0].conversation.id, "b");
}

#[test]
fn results_are_sorted_descending_with_stable_ties() {
    let mut m = Memory::new(None).unwrap();
    m.store_conversation(&conv("low", 1, "hello", "a bug", None));
    m.store_conversation(&conv("tie1", 2, "bug", "x", None));
    m.store_conversation(&conv("tie2", 3, "bug", "y", None));
    let hits = m.search("bug", 10);
    assert_eq!(hits.len(), 3);
    assert_eq!(hits[0].conversation.id, "tie1");
    assert_eq!(hits[1].conversation.id, "tie2");
    assert_eq!(hits[2].conversation.id, "low");
}

#[test]
fn snippet_truncates_long_messages() {
    let long_user = "u".repeat(150);
    let long_assistant = "a".repeat(250);
    let mut m = Memory::new(None).unwrap();
    m.store_conversation(&conv("a", 1, &long_user, &long_assistant, None));
    let hits = m.search("uuu", 10);
    assert_eq!(hits.len(), 1);
    let expected = format!(
        "User: {}...\nAssistant: {}...",
        "u".repeat(100),
        "a".repeat(200)
    );
    assert_eq!(hits[0].snippet, expected);
}

#[test]
fn short_snippet_is_untouched() {
    let mut m = Memory::new(None).unwrap();
    m.store_conversation(&conv("a", 1, "short bug", "short answer", None));
    let hits = m.search("bug", 10);
    assert_eq!(hits[0].snippet, "User: short bug\nAssistant: short answer");
}

#[test]
fn selection_draws_from_the_previous_session() {
    let convs = vec![
        conv("a1", 100, "old question one", "old answer one", Some("S1")),
        conv("a2", 200, "old question two", "old answer two", Some("S1")),
        conv("b1", 300, "current question", "current answer", Some("S2")),
    ];
    let out = inject_context_internal("what now?", &Some("S2".to_string()), &convs);
    assert!(out.starts_with("[INSTRUCTION]\n"));
    assert!(out.ends_with("what now?"));
    assert!(out.contains("old answer one"));
    assert!(out.contains("old answer two"));
    assert!(!out.contains("current answer"));
}

#[test]
fn selection_with_only_the_current_session_is_empty() {
    let convs = vec![conv("b1", 300, "q", "a", Some("S2"))];
    let out = inject_context_internal("next prompt", &Some("S2".to_string()), &convs);
    assert_eq!(out, "[INSTRUCTION]\n[/INSTRUCTION]\n\nnext prompt");
}

#[test]
fn selection_without_current_takes_the_most_recent_session() {
    let convs = vec![
        conv("a1", 100, "older q", "older a", Some("S1")),
        conv("b1", 300, "newer q", "newer a", Some("S2")),
    ];
    let out = inject_context_internal("p", &None, &convs);
    assert!(out.contains("newer a"));
    assert!(!out.contains("older a"));
}

#[test]
fn selection_quotes_at_most_three_turns() {
    let convs = vec![
        conv("a1", 1, "q1", "r1", Some("S1")),
        conv("a2", 2, "q2", "r2", Some("S1")),
        conv("a3", 3, "q3", "r3", Some("S1")),
        conv("a4", 4, "q4", "r4", Some("S1")),
    ];
    let out = inject_context_internal("p", &Some("S2".to_string()), &convs);
    assert!(!out.contains("\"r1\""));
    assert!(out.contains("\"r2\""));
    assert!(out.contains("\"r3\""));
    assert!(out.contains("\"r4\""));
}

#[test]
fn guard_passes_short_input_through() {
    let convs = vec![conv("a1", 1, "stored question", "stored answer", Some("S1"))];
    let out = inject_context_guarded("abcde", &None, &convs);
    assert_eq!(out, "abcde");
    assert!(should_skip_injection("abcde"));
}

#[test]
fn guard_passes_acknowledgements_through() {
    let convs = vec![conv("a1", 1, "stored question", "stored answer", Some("S1"))];
    for phrase in ["hi", "Thanks", "THANK YOU", "  ok  ", "continue"] {
        assert_eq!(inject_context_guarded(phrase, &None, &convs), phrase);
    }
    assert!(is_simple_command("Thank You"));
    assert!(!is_simple_command("thank you kindly for everything"));
}

#[test]
fn guard_lets_substantial_prompts_be_enhanced() {
    let convs = vec![conv("a1", 1, "stored question", "stored answer", Some("S1"))];
    let out = inject_context_guarded("please refactor the parser module", &None, &convs);
    assert!(out.starts_with("[INSTRUCTION]\n"));
    assert!(out.contains("stored answer"));
}

#[test]
fn compact_injection_takes_the_last_two() {
    let convs = vec![
        conv("a", 10, "first q", "first a", None),
        conv("b", 20, "second q", "second a", None),
        conv("c", 30, "third q", "third a", None),
    ];
    let out = inject_context_simple("my prompt", &convs);
    assert_eq!(out, "[PREV: U:\"second q\" A:\"second a\"; U:\"third q\" A:\"third a\"]\n\nmy prompt");
}

#[test]
fn compact_injection_strips_noise_and_truncates() {
    let noisy_user = format!("<user-prompt-submit-hook>  {}  ", "x".repeat(120));
    let convs = vec![conv("a", 10, &noisy_user, "[2mclean answer[0m", None)];
    let out = inject_context_simple("p", &convs);
    let expected_user = "x".repeat(80);
    assert_eq!(out, format!("[PREV: U:\"{}\" A:\"clean answer\"]\n\np", expected_user));
}

#[test]
fn compact_injection_skips_records_cleaned_to_nothing() {
    let convs = vec![conv("a", 10, "<user-prompt-submit-hook>", "an answer", None)];
    let out = inject_context_simple("the prompt stays", &convs);
    assert_eq!(out, "the prompt stays");
    let out = inject_context_simple("p", &Vec::new());
    assert_eq!(out, "p");
}
