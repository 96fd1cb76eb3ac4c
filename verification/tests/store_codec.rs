use off_context::store::Memory;
use off_context::types::Conversation;
use off_context::types::ConversationMetadata;
use off_context::types::StoreError;

fn sample(id: &str, ts: i64, user: &str, assistant: &str, session: Option<&str>) -> Conversation {
    Conversation {
        id: id.to_string(),
        timestamp: ts,
        user_message: user.to_string(),
        assistant_response: assistant.to_string(),
        metadata: ConversationMetadata {
            session_id: session.map(|s| s.to_string()),
            project_path: Some("/home/dev/proj".to_string()),
            tags: vec!["rust".to_string(), "testing".to_string()],
            token_count: 42,
            embedding_model: None,
        },
    }
}

#[test]
fn round_trip_preserves_every_field() {
    let mut m = Memory::new(None).unwrap();
    let c = sample(
        "11111111-2222-3333-4444-555555555555",
        1705314600000,
        "fix the bug in parser\nwith a newline and unicode: ✓",
        "done — here is how",
        Some("session-a"),
    );
    m.store_conversation(&c);
    let snap = m.snapshot();
    let reloaded = Memory::new(Some(&snap)).unwrap();
    let records = reloaded.all_conversations();
    assert_eq!(records.len(), 1);
    assert_eq!(records[0], c);
}

#[test]
fn round_trip_many_records_keeps_order() {
    let mut m = Memory::new(None).unwrap();
    for i in 0..7 {
        let c = sample(&format!("id-{}", i), 1000 + i, &format!("q{}", i), &format!("a{}", i), None);
        m.store_conversation(&c);
    }
    let snap = m.snapshot();
    let reloaded = Memory::new(Some(&snap)).unwrap();
    let records = reloaded.all_conversations();
    assert_eq!(records.len(), 7);
    for i in 0..7usize {
        assert_eq!(records[i].id, format!("id-{}", i));
        assert_eq!(records[i].user_message, format!("q{}", i));
    }
}

#[test]
fn insert_replaces_by_id() {
    let mut m = Memory::new(None).unwrap();
    m.store_conversation(&sample("same-id", 1, "first", "one", None));
    m.store_conversation(&sample("same-id", 2, "second", "two", None));
    assert_eq!(m.conversation_count(), 1);
    let got = m.get_conversation("same-id").unwrap();
    assert_eq!(got.user_message, "second");
    assert_eq!(got.timestamp, 2);
}

#[test]
fn get_conversation_finds_by_id() {
    let mut m = Memory::new(None).unwrap();
    m.store_conversation(&sample("a", 1, "qa", "ra", None));
    m.store_conversation(&sample("b", 2, "qb", "rb", None));
    assert_eq!(m.get_conversation("b").unwrap().user_message, "qb");
    assert!(m.get_conversation("missing").is_none());
}

#[test]
fn clear_is_idempotent() {
    let mut m = Memory::new(None).unwrap();
    m.store_conversation(&sample("a", 1, "qa", "ra", None));
    m.store_conversation(&sample("b", 2, "qb", "rb", None));
    m.clear();
    assert_eq!(m.conversation_count(), 0);
    m.clear();
    assert_eq!(m.conversation_count(), 0);
    assert!(m.all_conversations().is_empty());
}

#[test]
fn missing_snapshot_means_empty_store() {
    let m = Memory::new(None).unwrap();
    assert_eq!(m.conversation_count(), 0);
}

#[test]
fn blank_snapshot_means_empty_store() {
    assert_eq!(Memory::new(Some("")).unwrap().conversation_count(), 0);
    assert_eq!(Memory::new(Some("  \n\t \n")).unwrap().conversation_count(), 0);
}

#[test]
fn corrupt_snapshot_is_surfaced() {
    let r = Memory::new(Some("{ not a snapshot at all"));
    assert_eq!(r.err().unwrap(), StoreError::CorruptSnapshot);
}

#[test]
fn truncated_snapshot_is_surfaced() {
    let mut m = Memory::new(None).unwrap();
    m.store_conversation(&sample("a", 1, "hello there", "general reply", None));
    let snap = m.snapshot();
    let cut: String = snap.chars().take(snap.chars().count() - 3).collect();
    let r = Memory::new(Some(&cut));
    assert_eq!(r.err().unwrap(), StoreError::CorruptSnapshot);
}

#[test]
fn snapshot_with_trailing_garbage_is_surfaced() {
    let mut m = Memory::new(None).unwrap();
    m.store_conversation(&sample("a", 1, "hello", "reply", None));
    let mut snap = m.snapshot();
    snap.push_str("extra");
    assert_eq!(Memory::new(Some(&snap)).err().unwrap(), StoreError::CorruptSnapshot);
}

#[test]
fn storing_under_one_id_twice_keeps_the_later_record() {
    let mut both = Memory::new(None).unwrap();
    both.store_conversation(&sample("a", 1, "old", "old answer", None));
    both.store_conversation(&sample("a", 2, "new", "new answer", None));
    assert_eq!(both.conversation_count(), 1);
    assert_eq!(both.get_conversation("a").unwrap().user_message, "new");
    let reloaded = Memory::new(Some(&both.snapshot())).unwrap();
    assert_eq!(reloaded.conversation_count(), 1);
    assert_eq!(reloaded.get_conversation("a").unwrap().user_message, "new");
}

#[test]
fn negative_timestamps_survive_the_snapshot() {
    let mut m = Memory::new(None).unwrap();
    m.store_conversation(&sample("a", -12345, "before the epoch", "yes", None));
    let reloaded = Memory::new(Some(&m.snapshot())).unwrap();
    assert_eq!(reloaded.all_conversations()[0].timestamp, -12345);
}
