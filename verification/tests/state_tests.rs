use voice_memos::state::{ProcessedEntry, State};

fn entry(words: usize) -> ProcessedEntry {
    ProcessedEntry {
        date: "2024-01-15 10:30".to_string(),
        title: "Test Memo".to_string(),
        method: "tsrp".to_string(),
        words,
        output: Some("2024-01-15-test-memo.md".to_string()),
    }
}

#[test]
fn new_state_is_empty() {
    let state = State::default();
    assert!(state.processed.is_empty());
    assert_eq!(state.processed.len(), 0);
}

#[test]
fn insert_then_get_reads_back() {
    let mut state = State::new();
    state.processed.insert("abc-123".to_string(), entry(42));
    assert_eq!(state.processed.len(), 1);
    assert_eq!(state.processed.get("abc-123").unwrap().words, 42);
    assert!(state.processed.contains_key("abc-123"));
    assert!(state.processed.get("other").is_none());
}

#[test]
fn insert_replaces_existing_entry() {
    let mut state = State::new();
    state.processed.insert("a".to_string(), entry(1));
    state.processed.insert("b".to_string(), entry(2));
    state.processed.insert("a".to_string(), entry(3));
    assert_eq!(state.processed.len(), 2);
    assert_eq!(state.processed.get("a").unwrap().words, 3);
    assert_eq!(state.processed.get("b").unwrap().words, 2);
    let pairs = state.processed.entries();
    assert_eq!(pairs.len(), 2);
}

#[test]
fn duplicate_is_equal() {
    let e = entry(5);
    assert_eq!(e.duplicate(), e);
}
