use unhosted::memory::{
    enabled_body, enabled_from_text, keyword_retrieve, memory_id, tokenize, MemoryEntry,
    MemoryStore, MEMORY_CAP,
};

fn entry(id: &str, summary: &str, created_at: i64) -> MemoryEntry {
    MemoryEntry { id: id.into(), summary: summary.into(), created_at, chat_id: None }
}

#[test]
fn tokenize_basic() {
    let t = tokenize("Hello, World! Rust dev.");
    assert!(t.contains("hello"));
    assert!(t.contains("world"));
    assert!(t.contains("rust"));
    assert!(t.contains("dev"));
    assert!(!t.contains("a"));
}

#[test]
fn tokenize_drops_short_words_and_repeats() {
    let t = tokenize("I am at the the THE café");
    assert_eq!(t.tokens, vec!["the".to_string(), "café".to_string()]);
    assert!(tokenize("a b c").is_empty());
}

#[test]
fn keyword_retrieve_ranks_overlap() {
    let store = MemoryStore {
        entries: vec![
            entry("1", "user is a Rust dev who hates emojis", 1),
            entry("2", "user loves Python tutorials", 2),
            entry("3", "user asked about Rust async patterns", 3),
        ],
    };
    let hits = keyword_retrieve(&store, "tell me about Rust generics", 2);
    assert_eq!(hits.len(), 2);
    assert!(hits.iter().all(|h| h.summary.contains("Rust")));
    assert_eq!(hits[0].id, "3");
}

#[test]
fn keyword_retrieve_empty_query_returns_recent() {
    let store = MemoryStore { entries: vec![entry("old", "ancient", 1), entry("new", "fresh", 100)] };
    let hits = keyword_retrieve(&store, "", 1);
    assert_eq!(hits.len(), 1);
    assert_eq!(hits[0].id, "new");
    assert!(keyword_retrieve(&store, "anything", 0).is_empty());
    assert!(keyword_retrieve(&store, "zzz qqq", 5).is_empty());
}

#[test]
fn cap_evicts_oldest() {
    let mut store = MemoryStore::new();
    for i in 0..(MEMORY_CAP + 5) {
        store.push_capped(entry(&format!("{}", i), &format!("entry {}", i), i as i64));
    }
    assert_eq!(store.entries.len(), MEMORY_CAP);
    assert_eq!(store.entries[0].id, "5");
}

#[test]
fn upsert_replaces_a_chats_summary() {
    let mut store = MemoryStore::new();
    let i = store.upsert_for_chat("c1", "first".into(), 10, "m1".into());
    assert_eq!(i, 0);
    store.push_capped(entry("m2", "other", 11));
    let j = store.upsert_for_chat("c1", "second".into(), 12, "m3".into());
    assert_eq!(j, 0);
    assert_eq!(store.entries.len(), 2);
    assert_eq!(store.entries[0].summary, "second");
    assert_eq!(store.entries[0].id, "m1");
    assert_eq!(store.entries[0].created_at, 12);
    assert!(store.remove("m2"));
    assert!(!store.remove("m2"));
    assert_eq!(store.entries.len(), 1);
    store.clear();
    assert!(store.entries.is_empty());
}

#[test]
fn ids_and_enable_flag() {
    assert_eq!(memory_id(255), "mem_ff");
    assert_eq!(memory_id(0), "mem_0");
    assert_eq!(memory_id(0x1a2b3c), "mem_1a2b3c");
    assert!(enabled_from_text(" enabled\n"));
    assert!(!enabled_from_text("disabled"));
    assert_eq!(enabled_body(true), "enabled");
}

#[test]
fn retrieval_orders_by_overlap_then_recency() {
    let store = MemoryStore {
        entries: vec![
            entry("a", "rust borrow checker notes", 10),
            entry("b", "rust notes", 30),
            entry("c", "rust borrow checker lifetimes", 5),
            entry("d", "python notes", 50),
        ],
    };
    let hits = keyword_retrieve(&store, "rust borrow checker", 10);
    let ids: Vec<&str> = hits.iter().map(|h| h.id.as_str()).collect();
    // a and c share three tokens (a is newer), b shares one, d none.
    assert_eq!(ids, vec!["a", "c", "b"]);
}
