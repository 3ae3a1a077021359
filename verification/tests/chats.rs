use unhosted::chats::{chat_activity, newest_activity_first, Chat, ChatsFile};

fn chat(id: &str, created: u64, updated: u64) -> Chat<String> {
    Chat { id: id.into(), title: format!("t-{id}"), created_at: created, updated_at: updated, messages: vec![] }
}

#[test]
fn upsert_fills_timestamps_and_appends() {
    let mut f: ChatsFile<String> = ChatsFile::new();
    let at = f.upsert(chat("a", 0, 0), 1000);
    assert_eq!(at, 0);
    assert_eq!(f.chats[0].created_at, 1000);
    assert_eq!(f.chats[0].updated_at, 1000);
    let at = f.upsert(chat("b", 5, 5), 2000);
    assert_eq!(at, 1);
    assert_eq!(f.chats[1].created_at, 5);
    assert_eq!(f.chats[1].updated_at, 2000);
}

#[test]
fn upsert_replaces_by_id_and_get_reads_it_back() {
    let mut f: ChatsFile<String> = ChatsFile::new();
    f.upsert(chat("a", 0, 0), 1000);
    f.upsert(chat("b", 0, 0), 1100);
    let mut again = chat("a", 700, 0);
    again.messages.push("hello".into());
    let at = f.upsert(again, 3000);
    assert_eq!(at, 0);
    assert_eq!(f.chats.len(), 2);
    let got = f.get("a").unwrap();
    assert_eq!(got.created_at, 700);
    assert_eq!(got.updated_at, 3000);
    assert_eq!(got.messages, vec!["hello".to_string()]);
    assert!(f.get("zzz").is_none());
}

#[test]
fn delete_and_clear() {
    let mut f: ChatsFile<String> = ChatsFile::new();
    f.upsert(chat("a", 0, 0), 1);
    f.upsert(chat("b", 0, 0), 2);
    f.chats.push(chat("a", 9, 9));
    assert!(f.delete("a"));
    assert_eq!(f.chats.len(), 1);
    assert!(f.get("a").is_none());
    assert!(!f.delete("a"));
    f.upsert(chat("c", 0, 0), 3);
    assert_eq!(f.clear(), 2);
    assert_eq!(f.chats.len(), 0);
}

#[test]
fn listing_is_newest_activity_first_and_stable() {
    let chats = vec![chat("old", 10, 20), chat("new", 50, 0), chat("mid", 30, 30), chat("tie", 50, 40)];
    assert_eq!(chat_activity(&chats[1]), 50);
    let ids: Vec<String> = newest_activity_first(chats).into_iter().map(|c| c.id).collect();
    assert_eq!(ids, vec!["new", "tie", "mid", "old"]);
}
