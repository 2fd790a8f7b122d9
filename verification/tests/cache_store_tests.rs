use plainchat_server::cache::CacheStore;
use plainchat_server::errors::AppError;
use plainchat_server::models::{Message, MessageType};

fn msg(id: u64, text: &str, date: u64) -> Message {
    Message {
        id,
        sender: Some("alice".to_string()),
        content: text.to_string(),
        msg_type: MessageType::Normal,
        date,
    }
}

#[test]
fn text_entries_round_trip_until_expiry() {
    let mut c = CacheStore::new();
    c.set_text_ex("k".to_string(), "v".to_string(), 10, 100);
    assert_eq!(c.get_text(&"k".to_string(), 100), Some("v".to_string()));
    assert_eq!(c.get_text(&"k".to_string(), 109), Some("v".to_string()));
    assert_eq!(c.get_text(&"k".to_string(), 110), None);
    assert!(c.exists_key(&"k".to_string(), 105));
    assert!(!c.exists_key(&"k".to_string(), 110));
}

#[test]
fn a_plain_set_clears_the_expiry() {
    let mut c = CacheStore::new();
    c.set_text_ex("k".to_string(), "v".to_string(), 10, 100);
    c.set_text("k".to_string(), "w".to_string());
    assert_eq!(c.get_text(&"k".to_string(), 1_000_000), Some("w".to_string()));
}

#[test]
fn deletion_removes_the_entry() {
    let mut c = CacheStore::new();
    c.set_text("k".to_string(), "v".to_string());
    c.del(&"k".to_string());
    assert_eq!(c.get_text(&"k".to_string(), 0), None);
    // Deleting an absent key is a quiet no-op.
    c.del(&"missing".to_string());
}

#[test]
fn list_pushes_prepend_and_range_reads_front_first() {
    let mut c = CacheStore::new();
    let k = "msgs:r".to_string();
    c.list_push_front(k.clone(), msg(1, "a", 10), 0).unwrap();
    c.list_push_front(k.clone(), msg(2, "b", 20), 0).unwrap();
    c.list_push_front(k.clone(), msg(3, "c", 30), 0).unwrap();
    let l = c.list_range_all(&k, 0);
    let ids: Vec<u64> = l.iter().map(|m| m.id).collect();
    assert_eq!(ids, vec![3, 2, 1]);
}

#[test]
fn a_push_onto_a_text_entry_is_a_type_error() {
    let mut c = CacheStore::new();
    c.set_text("k".to_string(), "v".to_string());
    let r = c.list_push_front("k".to_string(), msg(1, "a", 10), 0);
    assert_eq!(r, Err(AppError::Cache));
    // The text entry is untouched and list reads of it come back empty.
    assert_eq!(c.get_text(&"k".to_string(), 0), Some("v".to_string()));
    assert!(c.list_range_all(&"k".to_string(), 0).is_empty());
}

#[test]
fn expiry_applies_to_lists_too() {
    let mut c = CacheStore::new();
    let k = "msgs:r".to_string();
    c.list_push_front(k.clone(), msg(1, "a", 10), 0).unwrap();
    c.expire_key(&k, 100, 0);
    assert_eq!(c.list_range_all(&k, 99).len(), 1);
    assert_eq!(c.list_range_all(&k, 100).len(), 0);
    // A push onto the expired key starts a fresh list without expiry.
    c.list_push_front(k.clone(), msg(2, "b", 20), 100).unwrap();
    let l = c.list_range_all(&k, 1_000_000);
    assert_eq!(l.len(), 1);
    assert_eq!(l[0].id, 2);
}

#[test]
fn key_families_do_not_collide() {
    let mut c = CacheStore::new();
    c.set_text(
        plainchat_server::keys::redis_status_key("x"),
        "ON".to_string(),
    );
    c.set_text_ex(
        plainchat_server::keys::redis_token_key("x"),
        "user-1".to_string(),
        100,
        0,
    );
    assert_eq!(
        c.get_text(&plainchat_server::keys::redis_status_key("x"), 0),
        Some("ON".to_string())
    );
    assert_eq!(
        c.get_text(&plainchat_server::keys::redis_token_key("x"), 0),
        Some("user-1".to_string())
    );
    assert_eq!(
        c.get_text(&plainchat_server::keys::redis_msg_list_key("x"), 0),
        None
    );
}

#[test]
fn presence_flags_toggle_with_the_hooks() {
    let mut c = CacheStore::new();
    assert!(!plainchat_server::presence::is_online(&c, "alice", 0));
    plainchat_server::presence::set_online(&mut c, "alice").unwrap();
    assert!(plainchat_server::presence::is_online(&c, "alice", 0));
    // No expiry: the flag outlives any clock.
    assert!(plainchat_server::presence::is_online(&c, "alice", u64::MAX));
    plainchat_server::presence::set_offline(&mut c, "alice");
    assert!(!plainchat_server::presence::is_online(&c, "alice", 0));
}
