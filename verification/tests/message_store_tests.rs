use plainchat_server::cache::CacheStore;
use plainchat_server::errors::{AppError, DbError, SqlxConstraints};
use plainchat_server::models::MessageType;
use plainchat_server::msg_store::{append, cache_messages, get_messages, list};
use plainchat_server::store::DurableStore;

fn seeded_db(room: &str) -> DurableStore {
    let mut db = DurableStore::new();
    db.insert_user("u1".to_string(), "alice".to_string(), "h1".to_string())
        .unwrap();
    db.insert_message(
        room.to_string(),
        Some("u1".to_string()),
        "first".to_string(),
        MessageType::Normal,
        10,
    );
    db.insert_message(
        room.to_string(),
        None,
        "second".to_string(),
        MessageType::Event,
        20,
    );
    db.insert_message(
        room.to_string(),
        Some("u1".to_string()),
        "third".to_string(),
        MessageType::Normal,
        20,
    );
    db
}

#[test]
fn history_is_chronological_and_resolves_senders() {
    let db = seeded_db("r1");
    let h = db.history(&"r1".to_string());
    assert_eq!(h.len(), 3);
    assert_eq!(h[0].content, "first");
    assert_eq!(h[0].sender, Some("alice".to_string()));
    assert_eq!(h[1].sender, None);
    assert!(h[0].date <= h[1].date && h[1].date <= h[2].date);
    assert!(h[0].id < h[1].id && h[1].id < h[2].id);
}

#[test]
fn a_cold_read_loads_durable_history_and_warms_the_cache() {
    let db = seeded_db("r1");
    let mut cache = CacheStore::new();
    let first = list(&db, &mut cache, &"r1".to_string(), 30);
    let contents: Vec<&str> = first.iter().map(|m| m.content.as_str()).collect();
    assert_eq!(contents, vec!["first", "second", "third"]);
    // The second read is served from the cache and agrees exactly.
    let second = list(&db, &mut cache, &"r1".to_string(), 30);
    assert_eq!(first, second);
    // The cache now holds the room most-recent-first.
    let cached = get_messages(&cache, "r1", 30);
    assert_eq!(cached, first);
}

#[test]
fn append_then_list_ends_with_the_appended_message_cache_hit() {
    let mut db = seeded_db("r1");
    let mut cache = CacheStore::new();
    let _ = list(&db, &mut cache, &"r1".to_string(), 30);
    let m = append(
        &mut db,
        &mut cache,
        &"r1".to_string(),
        Some("u1".to_string()),
        "fresh".to_string(),
        MessageType::Normal,
        40,
    );
    let after = list(&db, &mut cache, &"r1".to_string(), 40);
    assert_eq!(after.last().unwrap(), &m);
}

#[test]
fn append_then_list_ends_with_the_appended_message_cache_miss() {
    let mut db = seeded_db("r1");
    let mut cache = CacheStore::new();
    let m = append(
        &mut db,
        &mut cache,
        &"r1".to_string(),
        Some("u1".to_string()),
        "fresh".to_string(),
        MessageType::Normal,
        40,
    );
    // Drop the cache entry so the read has to rebuild from durable history.
    cache.del(&plainchat_server::keys::redis_msg_list_key("r1"));
    let after = list(&db, &mut cache, &"r1".to_string(), 40);
    assert_eq!(after.last().unwrap(), &m);
    let dates: Vec<u64> = after.iter().map(|x| x.date).collect();
    let mut sorted = dates.clone();
    sorted.sort();
    assert_eq!(dates, sorted);
}

#[test]
fn population_is_guarded_by_the_existence_check() {
    let db = seeded_db("r1");
    let mut cache = CacheStore::new();
    let h = db.history(&"r1".to_string());
    cache_messages(&mut cache, "r1", &h, 30).unwrap();
    assert_eq!(get_messages(&cache, "r1", 30).len(), 3);
    // A second population sees the key and leaves the list alone.
    cache_messages(&mut cache, "r1", &h, 30).unwrap();
    assert_eq!(get_messages(&cache, "r1", 30).len(), 3);
}

#[test]
fn the_populated_list_lapses_after_five_days() {
    let db = seeded_db("r1");
    let mut cache = CacheStore::new();
    let h = db.history(&"r1".to_string());
    cache_messages(&mut cache, "r1", &h, 30).unwrap();
    let after_ttl = 30 + plainchat_server::MSGS_EXPIRE_SECS;
    assert_eq!(get_messages(&cache, "r1", after_ttl).len(), 0);
}

#[test]
fn rooms_do_not_share_caches_or_histories() {
    let mut db = seeded_db("r1");
    db.insert_message(
        "r2".to_string(),
        None,
        "elsewhere".to_string(),
        MessageType::Event,
        25,
    );
    let mut cache = CacheStore::new();
    let one = list(&db, &mut cache, &"r1".to_string(), 30);
    let two = list(&db, &mut cache, &"r2".to_string(), 30);
    assert_eq!(one.len(), 3);
    assert_eq!(two.len(), 1);
    assert_eq!(two[0].content, "elsewhere");
}

#[test]
fn store_errors_map_to_the_entity_they_concern() {
    let r: Result<u8, DbError> = Err(DbError::UniqueViolation);
    match r.map_unique_err("Username", "alice") {
        Err(AppError::AlreadyExists { target_type, data }) => {
            assert_eq!(target_type, "Username");
            assert_eq!(data, "alice");
        }
        other => panic!("unexpected mapping: {:?}", other),
    }
    let r: Result<u8, DbError> = Err(DbError::RowNotFound);
    match r.map_non_existence_err("User", "bob") {
        Err(AppError::DoesNotExist { target_type, data }) => {
            assert_eq!(target_type, "User");
            assert_eq!(data, "bob");
        }
        other => panic!("unexpected mapping: {:?}", other),
    }
    let r: Result<u8, DbError> = Err(DbError::Other);
    assert_eq!(r.map_unique_err("x", "y"), Err(AppError::Db(DbError::Other)));
    let r: Result<u8, DbError> = Ok(7);
    assert_eq!(r.map_non_existence_err("x", "y"), Ok(7));
}

#[test]
fn error_statuses_match_the_taxonomy() {
    assert_eq!(AppError::MissingToken.status_code(), 401);
    assert_eq!(
        AppError::WrongCredentials(None).status_code(),
        401
    );
    assert_eq!(AppError::InvalidToken.status_code(), 400);
    assert_eq!(AppError::ForbiddenAction.status_code(), 403);
    assert_eq!(
        AppError::DoesNotExist { target_type: "User".to_string(), data: "".to_string() }
            .status_code(),
        404
    );
    assert_eq!(
        AppError::AlreadyExists { target_type: "User".to_string(), data: "".to_string() }
            .status_code(),
        409
    );
    assert_eq!(AppError::Db(DbError::Other).status_code(), 500);
    assert_eq!(AppError::Cache.status_code(), 500);
    assert_eq!(AppError::Internal.status_code(), 500);
    assert!(AppError::Db(DbError::Other).is_opaque());
    assert!(!AppError::MissingToken.is_opaque());
}
