use plainchat_server::auth::store_token;
use plainchat_server::auth::TokenClaims;
use plainchat_server::conn::{ChatServer, ConnPhase, Emit, ServerEvent};
use plainchat_server::errors::AppError;
use plainchat_server::models::UserRole;
use plainchat_server::msg_store::list;
use plainchat_server::presence::is_online;

/// A server with two users and the room "room-1", both users connected,
/// at `now == 1_000`.
fn two_user_server() -> (ChatServer, u64, u64) {
    let mut s = ChatServer::new();
    s.db
        .insert_user("u-alice".to_string(), "alice".to_string(), "h".to_string())
        .unwrap();
    s.db
        .insert_user("u-bob".to_string(), "bob".to_string(), "h".to_string())
        .unwrap();
    s.db
        .insert_group("room-1".to_string(), "room one".to_string())
        .unwrap();
    store_token(&mut s.cache, "Bearer session-alice", "u-alice".to_string(), 1_000).unwrap();
    store_token(&mut s.cache, "Bearer session-bob", "u-bob".to_string(), 1_000).unwrap();
    let a = s.connect(Some("Bearer session-alice"), None, 1_000).unwrap();
    let b = s.connect(Some("Bearer session-bob"), None, 1_000).unwrap();
    (s, a, b)
}

#[test]
fn handshake_rejects_before_any_handler_runs() {
    let mut s = ChatServer::new();
    assert_eq!(s.connect(None, None, 0), Err(AppError::MissingToken));
    assert_eq!(
        s.connect(Some("Bearer junk"), None, 0),
        Err(AppError::InvalidToken)
    );
    // A verified credential whose user has no row is still refused.
    let ghost = TokenClaims { sub: "ghost".to_string(), iat: 0, exp: 1_000 };
    assert!(s.connect(Some("Bearer signed-ghost"), Some(ghost), 0).is_err());
    // So is a cached one.
    let mut cache_only = ChatServer::new();
    store_token(&mut cache_only.cache, "Bearer ghost", "ghost".to_string(), 0).unwrap();
    assert!(cache_only.connect(Some("Bearer ghost"), None, 0).is_err());
}

#[test]
fn handshake_attaches_context_and_raises_presence() {
    let (s, a, _b) = two_user_server();
    assert!(is_online(&s.cache, "alice", 1_000));
    assert!(is_online(&s.cache, "bob", 1_000));
    let room = s.conns.iter().find(|c| c.conn_id == a).unwrap();
    assert_eq!(room.username, "alice");
    assert_eq!(room.phase, ConnPhase::Authenticated);
    assert!(room.room.is_none());
}

#[test]
fn join_broadcasts_presence_to_the_room_including_the_joiner() {
    let (mut s, a, b) = two_user_server();
    let _ = s.join(b, "room-1".to_string());
    let emits = s.join(a, "room-1".to_string());
    assert_eq!(emits.len(), 1);
    assert_eq!(emits[0].room, "room-1");
    assert_eq!(
        emits[0].event,
        ServerEvent::UOnline { username: "alice".to_string() }
    );
    assert_eq!(emits[0].exclude, None);
    // Both the observer and the joiner are in the audience.
    assert!(s.receives(b, &emits[0]));
    assert!(s.receives(a, &emits[0]));
}

#[test]
fn a_connection_sits_in_one_room_at_a_time() {
    let (mut s, a, _b) = two_user_server();
    let _ = s.join(a, "room-1".to_string());
    assert_eq!(s.current_room(a), "room-1");
    let emits = s.join(a, "room-2".to_string());
    // Only one room remains, and the join broadcast goes to the new room.
    assert_eq!(s.current_room(a), "room-2");
    assert_eq!(emits[0].room, "room-2");
    let stale = Emit {
        room: "room-1".to_string(),
        event: ServerEvent::TypeStart { username: "x".to_string() },
        exclude: None,
    };
    assert!(!s.receives(a, &stale));
}

#[test]
fn messages_are_stored_broadcast_and_cached() {
    let (mut s, a, b) = two_user_server();
    let _ = s.join(b, "room-1".to_string());
    let _ = s.join(a, "room-1".to_string());
    let emits = s.message(a, "hi".to_string(), 2_000);
    assert_eq!(emits.len(), 1);
    match &emits[0].event {
        ServerEvent::MessageEvt { id, sender, content, date } => {
            assert!(*id > 0);
            assert_eq!(sender, "alice");
            assert_eq!(content, "hi");
            assert!(*date >= 1_000);
        }
        other => panic!("unexpected event: {:?}", other),
    }
    assert!(s.receives(a, &emits[0]));
    assert!(s.receives(b, &emits[0]));
    let history = list(&s.db, &mut s.cache, &"room-1".to_string(), 2_000);
    assert_eq!(history.last().unwrap().content, "hi");
    assert_eq!(history.last().unwrap().sender, Some("alice".to_string()));
}

#[test]
fn disconnect_clears_presence_and_tells_only_the_others() {
    let (mut s, a, b) = two_user_server();
    let _ = s.join(b, "room-1".to_string());
    let _ = s.join(a, "room-1".to_string());
    let emits = s.disconnect(a);
    assert_eq!(emits.len(), 1);
    assert_eq!(
        emits[0].event,
        ServerEvent::UOffline { username: "alice".to_string() }
    );
    assert_eq!(emits[0].exclude, Some(a));
    assert!(s.receives(b, &emits[0]));
    assert!(!s.receives(a, &emits[0]));
    assert!(!is_online(&s.cache, "alice", 2_000));
    assert!(is_online(&s.cache, "bob", 2_000));
}

#[test]
fn add_user_with_unknown_target_fails_silently() {
    let (mut s, a, _b) = two_user_server();
    let _ = s.join(a, "room-1".to_string());
    let emits = s.add_user(a, "nobody".to_string(), 2_000);
    assert!(emits.is_empty());
    let history = list(&s.db, &mut s.cache, &"room-1".to_string(), 2_000);
    assert!(history.is_empty());
}

#[test]
fn add_user_creates_membership_and_announces_presence() {
    let (mut s, a, _b) = two_user_server();
    let _ = s.join(a, "room-1".to_string());
    let emits = s.add_user(a, "bob".to_string(), 2_000);
    assert_eq!(emits.len(), 1);
    assert_eq!(
        emits[0].event,
        ServerEvent::AddUser {
            username: "bob".to_string(),
            actor: "alice".to_string(),
            is_online: true,
        }
    );
    assert!(s.db.user_in_group(
        &"u-bob".to_string(),
        &"room-1".to_string(),
        Some(UserRole::User)
    ));
    let history = list(&s.db, &mut s.cache, &"room-1".to_string(), 2_000);
    assert_eq!(history.last().unwrap().content, "bob joined.");
    assert_eq!(history.last().unwrap().sender, None);
}

#[test]
fn add_user_of_a_member_is_a_quiet_no_op() {
    let (mut s, a, _b) = two_user_server();
    let _ = s.join(a, "room-1".to_string());
    let _ = s.add_user(a, "bob".to_string(), 2_000);
    let before = list(&s.db, &mut s.cache, &"room-1".to_string(), 2_000);
    // Adding bob again: the duplicate membership is a swallowed store
    // failure; nothing is broadcast and nothing changes.
    let emits = s.add_user(a, "bob".to_string(), 2_000);
    assert!(emits.is_empty());
    let after = list(&s.db, &mut s.cache, &"room-1".to_string(), 2_000);
    assert_eq!(before, after);
    assert!(s.db.user_in_group(
        &"u-bob".to_string(),
        &"room-1".to_string(),
        Some(UserRole::User)
    ));
}

#[test]
fn leave_removes_membership_and_exits_the_room() {
    let (mut s, a, _b) = two_user_server();
    let _ = s.join(a, "room-1".to_string());
    let _ = s.add_user(a, "alice".to_string(), 2_000);
    let emits = s.leave(a, 3_000);
    assert_eq!(emits.len(), 1);
    assert_eq!(
        emits[0].event,
        ServerEvent::LeaveEvt { username: "alice".to_string() }
    );
    assert!(!s.db.user_in_group(&"u-alice".to_string(), &"room-1".to_string(), None));
    let history = list(&s.db, &mut s.cache, &"room-1".to_string(), 3_000);
    assert_eq!(history.last().unwrap().content, "alice left.");
}

#[test]
fn kick_of_a_member_broadcasts_and_records_the_eviction() {
    let (mut s, a, _b) = two_user_server();
    let _ = s.join(a, "room-1".to_string());
    let _ = s.add_user(a, "bob".to_string(), 2_000);
    let emits = s.kick(a, "bob".to_string(), 3_000);
    assert_eq!(emits.len(), 1);
    assert_eq!(
        emits[0].event,
        ServerEvent::Kick { username: "bob".to_string(), actor: "alice".to_string() }
    );
    assert!(!s.db.user_in_group(&"u-bob".to_string(), &"room-1".to_string(), None));
    let history = list(&s.db, &mut s.cache, &"room-1".to_string(), 3_000);
    assert_eq!(
        history.last().unwrap().content,
        "bob was kicked out by alice."
    );
}

#[test]
fn kick_of_a_ghost_completes_without_broadcast_or_error() {
    let (mut s, a, _b) = two_user_server();
    let _ = s.join(a, "room-1".to_string());
    let emits = s.kick(a, "ghost-user".to_string(), 2_000);
    assert!(emits.is_empty());
    // Nothing was recorded either.
    let history = list(&s.db, &mut s.cache, &"room-1".to_string(), 2_000);
    assert!(history.is_empty());
    // A member who is not in this room is equally a quiet no-op.
    let emits = s.kick(a, "bob".to_string(), 2_000);
    assert!(emits.is_empty());
}

#[test]
fn typing_notifications_are_stateless_broadcasts() {
    let (mut s, a, b) = two_user_server();
    let _ = s.join(a, "room-1".to_string());
    let _ = s.join(b, "room-1".to_string());
    let start = s.type_start(a);
    let stop = s.type_stop(a);
    assert_eq!(
        start[0].event,
        ServerEvent::TypeStart { username: "alice".to_string() }
    );
    assert_eq!(
        stop[0].event,
        ServerEvent::TypeStop { username: "alice".to_string() }
    );
    assert!(s.receives(b, &start[0]));
    assert!(s.receives(a, &start[0]));
}

#[test]
fn event_names_match_the_wire_protocol() {
    let u = "x".to_string();
    assert_eq!(ServerEvent::UOnline { username: u.clone() }.name(), "u_online");
    assert_eq!(ServerEvent::UOffline { username: u.clone() }.name(), "u_offline");
    assert_eq!(
        ServerEvent::MessageEvt { id: 1, sender: u.clone(), content: u.clone(), date: 0 }.name(),
        "message"
    );
    assert_eq!(
        ServerEvent::AddUser { username: u.clone(), actor: u.clone(), is_online: false }.name(),
        "add_user"
    );
    assert_eq!(ServerEvent::LeaveEvt { username: u.clone() }.name(), "leave");
    assert_eq!(
        ServerEvent::Kick { username: u.clone(), actor: u.clone() }.name(),
        "kick"
    );
    assert_eq!(ServerEvent::TypeStart { username: u.clone() }.name(), "type_start");
    assert_eq!(ServerEvent::TypeStop { username: u }.name(), "type_stop");
}
