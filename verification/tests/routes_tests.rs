use plainchat_server::auth::{authenticate, issue, AuthContext};
use plainchat_server::cache::CacheStore;
use plainchat_server::errors::AppError;
use plainchat_server::models::UserRole;
use plainchat_server::routes::{
    create_group, create_user, curr_user, delete_group, delete_user, list_members, list_messages,
    login_user, user_groups,
};
use plainchat_server::store::DurableStore;

fn db_with_alice() -> DurableStore {
    let mut db = DurableStore::new();
    create_user(&mut db, "u-alice".to_string(), "alice".to_string(), "hash-a".to_string())
        .unwrap();
    db
}

#[test]
fn duplicate_usernames_are_already_exists() {
    let mut db = db_with_alice();
    let r = create_user(
        &mut db,
        "u-other".to_string(),
        "alice".to_string(),
        "hash-b".to_string(),
    );
    match r {
        Err(AppError::AlreadyExists { target_type, data }) => {
            assert_eq!(target_type, "Username");
            assert_eq!(data, "alice");
        }
        other => panic!("unexpected result: {:?}", other),
    }
}

#[test]
fn login_reports_unknown_users_and_bad_passwords() {
    let db = db_with_alice();
    match login_user(&db, &"bob".to_string(), true) {
        Err(AppError::DoesNotExist { target_type, data }) => {
            assert_eq!(target_type, "User");
            assert_eq!(data, "bob");
        }
        other => panic!("unexpected result: {:?}", other),
    }
    match login_user(&db, &"alice".to_string(), false) {
        Err(AppError::WrongCredentials(Some(msg))) => {
            assert_eq!(msg, "Password is incorrect");
        }
        other => panic!("unexpected result: {:?}", other),
    }
}

#[test]
fn a_login_flows_into_an_authenticating_credential() {
    let db = db_with_alice();
    let mut cache = CacheStore::new();
    let (uid, username) = login_user(&db, &"alice".to_string(), true).unwrap();
    assert_eq!(uid, "u-alice");
    assert_eq!(username, "alice");
    // The collaborator signs; the library caches and authenticates.
    issue(&mut cache, "Bearer signed-alice", &uid, 1_000);
    assert_eq!(
        authenticate(&cache, Some("Bearer signed-alice"), None, 2_000),
        Ok(AuthContext("u-alice".to_string()))
    );
}

#[test]
fn memberships_demand_live_rows() {
    let mut db = db_with_alice();
    // A membership for an absent group, or an absent user, is refused by
    // the store's references, not recorded half-way.
    assert!(db
        .insert_membership("u-alice".to_string(), "nowhere".to_string(), UserRole::User)
        .is_err());
    create_group(&mut db, &"u-alice".to_string(), "g1".to_string(), "farm".to_string()).unwrap();
    assert!(db
        .insert_membership("u-ghost".to_string(), "g1".to_string(), UserRole::User)
        .is_err());
    assert!(!db.user_in_group(&"u-ghost".to_string(), &"g1".to_string(), None));
}


#[test]
fn curr_user_resolves_the_caller() {
    let db = db_with_alice();
    assert_eq!(curr_user(&db, &"u-alice".to_string()), Ok("alice".to_string()));
    assert!(matches!(
        curr_user(&db, &"u-ghost".to_string()),
        Err(AppError::DoesNotExist { .. })
    ));
}

#[test]
fn group_creation_makes_the_creator_admin() {
    let mut db = db_with_alice();
    let name = create_group(
        &mut db,
        &"u-alice".to_string(),
        "g1".to_string(),
        "andersons farm".to_string(),
    )
    .unwrap();
    assert_eq!(name, "andersons farm");
    assert!(db.user_in_group(&"u-alice".to_string(), &"g1".to_string(), Some(UserRole::Admin)));
    let groups = user_groups(&db, &"u-alice".to_string()).unwrap();
    assert_eq!(groups.len(), 1);
    assert_eq!(groups[0].name, "andersons farm");
}

#[test]
fn user_groups_rejects_a_vanished_account() {
    let db = db_with_alice();
    assert_eq!(
        user_groups(&db, &"u-ghost".to_string()).map(|g| g.len()),
        Err(AppError::InvalidToken)
    );
}

#[test]
fn group_deletion_is_admin_only_and_cascades() {
    let mut db = db_with_alice();
    create_user(&mut db, "u-bob".to_string(), "bob".to_string(), "hash-b".to_string()).unwrap();
    create_group(&mut db, &"u-alice".to_string(), "g1".to_string(), "farm".to_string()).unwrap();
    db.insert_membership("u-bob".to_string(), "g1".to_string(), UserRole::User)
        .unwrap();
    db.insert_message(
        "g1".to_string(),
        Some("u-alice".to_string()),
        "hello".to_string(),
        plainchat_server::models::MessageType::Normal,
        10,
    );
    // A plain member may not delete the group.
    assert_eq!(
        delete_group(&mut db, &"u-bob".to_string(), &"g1".to_string()),
        Err(AppError::ForbiddenAction)
    );
    // The admin may, and everything hanging off the group goes with it.
    let name = delete_group(&mut db, &"u-alice".to_string(), &"g1".to_string()).unwrap();
    assert_eq!(name, "farm");
    assert!(!db.user_in_group(&"u-bob".to_string(), &"g1".to_string(), None));
    assert!(db.history(&"g1".to_string()).is_empty());
    assert!(user_groups(&db, &"u-alice".to_string()).unwrap().is_empty());
}

#[test]
fn history_listing_is_members_only() {
    let mut db = db_with_alice();
    create_group(&mut db, &"u-alice".to_string(), "g1".to_string(), "farm".to_string()).unwrap();
    let mut cache = CacheStore::new();
    assert_eq!(
        list_messages(&db, &mut cache, &"u-ghost".to_string(), &"g1".to_string(), 100)
            .map(|m| m.len()),
        Err(AppError::ForbiddenAction)
    );
    db.insert_message(
        "g1".to_string(),
        Some("u-alice".to_string()),
        "hello".to_string(),
        plainchat_server::models::MessageType::Normal,
        10,
    );
    let msgs =
        list_messages(&db, &mut cache, &"u-alice".to_string(), &"g1".to_string(), 100).unwrap();
    assert_eq!(msgs.len(), 1);
    assert_eq!(msgs[0].content, "hello");
}

#[test]
fn member_listing_carries_roles_and_presence() {
    let mut db = db_with_alice();
    create_user(&mut db, "u-bob".to_string(), "bob".to_string(), "hash-b".to_string()).unwrap();
    create_group(&mut db, &"u-alice".to_string(), "g1".to_string(), "farm".to_string()).unwrap();
    db.insert_membership("u-bob".to_string(), "g1".to_string(), UserRole::User)
        .unwrap();
    let mut cache = CacheStore::new();
    plainchat_server::presence::set_online(&mut cache, "bob").unwrap();
    let members =
        list_members(&db, &cache, &"u-alice".to_string(), &"g1".to_string(), 100).unwrap();
    assert_eq!(members.len(), 2);
    assert_eq!(members[0].username, "alice");
    assert_eq!(members[0].role, UserRole::Admin);
    assert!(!members[0].presence);
    assert_eq!(members[1].username, "bob");
    assert_eq!(members[1].role, UserRole::User);
    assert!(members[1].presence);
    assert_eq!(
        list_members(&db, &cache, &"u-ghost".to_string(), &"g1".to_string(), 100)
            .map(|m| m.len()),
        Err(AppError::ForbiddenAction)
    );
}

#[test]
fn user_update_renames_within_uniqueness() {
    let mut db = db_with_alice();
    create_user(&mut db, "u-bob".to_string(), "bob".to_string(), "hash-b".to_string()).unwrap();
    // Taking bob's name is a uniqueness violation at the store layer.
    assert!(db
        .update_user(&"u-alice".to_string(), Some("bob".to_string()), None)
        .is_err());
    // A fresh name goes through; the hash alone may change too.
    assert_eq!(
        db.update_user(&"u-alice".to_string(), Some("alicia".to_string()), None),
        Ok("alicia".to_string())
    );
    assert_eq!(curr_user(&db, &"u-alice".to_string()), Ok("alicia".to_string()));
    assert_eq!(
        db.update_user(&"u-alice".to_string(), None, Some("hash-2".to_string())),
        Ok("alicia".to_string())
    );
    assert!(db
        .update_user(&"u-ghost".to_string(), None, None)
        .is_err());
}

#[test]
fn account_deletion_takes_memberships_but_not_messages() {
    let mut db = db_with_alice();
    create_group(&mut db, &"u-alice".to_string(), "g1".to_string(), "farm".to_string()).unwrap();
    db.insert_message(
        "g1".to_string(),
        Some("u-alice".to_string()),
        "kept".to_string(),
        plainchat_server::models::MessageType::Normal,
        10,
    );
    assert_eq!(delete_user(&mut db, &"u-alice".to_string()), Ok("alice".to_string()));
    assert!(!db.user_in_group(&"u-alice".to_string(), &"g1".to_string(), None));
    let history = db.history(&"g1".to_string());
    assert_eq!(history.len(), 1);
    // The sender's row is gone, so the message reads as unattributed.
    assert_eq!(history[0].sender, None);
    assert!(matches!(
        delete_user(&mut db, &"u-alice".to_string()),
        Err(AppError::Db(_))
    ));
}
