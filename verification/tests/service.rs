use std::collections::HashSet;

use migchat::account::{create_account, update_username};
use migchat::auth::{
    auth_gate, create_session, generate_token, get_user_id_from_token, hash_password,
    insert_session, parse_bearer_header, verify_credentials, verify_password,
};
use migchat::errors::ApiError;
use migchat::health_check;
use migchat::keys::{claim_prekey, get_keys, upload_keys};
use migchat::messages::{
    get_conversations, get_filtered_messages, get_messages, mark_messages_read, send_message,
};
use migchat::models::{
    CreateAccountRequest, KeyBundle, SendMessageRequest, UpdateUsernameRequest, UploadKeysRequest,
};
use migchat::store::Store;

fn register(store: &mut Store, name: &str, password: &str, now: i64) -> (i64, String) {
    let resp = create_account(
        store,
        CreateAccountRequest { username: name.to_string(), password: password.to_string() },
        now,
    )
    .expect("registration should succeed");
    (resp.user_id, resp.token)
}

fn publish(store: &mut Store, user_id: i64, prekeys: &[&str], now: i64) {
    let resp = upload_keys(
        store,
        user_id,
        UploadKeysRequest {
            key_bundle: KeyBundle {
                identity_key: format!("idk-{}", user_id),
                signed_prekey: format!("spk-{}", user_id),
                signed_prekey_signature: format!("sig-{}", user_id),
                one_time_prekeys: prekeys.iter().map(|s| s.to_string()).collect(),
            },
        },
        now,
    );
    assert!(resp.success);
}

#[test]
fn health_check_reports_ok() {
    assert_eq!(health_check(), "OK");
}

#[test]
fn registration_token_resolves_to_new_user() {
    let mut store = Store::new();
    let (uid, token) = register(&mut store, "alice", "hunter2", 100);
    assert_eq!(uid, 1);
    assert_eq!(get_user_id_from_token(&store, &token), Ok(uid));
}

#[test]
fn generated_tokens_are_long_alphanumeric_and_distinct() {
    let mut seen: HashSet<String> = HashSet::new();
    for _ in 0..10_000 {
        let t = generate_token();
        assert_eq!(t.len(), 32);
        assert!(t.chars().all(|c| c.is_ascii_alphanumeric()));
        assert!(seen.insert(t), "token generator produced a duplicate");
    }
}

#[test]
fn session_insert_rejects_token_collision() {
    let mut store = Store::new();
    let (uid, _) = register(&mut store, "alice", "pw", 0);
    assert!(insert_session(&mut store, uid, "fixed-token".to_string(), 1).is_ok());
    assert_eq!(
        insert_session(&mut store, uid, "fixed-token".to_string(), 2),
        Err(ApiError::Internal)
    );
    assert!(create_session(&mut store, uid, 3).is_ok());
}

#[test]
fn auth_gate_rejects_missing_and_malformed_headers() {
    let mut store = Store::new();
    let (_uid, token) = register(&mut store, "alice", "pw", 0);
    assert_eq!(auth_gate(&store, None), Err(ApiError::Unauthenticated));
    assert_eq!(auth_gate(&store, Some(&token)), Err(ApiError::Unauthenticated));
    assert_eq!(auth_gate(&store, Some("Basic xyz")), Err(ApiError::Unauthenticated));
    assert_eq!(auth_gate(&store, Some("Bear")), Err(ApiError::Unauthenticated));
}

#[test]
fn auth_gate_rejects_unknown_token_and_accepts_valid_one() {
    let mut store = Store::new();
    let (uid, token) = register(&mut store, "alice", "pw", 0);
    let bogus = format!("Bearer {}", "x".repeat(32));
    assert_eq!(auth_gate(&store, Some(&bogus)), Err(ApiError::Unauthenticated));
    let header = format!("Bearer {}", token);
    assert_eq!(auth_gate(&store, Some(&header)), Ok(uid));
}

#[test]
fn bearer_parsing_splits_prefix_exactly() {
    assert_eq!(parse_bearer_header("Bearer abc"), Some("abc"));
    assert_eq!(parse_bearer_header("Bearer "), Some(""));
    assert_eq!(parse_bearer_header("bearer abc"), None);
    assert_eq!(parse_bearer_header(""), None);
}

#[test]
fn password_hashing_round_trip() {
    let hash = hash_password("s3cret").expect("hashing should succeed");
    assert!(verify_password("s3cret", &hash).unwrap());
    assert!(!verify_password("wrong", &hash).unwrap());
}

#[test]
fn credential_check_distinguishes_failures() {
    let mut store = Store::new();
    let (uid, _) = register(&mut store, "alice", "pw-one", 0);
    assert_eq!(verify_credentials(&store, "alice", "pw-one"), Ok(uid));
    assert_eq!(verify_credentials(&store, "alice", "pw-two"), Err(ApiError::InvalidPassword));
    assert_eq!(verify_credentials(&store, "nobody", "pw"), Err(ApiError::UserNotFound));
}

#[test]
fn registration_validates_input_and_uniqueness() {
    let mut store = Store::new();
    let empty_name = create_account(
        &mut store,
        CreateAccountRequest { username: String::new(), password: "pw".to_string() },
        0,
    );
    assert_eq!(empty_name.unwrap_err(), ApiError::EmptyUsername);
    let empty_pw = create_account(
        &mut store,
        CreateAccountRequest { username: "alice".to_string(), password: String::new() },
        0,
    );
    assert_eq!(empty_pw.unwrap_err(), ApiError::EmptyPassword);
    register(&mut store, "alice", "pw", 0);
    let dup = create_account(
        &mut store,
        CreateAccountRequest { username: "alice".to_string(), password: "pw2".to_string() },
        1,
    );
    assert_eq!(dup.unwrap_err(), ApiError::UsernameTaken);
}

#[test]
fn username_change_enforces_uniqueness_but_allows_own_name() {
    let mut store = Store::new();
    let (alice, _) = register(&mut store, "alice", "pw", 0);
    register(&mut store, "bob", "pw", 1);
    let taken = update_username(
        &mut store,
        alice,
        UpdateUsernameRequest { new_username: "bob".to_string() },
        2,
    );
    assert_eq!(taken.unwrap_err(), ApiError::UsernameTaken);
    let own = update_username(
        &mut store,
        alice,
        UpdateUsernameRequest { new_username: "alice".to_string() },
        3,
    );
    assert_eq!(own.unwrap().username, "alice");
    let fresh = update_username(
        &mut store,
        alice,
        UpdateUsernameRequest { new_username: "alicia".to_string() },
        4,
    )
    .unwrap();
    assert_eq!(fresh.username, "alicia");
    assert_eq!(fresh.updated_at, 4);
    assert_eq!(store.users[0].username, "alicia");
    let empty = update_username(
        &mut store,
        alice,
        UpdateUsernameRequest { new_username: String::new() },
        5,
    );
    assert_eq!(empty.unwrap_err(), ApiError::EmptyUsername);
}

#[test]
fn publish_replaces_bundle_and_resets_prekeys() {
    let mut store = Store::new();
    let (alice, _) = register(&mut store, "alice", "pw", 0);
    publish(&mut store, alice, &["a0", "a1", "a2"], 10);
    assert_eq!(store.user_keys.len(), 1);
    assert_eq!(store.prekeys.len(), 3);
    publish(&mut store, alice, &["b0", "b1"], 20);
    assert_eq!(store.user_keys.len(), 1, "republish must not add a bundle row");
    let mine: Vec<_> = store.prekeys.iter().filter(|p| p.user_id == alice).collect();
    assert_eq!(mine.len(), 2, "exactly the latest batch must remain");
    assert_eq!(mine[0].key_id, 0);
    assert_eq!(mine[1].key_id, 1);
    assert_eq!(mine[0].public_key, "b0");
    assert_eq!(mine[1].public_key, "b1");
    assert!(mine.iter().all(|p| !p.used));
    assert!(store.prekeys.iter().all(|p| !p.public_key.starts_with('a')));
}

#[test]
fn claim_is_granted_exactly_once() {
    let mut store = Store::new();
    let (alice, _) = register(&mut store, "alice", "pw", 0);
    publish(&mut store, alice, &["only"], 1);
    let id = store.prekeys[0].id;
    assert!(claim_prekey(&mut store, id), "first claim must win");
    assert!(!claim_prekey(&mut store, id), "second claim must lose");
    assert_eq!(store.prekeys.iter().filter(|p| p.used).count(), 1);
    assert!(!claim_prekey(&mut store, id + 1), "unknown row never wins");
}

#[test]
fn serving_with_one_prekey_leaves_none_for_the_next_caller() {
    let mut store = Store::new();
    register(&mut store, "alice", "pw", 0);
    let (bob, _) = register(&mut store, "bob", "pw", 1);
    let (carol, _) = register(&mut store, "carol", "pw", 2);
    publish(&mut store, 1, &["only"], 3);
    let first = get_keys(&mut store, bob, "alice").unwrap();
    assert_eq!(first.key_bundle.one_time_prekeys, vec!["only".to_string()]);
    let second = get_keys(&mut store, carol, "alice").unwrap();
    assert!(second.key_bundle.one_time_prekeys.is_empty());
}

#[test]
fn empty_pool_is_served_without_error() {
    let mut store = Store::new();
    let (alice, _) = register(&mut store, "alice", "pw", 0);
    let (bob, _) = register(&mut store, "bob", "pw", 1);
    publish(&mut store, alice, &[], 2);
    let resp = get_keys(&mut store, bob, "alice").unwrap();
    assert_eq!(resp.key_bundle.identity_key, "idk-1");
    assert_eq!(resp.key_bundle.signed_prekey, "spk-1");
    assert_eq!(resp.key_bundle.signed_prekey_signature, "sig-1");
    assert!(resp.key_bundle.one_time_prekeys.is_empty());
}

#[test]
fn serving_keys_distinguishes_missing_user_and_missing_bundle() {
    let mut store = Store::new();
    let (alice, _) = register(&mut store, "alice", "pw", 0);
    assert_eq!(get_keys(&mut store, alice, "nobody").unwrap_err(), ApiError::UserNotFound);
    assert_eq!(get_keys(&mut store, alice, "alice").unwrap_err(), ApiError::KeysNotFound);
}

#[test]
fn full_key_exchange_scenario() {
    let mut store = Store::new();
    let (alice, _) = register(&mut store, "alice", "pw", 0);
    let (bob, _) = register(&mut store, "bob", "pw", 1);
    let (carol, _) = register(&mut store, "carol", "pw", 2);
    publish(&mut store, alice, &["pk0", "pk1"], 3);

    // Bob claims: both prekeys listed, key_id 0 now used.
    let bob_view = get_keys(&mut store, bob, "alice").unwrap();
    assert_eq!(
        bob_view.key_bundle.one_time_prekeys,
        vec!["pk0".to_string(), "pk1".to_string()]
    );
    let used_ids: Vec<i64> =
        store.prekeys.iter().filter(|p| p.used).map(|p| p.key_id).collect();
    assert_eq!(used_ids, vec![0]);

    // Carol claims: only key_id 1 remains, and it is consumed.
    let carol_view = get_keys(&mut store, carol, "alice").unwrap();
    assert_eq!(carol_view.key_bundle.one_time_prekeys, vec!["pk1".to_string()]);
    let used_ids: Vec<i64> =
        store.prekeys.iter().filter(|p| p.used).map(|p| p.key_id).collect();
    assert_eq!(used_ids, vec![0, 1]);

    // A third claim finds an empty pool but still gets the bundle.
    let third = get_keys(&mut store, bob, "alice").unwrap();
    assert!(third.key_bundle.one_time_prekeys.is_empty());
    assert_eq!(third.key_bundle.identity_key, "idk-1");
}

#[test]
fn messages_are_validated_sent_and_listed_newest_first() {
    let mut store = Store::new();
    let (alice, _) = register(&mut store, "alice", "pw", 0);
    let (bob, _) = register(&mut store, "bob", "pw", 1);

    let empty = send_message(
        &mut store,
        alice,
        SendMessageRequest { to_username: "bob".to_string(), content: String::new() },
        10,
    );
    assert_eq!(empty.unwrap_err(), ApiError::EmptyContent);
    let missing = send_message(
        &mut store,
        alice,
        SendMessageRequest { to_username: "nobody".to_string(), content: "hi".to_string() },
        10,
    );
    assert_eq!(missing.unwrap_err(), ApiError::RecipientNotFound);

    let first = send_message(
        &mut store,
        alice,
        SendMessageRequest { to_username: "bob".to_string(), content: "hi bob".to_string() },
        10,
    )
    .unwrap();
    assert_eq!(first.message_id, 1);
    assert_eq!(first.created_at, 10);
    send_message(
        &mut store,
        bob,
        SendMessageRequest { to_username: "alice".to_string(), content: "hi alice".to_string() },
        11,
    )
    .unwrap();

    let listed = get_messages(&store, alice);
    assert_eq!(listed.len(), 2);
    assert_eq!(listed[0].content, "hi alice");
    assert_eq!(listed[0].from_username, "bob");
    assert_eq!(listed[0].to_username, "alice");
    assert_eq!(listed[1].content, "hi bob");
    assert_eq!(listed[1].created_at, 10);
}

#[test]
fn filtered_listing_restricts_to_one_counterpart() {
    let mut store = Store::new();
    let (alice, _) = register(&mut store, "alice", "pw", 0);
    let (bob, _) = register(&mut store, "bob", "pw", 1);
    register(&mut store, "carol", "pw", 2);
    for (to, text, at) in
        [("bob", "a->b", 10), ("carol", "a->c", 11)]
    {
        send_message(
            &mut store,
            alice,
            SendMessageRequest { to_username: to.to_string(), content: text.to_string() },
            at,
        )
        .unwrap();
    }
    send_message(
        &mut store,
        bob,
        SendMessageRequest { to_username: "alice".to_string(), content: "b->a".to_string() },
        12,
    )
    .unwrap();

    let with_bob = get_filtered_messages(&store, alice, Some("bob")).unwrap();
    assert_eq!(with_bob.len(), 2);
    assert_eq!(with_bob[0].content, "b->a");
    assert_eq!(with_bob[1].content, "a->b");
    let all = get_filtered_messages(&store, alice, None).unwrap();
    assert_eq!(all.len(), 3);
    let unknown = get_filtered_messages(&store, alice, Some("nobody"));
    assert_eq!(unknown.unwrap_err(), ApiError::UserNotFound);
}

#[test]
fn marking_read_counts_only_unread_mail_from_that_user() {
    let mut store = Store::new();
    let (alice, _) = register(&mut store, "alice", "pw", 0);
    let (bob, _) = register(&mut store, "bob", "pw", 1);
    for at in [10, 11] {
        send_message(
            &mut store,
            bob,
            SendMessageRequest { to_username: "alice".to_string(), content: "ping".to_string() },
            at,
        )
        .unwrap();
    }
    send_message(
        &mut store,
        alice,
        SendMessageRequest { to_username: "bob".to_string(), content: "pong".to_string() },
        12,
    )
    .unwrap();

    assert_eq!(mark_messages_read(&mut store, alice, None, 20), Err(ApiError::MissingWithUser));
    assert_eq!(
        mark_messages_read(&mut store, alice, Some("nobody"), 20),
        Err(ApiError::UserNotFound)
    );
    assert_eq!(mark_messages_read(&mut store, alice, Some("bob"), 20), Ok(2));
    assert_eq!(mark_messages_read(&mut store, alice, Some("bob"), 21), Ok(0));
    assert_eq!(store.messages[0].read_at, Some(20));
    assert_eq!(store.messages[1].read_at, Some(20));
    assert_eq!(store.messages[2].read_at, None, "own outgoing mail stays untouched");
}

#[test]
fn error_variants_carry_the_expected_status_and_message() {
    assert_eq!(ApiError::EmptyUsername.status_code(), 400);
    assert_eq!(ApiError::EmptyUsername.message(), "Username cannot be empty");
    assert_eq!(ApiError::UsernameTaken.status_code(), 409);
    assert_eq!(ApiError::UsernameTaken.message(), "Username already exists");
    assert_eq!(ApiError::UserNotFound.status_code(), 404);
    assert_eq!(ApiError::KeysNotFound.message(), "Keys not found for this user");
    assert_eq!(ApiError::Unauthenticated.status_code(), 401);
    assert_eq!(ApiError::Internal.status_code(), 500);
    assert_eq!(ApiError::EmptyContent.message(), "Message content cannot be empty");
    assert_eq!(ApiError::MissingWithUser.message(), "with_user parameter is required");
}

#[test]
fn conversations_group_by_counterpart_newest_first() {
    let mut store = Store::new();
    let (alice, _) = register(&mut store, "alice", "pw", 0);
    let (bob, _) = register(&mut store, "bob", "pw", 1);
    let (carol, _) = register(&mut store, "carol", "pw", 2);
    send_message(
        &mut store,
        alice,
        SendMessageRequest { to_username: "bob".to_string(), content: "to bob".to_string() },
        10,
    )
    .unwrap();
    send_message(
        &mut store,
        carol,
        SendMessageRequest { to_username: "alice".to_string(), content: "one".to_string() },
        11,
    )
    .unwrap();
    send_message(
        &mut store,
        carol,
        SendMessageRequest { to_username: "alice".to_string(), content: "two".to_string() },
        12,
    )
    .unwrap();
    send_message(
        &mut store,
        bob,
        SendMessageRequest { to_username: "alice".to_string(), content: "reply".to_string() },
        13,
    )
    .unwrap();

    let convos = get_conversations(&store, alice);
    assert_eq!(convos.len(), 2);
    assert_eq!(convos[0].username, "bob");
    assert_eq!(convos[0].last_message, "reply");
    assert_eq!(convos[0].last_message_time, 13);
    assert_eq!(convos[0].unread_count, 1);
    assert_eq!(convos[1].username, "carol");
    assert_eq!(convos[1].last_message, "two");
    assert_eq!(convos[1].unread_count, 2);

    mark_messages_read(&mut store, alice, Some("carol"), 20).unwrap();
    let convos = get_conversations(&store, alice);
    assert_eq!(convos[1].unread_count, 0);
}
