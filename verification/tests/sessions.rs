use fieldnotes::authentication::{
    authenticated_funded_user, delete_all_auth_tokens, delete_auth_token, is_authorized_with_user,
    store_auth_token, TOKEN_EXPIRATION_SECONDS,
};
use fieldnotes::error::AppError;
use fieldnotes::ledger::{LedgerConfig, DEFAULT_BALANCE, HOURLY_BALANCE_COST};
use fieldnotes::users::compute_balance_for_user;
use fieldnotes::notes::{delete_note, get_note, save_note, SaveNoteRequest};
use fieldnotes::store::{Store, TokenRecord, UsageEvent, UserRecord};

const HOUR: i64 = 3600;

fn user(id: i64, name: &str, events: Vec<UsageEvent>) -> UserRecord {
    UserRecord {
        id,
        username: String::from(name),
        password_hash: String::from("irrelevant"),
        email: None,
        salt: None,
        created_at: 0,
        deleted_at: None,
        events,
    }
}

fn store_with_token(created_at: i64) -> Store {
    let mut store = Store::new();
    store.users.push(user(1, "alice", Vec::new()));
    store.next_user_id = 2;
    store.tokens.push(TokenRecord {
        token: String::from("tok-alice"),
        user_id: 1,
        created_at,
    });
    store
}

#[test]
fn valid_token_resolves_owner() {
    let mut store = store_with_token(100);
    let auth = is_authorized_with_user(&mut store, &String::from("tok-alice"), 200).unwrap();
    assert_eq!(auth.user_id, 1);
    assert_eq!(auth.username, "alice");
    assert_eq!(auth.auth_token, "tok-alice");
    assert_eq!(store.tokens.len(), 1);
}

#[test]
fn unknown_token_is_unauthorized() {
    let mut store = store_with_token(100);
    let r = is_authorized_with_user(&mut store, &String::from("tok-mallory"), 200);
    assert_eq!(r.unwrap_err(), AppError::Unauthorized);
    assert_eq!(store.tokens.len(), 1);
}

#[test]
fn expired_token_is_rejected_and_deleted() {
    let mut store = store_with_token(0);
    let now = TOKEN_EXPIRATION_SECONDS + 1;
    let r = is_authorized_with_user(&mut store, &String::from("tok-alice"), now);
    assert_eq!(r.unwrap_err(), AppError::Unauthorized);
    assert_eq!(store.tokens.len(), 0);
}

#[test]
fn expired_token_without_owner_row_is_still_deleted() {
    // Unreachable through the API (deleting an account removes its tokens),
    // but the lazy expiry must not depend on the owner row being there.
    let mut store = Store::new();
    store.tokens.push(TokenRecord { token: String::from("orphan"), user_id: 9, created_at: 0 });
    let now = TOKEN_EXPIRATION_SECONDS + 1;
    let r = is_authorized_with_user(&mut store, &String::from("orphan"), now);
    assert_eq!(r.unwrap_err(), AppError::Unauthorized);
    assert_eq!(store.tokens.len(), 0);
}

#[test]
fn case_folded_existence_check_spans_unicode() {
    // The stored name uses a non-ASCII capital; the existence check folds
    // through the full Unicode mapping, so the lowercase query matches.
    let mut store = Store::new();
    store.users.push(user(1, "\u{c9}MILE", Vec::new()));
    store.next_user_id = 2;
    assert!(fieldnotes::users::user_exists(&store, &String::from("\u{e9}mile")));
    assert!(!fieldnotes::users::user_exists(&store, &String::from("emile")));
}

#[test]
fn token_at_expiry_boundary_is_still_valid() {
    let mut store = store_with_token(0);
    let now = TOKEN_EXPIRATION_SECONDS;
    let auth = is_authorized_with_user(&mut store, &String::from("tok-alice"), now).unwrap();
    assert_eq!(auth.user_id, 1);
    assert_eq!(store.tokens.len(), 1);
}

#[test]
fn storing_token_for_missing_user_fails() {
    let mut store = Store::new();
    let r = store_auth_token(&mut store, &String::from("ghost"), &String::from("t1"), 0);
    assert_eq!(r.unwrap_err(), AppError::ViolatedAssertion);
    assert_eq!(store.tokens.len(), 0);
}

#[test]
fn stored_token_authorizes_its_user() {
    let mut store = Store::new();
    store.users.push(user(7, "bob", Vec::new()));
    store.next_user_id = 8;
    store_auth_token(&mut store, &String::from("bob"), &String::from("tok-bob"), 50).unwrap();
    let auth = is_authorized_with_user(&mut store, &String::from("tok-bob"), 60).unwrap();
    assert_eq!(auth.user_id, 7);
    assert_eq!(auth.username, "bob");
}

#[test]
fn revoking_a_token_is_idempotent() {
    let mut store = store_with_token(100);
    delete_auth_token(&mut store, &String::from("tok-alice")).unwrap();
    assert_eq!(store.tokens.len(), 0);
    delete_auth_token(&mut store, &String::from("tok-alice")).unwrap();
    assert_eq!(store.tokens.len(), 0);
    let r = is_authorized_with_user(&mut store, &String::from("tok-alice"), 200);
    assert_eq!(r.unwrap_err(), AppError::Unauthorized);
}

#[test]
fn revoke_all_removes_only_that_users_tokens() {
    let mut store = Store::new();
    store.users.push(user(1, "alice", Vec::new()));
    store.users.push(user(2, "bob", Vec::new()));
    store.next_user_id = 3;
    store.tokens.push(TokenRecord { token: String::from("a1"), user_id: 1, created_at: 0 });
    store.tokens.push(TokenRecord { token: String::from("a2"), user_id: 1, created_at: 5 });
    store.tokens.push(TokenRecord { token: String::from("b1"), user_id: 2, created_at: 9 });
    let removed = delete_all_auth_tokens(&mut store, 1);
    assert_eq!(removed, 2);
    assert_eq!(store.tokens.len(), 1);
    assert_eq!(store.tokens[0].token, "b1");
}

#[test]
fn funded_user_passes_the_funding_guard() {
    let mut store = store_with_token(100);
    let cfg = LedgerConfig::default();
    let u = authenticated_funded_user(&mut store, &String::from("tok-alice"), 200, &cfg).unwrap();
    assert_eq!(u.user_id, 1);
    assert_eq!(u.username, "alice");
}

#[test]
fn underfunded_user_is_stopped_by_the_guard() {
    let mut store = Store::new();
    // An open session running for 2000 hours exhausts the default balance
    // (2000 * 1370 > 1_000_000 + 500_000).
    store.users.push(user(
        1,
        "alice",
        vec![UsageEvent::SessionStart { at: 0 }],
    ));
    store.next_user_id = 2;
    store.tokens.push(TokenRecord {
        token: String::from("tok-alice"),
        user_id: 1,
        created_at: 2000 * HOUR,
    });
    let cfg = LedgerConfig::default();
    let r = authenticated_funded_user(&mut store, &String::from("tok-alice"), 2000 * HOUR, &cfg);
    assert_eq!(r.unwrap_err(), AppError::Underfunded);
}

#[test]
fn underfunded_user_can_still_read_and_delete() {
    let mut store = Store::new();
    store.users.push(user(1, "alice", Vec::new()));
    store.next_user_id = 2;
    let note = save_note(
        &mut store,
        1,
        SaveNoteRequest {
            metadata: String::from("m"),
            key: String::from("k"),
            content: String::from("c"),
        },
        0,
    )
    .unwrap();
    // Exhaust the balance with a long-running open session.
    store.users[0].events.push(UsageEvent::SessionStart { at: 0 });
    store.tokens.push(TokenRecord {
        token: String::from("tok-alice"),
        user_id: 1,
        created_at: 2000 * HOUR,
    });
    let cfg = LedgerConfig::default();
    let now = 2000 * HOUR;
    assert_eq!(
        authenticated_funded_user(&mut store, &String::from("tok-alice"), now, &cfg).unwrap_err(),
        AppError::Underfunded
    );
    // Reads and deletes are not metered: a locked-out user can always
    // retrieve or remove their data.
    assert!(get_note(&store, 1, &note.id).is_ok());
    assert!(delete_note(&mut store, 1, &note.id, now).is_ok());
}

#[test]
fn guard_rejects_bad_token_before_funding() {
    let mut store = store_with_token(100);
    let cfg = LedgerConfig::default();
    let r = authenticated_funded_user(&mut store, &String::from("nope"), 200, &cfg);
    assert_eq!(r.unwrap_err(), AppError::Unauthorized);
}

#[test]
fn user_balance_reconstructs_from_log() {
    let mut store = Store::new();
    store.users.push(user(
        1,
        "alice",
        vec![
            UsageEvent::FundsAdded { at: 10, amount: 100_000 },
            UsageEvent::SessionStart { at: 20 },
            UsageEvent::SessionPause { at: 20 + HOUR },
        ],
    ));
    store.next_user_id = 2;
    let cfg = LedgerConfig::default();
    let info = compute_balance_for_user(&store, 1, 2 * HOUR, &cfg).unwrap();
    assert_eq!(info.balance, DEFAULT_BALANCE + 100_000 - HOURLY_BALANCE_COST);
    assert!(info.is_funded);
    assert_eq!(
        compute_balance_for_user(&store, 9, 2 * HOUR, &cfg).unwrap_err(),
        AppError::ViolatedAssertion
    );
}

#[test]
fn error_kinds_map_to_status_codes() {
    assert_eq!(AppError::Unauthorized.status_code(), 401);
    assert_eq!(AppError::Underfunded.status_code(), 402);
    assert_eq!(AppError::Conflict.status_code(), 409);
    assert_eq!(AppError::NotFound.status_code(), 404);
    assert_eq!(AppError::InvalidUsername.status_code(), 422);
    assert_eq!(AppError::ViolatedAssertion.status_code(), 500);
}
