use fieldnotes::authentication::{is_authorized_with_user, TOKEN_EXPIRATION_SECONDS};
use fieldnotes::error::AppError;
use fieldnotes::notes::{get_note, save_note, undelete_note, SaveNoteRequest};
use fieldnotes::store::{Store, TokenRecord, UserRecord};
use fieldnotes::sweep::{delete_expired_notes, delete_expired_tokens, NOTE_RETENTION_SECONDS};

fn user(id: i64, name: &str) -> UserRecord {
    UserRecord {
        id,
        username: String::from(name),
        password_hash: String::from("irrelevant"),
        email: None,
        salt: None,
        created_at: 0,
        deleted_at: None,
        events: Vec::new(),
    }
}

fn note_request(tag: &str) -> SaveNoteRequest {
    SaveNoteRequest {
        metadata: format!("meta-{}", tag),
        key: format!("key-{}", tag),
        content: format!("content-{}", tag),
    }
}

#[test]
fn token_one_second_past_window_is_swept() {
    let mut store = Store::new();
    store.users.push(user(1, "alice"));
    store.next_user_id = 2;
    let now = TOKEN_EXPIRATION_SECONDS + 1;
    store.tokens.push(TokenRecord { token: String::from("old"), user_id: 1, created_at: 0 });
    let removed = delete_expired_tokens(&mut store, now);
    assert_eq!(removed, 1);
    assert_eq!(store.tokens.len(), 0);
    assert_eq!(
        is_authorized_with_user(&mut store, &String::from("old"), now).unwrap_err(),
        AppError::Unauthorized
    );
}

#[test]
fn token_exactly_at_window_boundary_survives() {
    let mut store = Store::new();
    store.users.push(user(1, "alice"));
    store.next_user_id = 2;
    let now = TOKEN_EXPIRATION_SECONDS;
    store.tokens.push(TokenRecord { token: String::from("edge"), user_id: 1, created_at: 0 });
    let removed = delete_expired_tokens(&mut store, now);
    assert_eq!(removed, 0);
    assert_eq!(store.tokens.len(), 1);
    assert!(is_authorized_with_user(&mut store, &String::from("edge"), now).is_ok());
}

#[test]
fn sweep_keeps_fresh_tokens_only() {
    let mut store = Store::new();
    store.users.push(user(1, "alice"));
    store.next_user_id = 2;
    let now = TOKEN_EXPIRATION_SECONDS + 500;
    store.tokens.push(TokenRecord { token: String::from("stale"), user_id: 1, created_at: 400 });
    store.tokens.push(TokenRecord { token: String::from("fresh"), user_id: 1, created_at: 600 });
    let removed = delete_expired_tokens(&mut store, now);
    assert_eq!(removed, 1);
    assert_eq!(store.tokens.len(), 1);
    assert_eq!(store.tokens[0].token, "fresh");
}

#[test]
fn purge_removes_notes_past_retention() {
    let mut store = Store::new();
    let a = save_note(&mut store, 1, note_request("a"), 0).unwrap();
    fieldnotes::notes::delete_note(&mut store, 1, &a.id, 0).unwrap();
    let now = NOTE_RETENTION_SECONDS + 1;
    let removed = delete_expired_notes(&mut store, now);
    assert_eq!(removed, 1);
    assert_eq!(store.notes.len(), 0);
    assert_eq!(undelete_note(&mut store, 1, &a.id).unwrap_err(), AppError::Unauthorized);
}

#[test]
fn purge_spares_note_at_retention_boundary() {
    let mut store = Store::new();
    let a = save_note(&mut store, 1, note_request("a"), 0).unwrap();
    fieldnotes::notes::delete_note(&mut store, 1, &a.id, 0).unwrap();
    let now = NOTE_RETENTION_SECONDS;
    let removed = delete_expired_notes(&mut store, now);
    assert_eq!(removed, 0);
    assert_eq!(store.notes.len(), 1);
    assert!(undelete_note(&mut store, 1, &a.id).is_ok());
}

#[test]
fn purge_never_touches_active_notes() {
    let mut store = Store::new();
    let a = save_note(&mut store, 1, note_request("a"), 0).unwrap();
    let removed = delete_expired_notes(&mut store, NOTE_RETENTION_SECONDS * 10);
    assert_eq!(removed, 0);
    assert!(get_note(&store, 1, &a.id).is_ok());
}

#[test]
fn sweeps_are_idempotent() {
    let mut store = Store::new();
    store.users.push(user(1, "alice"));
    store.next_user_id = 2;
    let now = TOKEN_EXPIRATION_SECONDS + 10;
    store.tokens.push(TokenRecord { token: String::from("old"), user_id: 1, created_at: 0 });
    assert_eq!(delete_expired_tokens(&mut store, now), 1);
    assert_eq!(delete_expired_tokens(&mut store, now), 0);
    assert_eq!(delete_expired_notes(&mut store, now), 0);
    assert_eq!(delete_expired_notes(&mut store, now), 0);
}
