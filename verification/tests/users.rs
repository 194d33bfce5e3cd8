use fieldnotes::authentication::AuthenticatedUser;
use fieldnotes::error::AppError;
use fieldnotes::notes::{save_note, SaveNoteRequest};
use fieldnotes::shares::{create_share, CreateShareRequest};
use fieldnotes::store::Store;
use fieldnotes::users::{
    change_password, delete_user, get_user_id, get_user_info, invalidate_sessions, login, signup,
    store_salt, user_exists, user_exists_and_is_active, username_valid, PasswordChangeRequest,
    SignupCredentials, UserCredentials,
};

fn creds(name: &str, password: &str) -> UserCredentials {
    UserCredentials { name: String::from(name), password: String::from(password) }
}

fn signup_creds(name: &str, password: &str) -> SignupCredentials {
    SignupCredentials { name: String::from(name), password: String::from(password), email: None }
}

#[test]
fn signup_then_login_round_trip() {
    let mut store = Store::new();
    signup(&mut store, signup_creds("alice", "s3cret"), 10).unwrap();
    assert!(user_exists(&store, &String::from("alice")));
    assert!(user_exists_and_is_active(&store, &String::from("alice")));
    let token = login(&mut store, &creds("alice", "s3cret"), 20).unwrap();
    assert_eq!(token.len(), 128);
    assert_eq!(store.tokens.len(), 1);
    assert_eq!(store.tokens[0].user_id, get_user_id(&store, &String::from("alice")).unwrap());
}

#[test]
fn login_with_wrong_password_fails() {
    let mut store = Store::new();
    signup(&mut store, signup_creds("alice", "s3cret"), 10).unwrap();
    let r = login(&mut store, &creds("alice", "wrong"), 20);
    assert_eq!(r.unwrap_err(), AppError::Unauthorized);
    assert_eq!(store.tokens.len(), 0);
}

#[test]
fn login_of_unknown_user_fails() {
    let mut store = Store::new();
    let r = login(&mut store, &creds("nobody", "pw"), 20);
    assert_eq!(r.unwrap_err(), AppError::Unauthorized);
}

#[test]
fn duplicate_username_conflicts_case_insensitively() {
    let mut store = Store::new();
    signup(&mut store, signup_creds("Alice", "pw-one"), 10).unwrap();
    let r = signup(&mut store, signup_creds("alice", "pw-two"), 20);
    assert_eq!(r.unwrap_err(), AppError::Conflict);
    assert_eq!(store.users.len(), 1);
}

#[test]
fn duplicate_username_conflicts_across_unicode_case() {
    // "Ärger" and "ärger" differ only in a non-ASCII capital; the folded
    // existence check must still see the collision.
    let mut store = Store::new();
    signup(&mut store, signup_creds("\u{c4}rger", "pw-one"), 10).unwrap();
    let r = signup(&mut store, signup_creds("\u{e4}rger", "pw-two"), 20);
    assert_eq!(r.unwrap_err(), AppError::Conflict);
    assert_eq!(store.users.len(), 1);
}

#[test]
fn username_with_reserved_characters_is_rejected() {
    let mut store = Store::new();
    let r = signup(&mut store, signup_creds("al;ce", "pw"), 10);
    assert_eq!(r.unwrap_err(), AppError::InvalidUsername);
    assert_eq!(store.users.len(), 0);
    assert!(username_valid(&String::from("alice-99")));
    assert!(!username_valid(&String::from("a/b")));
    assert!(!username_valid(&String::from("x|y")));
    assert!(!username_valid(&String::from("q?")));
}

#[test]
fn changed_password_takes_effect() {
    let mut store = Store::new();
    signup(&mut store, signup_creds("alice", "old-pw"), 10).unwrap();
    let id = get_user_id(&store, &String::from("alice")).unwrap();
    let req = PasswordChangeRequest {
        name: String::from("alice"),
        password: String::from("old-pw"),
        password_new: String::from("new-pw"),
    };
    change_password(&mut store, id, &req).unwrap();
    assert_eq!(
        login(&mut store, &creds("alice", "old-pw"), 20).unwrap_err(),
        AppError::Unauthorized
    );
    assert!(login(&mut store, &creds("alice", "new-pw"), 30).is_ok());
}

#[test]
fn change_password_demands_current_password() {
    let mut store = Store::new();
    signup(&mut store, signup_creds("alice", "old-pw"), 10).unwrap();
    let id = get_user_id(&store, &String::from("alice")).unwrap();
    let req = PasswordChangeRequest {
        name: String::from("alice"),
        password: String::from("guess"),
        password_new: String::from("new-pw"),
    };
    assert_eq!(change_password(&mut store, id, &req).unwrap_err(), AppError::Unauthorized);
}

#[test]
fn salt_is_stored_once() {
    let mut store = Store::new();
    signup(&mut store, signup_creds("alice", "pw"), 10).unwrap();
    let id = get_user_id(&store, &String::from("alice")).unwrap();
    store_salt(&mut store, id, String::from("salt-1")).unwrap();
    let r = store_salt(&mut store, id, String::from("salt-2"));
    assert_eq!(r.unwrap_err(), AppError::Conflict);
    let info = get_user_info(&store, id).unwrap();
    assert_eq!(info.salt.as_deref(), Some("salt-1"));
    assert_eq!(info.username, "alice");
    assert_eq!(info.email, None);
}

#[test]
fn info_of_missing_user_is_internal_error() {
    let store = Store::new();
    assert_eq!(get_user_info(&store, 99).unwrap_err(), AppError::ViolatedAssertion);
}

#[test]
fn deleting_account_removes_data_and_keeps_audit_row() {
    let mut store = Store::new();
    signup(&mut store, signup_creds("alice", "pw"), 10).unwrap();
    let id = get_user_id(&store, &String::from("alice")).unwrap();
    login(&mut store, &creds("alice", "pw"), 20).unwrap();
    let note = save_note(
        &mut store,
        id,
        SaveNoteRequest {
            metadata: String::from("m"),
            key: String::from("k"),
            content: String::from("c"),
        },
        30,
    )
    .unwrap();
    create_share(
        &mut store,
        id,
        CreateShareRequest { note: note.id.clone(), public: None, expires_in: None },
        40,
    )
    .unwrap();

    let auth = AuthenticatedUser {
        user_id: id,
        auth_token: String::from("unused"),
        username: String::from("alice"),
    };
    delete_user(&mut store, &auth, &creds("alice", "pw"), 50).unwrap();

    assert_eq!(store.notes.len(), 0);
    assert_eq!(store.shares.len(), 0);
    assert_eq!(store.tokens.len(), 0);
    assert_eq!(store.users.len(), 1);
    assert_eq!(store.users[0].deleted_at, Some(50));
    assert!(!user_exists_and_is_active(&store, &String::from("alice")));
    assert!(user_exists(&store, &String::from("alice")));
    assert_eq!(
        login(&mut store, &creds("alice", "pw"), 60).unwrap_err(),
        AppError::Unauthorized
    );
}

#[test]
fn account_deletion_demands_matching_credentials() {
    let mut store = Store::new();
    signup(&mut store, signup_creds("alice", "pw"), 10).unwrap();
    let id = get_user_id(&store, &String::from("alice")).unwrap();
    let auth = AuthenticatedUser {
        user_id: id,
        auth_token: String::from("unused"),
        username: String::from("alice"),
    };
    let r = delete_user(&mut store, &auth, &creds("alice", "wrong"), 50);
    assert_eq!(r.unwrap_err(), AppError::Unauthorized);
    assert_eq!(store.users[0].deleted_at, None);
}

#[test]
fn invalidating_sessions_revokes_every_token() {
    let mut store = Store::new();
    signup(&mut store, signup_creds("alice", "pw"), 10).unwrap();
    let id = get_user_id(&store, &String::from("alice")).unwrap();
    login(&mut store, &creds("alice", "pw"), 20).unwrap();
    login(&mut store, &creds("alice", "pw"), 25).unwrap();
    assert_eq!(store.tokens.len(), 2);
    let auth = AuthenticatedUser {
        user_id: id,
        auth_token: String::from("unused"),
        username: String::from("alice"),
    };
    invalidate_sessions(&mut store, &auth, &creds("alice", "pw")).unwrap();
    assert_eq!(store.tokens.len(), 0);
}
