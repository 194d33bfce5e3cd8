use fieldnotes::error::AppError;
use fieldnotes::notes::{save_note, SaveNoteRequest};
use fieldnotes::shares::{
    access_share, create_share, delete_share, list_publications, list_shares, share_exists,
    CreateShareRequest,
};
use fieldnotes::store::{Store, UserRecord};

fn note_request(tag: &str) -> SaveNoteRequest {
    SaveNoteRequest {
        metadata: format!("meta-{}", tag),
        key: format!("key-{}", tag),
        content: format!("content-{}", tag),
    }
}

fn share_request(note: &str) -> CreateShareRequest {
    CreateShareRequest { note: String::from(note), public: None, expires_in: None }
}

fn user(id: i64, name: &str) -> UserRecord {
    UserRecord {
        id,
        username: String::from(name),
        password_hash: String::from("irrelevant"),
        email: None,
        salt: None,
        created_at: 0,
        deleted_at: None,
        events: Vec::new(),
    }
}

#[test]
fn created_share_carries_request_fields() {
    let mut store = Store::new();
    let note = save_note(&mut store, 1, note_request("a"), 100).unwrap();
    let req = CreateShareRequest {
        note: note.id.clone(),
        public: Some(String::from("headline")),
        expires_in: Some(2),
    };
    let share = create_share(&mut store, 1, req, 1000).unwrap();
    assert_eq!(share.token.len(), 32);
    assert_eq!(share.note, note.id);
    assert_eq!(share.created_at, 1000);
    assert_eq!(share.expires_at, Some(1000 + 2 * 3600));
    assert_eq!(share.public.as_deref(), Some("headline"));
    assert!(share_exists(&store, &note.id));
}

#[test]
fn second_share_for_same_note_conflicts() {
    let mut store = Store::new();
    let note = save_note(&mut store, 1, note_request("a"), 100).unwrap();
    create_share(&mut store, 1, share_request(&note.id), 150).unwrap();
    let r = create_share(&mut store, 1, share_request(&note.id), 160);
    assert_eq!(r.unwrap_err(), AppError::Conflict);
    assert_eq!(store.shares.len(), 1);
}

#[test]
fn share_of_foreign_or_missing_note_is_unauthorized() {
    let mut store = Store::new();
    let note = save_note(&mut store, 1, note_request("a"), 100).unwrap();
    let foreign = create_share(&mut store, 2, share_request(&note.id), 150);
    assert_eq!(foreign.unwrap_err(), AppError::Unauthorized);
    let missing = create_share(&mut store, 1, share_request("no-such-note"), 150);
    assert_eq!(missing.unwrap_err(), AppError::Unauthorized);
}

#[test]
fn access_returns_content_and_counts_views() {
    let mut store = Store::new();
    let note = save_note(&mut store, 1, note_request("a"), 100).unwrap();
    let share = create_share(&mut store, 1, share_request(&note.id), 150).unwrap();
    let got = access_share(&mut store, &share.token, 200).unwrap();
    assert_eq!(got.content, "content-a");
    assert_eq!(got.key, "key-a");
    assert_eq!(got.created_at, 100);
    let listed = list_shares(&store, 1);
    assert_eq!(listed.len(), 1);
    assert_eq!(listed[0].view_count, 1);
}

#[test]
fn each_access_counts_exactly_once() {
    let mut store = Store::new();
    let note = save_note(&mut store, 1, note_request("a"), 100).unwrap();
    let share = create_share(&mut store, 1, share_request(&note.id), 150).unwrap();
    let n = 5;
    for k in 0..n {
        access_share(&mut store, &share.token, 200 + k).unwrap();
    }
    let listed = list_shares(&store, 1);
    assert_eq!(listed[0].view_count, n as u64);
}

#[test]
fn expired_share_fails_and_does_not_count() {
    let mut store = Store::new();
    let note = save_note(&mut store, 1, note_request("a"), 100).unwrap();
    let req = CreateShareRequest { note: note.id.clone(), public: None, expires_in: Some(1) };
    let share = create_share(&mut store, 1, req, 1000).unwrap();
    // Just past expiry: rejected, and the counter stays untouched.
    let r = access_share(&mut store, &share.token, 1000 + 3601);
    assert_eq!(r.unwrap_err(), AppError::Unauthorized);
    assert_eq!(list_shares(&store, 1)[0].view_count, 0);
    // At the expiry instant itself the link still resolves.
    assert!(access_share(&mut store, &share.token, 1000 + 3600).is_ok());
}

#[test]
fn unknown_share_token_is_unauthorized() {
    let mut store = Store::new();
    assert_eq!(
        access_share(&mut store, &String::from("nope"), 10).unwrap_err(),
        AppError::Unauthorized
    );
}

#[test]
fn deleted_share_stops_resolving() {
    let mut store = Store::new();
    let note = save_note(&mut store, 1, note_request("a"), 100).unwrap();
    let share = create_share(&mut store, 1, share_request(&note.id), 150).unwrap();
    assert_eq!(
        delete_share(&mut store, 2, &share.token).unwrap_err(),
        AppError::Unauthorized
    );
    delete_share(&mut store, 1, &share.token).unwrap();
    assert_eq!(store.shares.len(), 0);
    assert_eq!(
        access_share(&mut store, &share.token, 200).unwrap_err(),
        AppError::Unauthorized
    );
}

#[test]
fn publications_list_public_shares_of_user() {
    let mut store = Store::new();
    store.users.push(user(1, "alice"));
    store.next_user_id = 2;
    let note = save_note(&mut store, 1, note_request("a"), 100).unwrap();
    let hidden = save_note(&mut store, 1, note_request("b"), 110).unwrap();
    let req = CreateShareRequest {
        note: note.id.clone(),
        public: Some(String::from("headline")),
        expires_in: None,
    };
    create_share(&mut store, 1, req, 150).unwrap();
    create_share(&mut store, 1, share_request(&hidden.id), 160).unwrap();

    let pubs = list_publications(&store, &String::from("alice")).unwrap();
    assert_eq!(pubs.len(), 1);
    assert_eq!(pubs[0].metadata, "meta-a");
    assert_eq!(pubs[0].public, "headline");
    assert_eq!(pubs[0].key, "key-a");
}

#[test]
fn publications_of_unknown_or_quiet_user_are_not_found() {
    let mut store = Store::new();
    store.users.push(user(1, "alice"));
    store.next_user_id = 2;
    assert_eq!(
        list_publications(&store, &String::from("bob")).unwrap_err(),
        AppError::NotFound
    );
    assert_eq!(
        list_publications(&store, &String::from("alice")).unwrap_err(),
        AppError::NotFound
    );
}
