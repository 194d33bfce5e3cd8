use fieldnotes::error::AppError;
use fieldnotes::notes::{
    delete_note, get_note, list_deleted_notes, list_notes, save_note, undelete_note, update_note,
    SaveNoteRequest, UpdateNoteRequest,
};
use fieldnotes::shares::{access_share, create_share, CreateShareRequest};
use fieldnotes::store::Store;

fn request(tag: &str) -> SaveNoteRequest {
    SaveNoteRequest {
        metadata: format!("meta-{}", tag),
        key: format!("key-{}", tag),
        content: format!("content-{}", tag),
    }
}

#[test]
fn saved_note_fetches_identically() {
    let mut store = Store::new();
    let resp = save_note(&mut store, 1, request("a"), 100).unwrap();
    assert_eq!(resp.created_at, 100);
    assert_eq!(resp.modified_at, 100);
    assert_eq!(resp.id.len(), 32);
    let fetched = get_note(&store, 1, &resp.id).unwrap();
    assert_eq!(fetched.metadata, "meta-a");
    assert_eq!(fetched.key, "key-a");
    assert_eq!(fetched.content, "content-a");
    assert_eq!(fetched.created_at, 100);
    assert_eq!(fetched.modified_at, 100);
}

#[test]
fn foreign_note_is_unauthorized() {
    let mut store = Store::new();
    let resp = save_note(&mut store, 1, request("a"), 100).unwrap();
    assert_eq!(get_note(&store, 2, &resp.id).unwrap_err(), AppError::Unauthorized);
}

#[test]
fn missing_note_is_unauthorized() {
    let store = Store::new();
    assert_eq!(
        get_note(&store, 1, &String::from("no-such-token")).unwrap_err(),
        AppError::Unauthorized
    );
}

#[test]
fn update_replaces_blobs_and_stamps_time() {
    let mut store = Store::new();
    let resp = save_note(&mut store, 1, request("a"), 100).unwrap();
    let upd = UpdateNoteRequest {
        metadata: String::from("meta-2"),
        key: String::from("key-2"),
        content: String::from("content-2"),
    };
    update_note(&mut store, 1, &resp.id, 250, upd).unwrap();
    let fetched = get_note(&store, 1, &resp.id).unwrap();
    assert_eq!(fetched.metadata, "meta-2");
    assert_eq!(fetched.key, "key-2");
    assert_eq!(fetched.content, "content-2");
    assert_eq!(fetched.created_at, 100);
    assert_eq!(fetched.modified_at, 250);
}

#[test]
fn update_of_foreign_note_is_unauthorized() {
    let mut store = Store::new();
    let resp = save_note(&mut store, 1, request("a"), 100).unwrap();
    let upd = UpdateNoteRequest {
        metadata: String::from("x"),
        key: String::from("x"),
        content: String::from("x"),
    };
    assert_eq!(
        update_note(&mut store, 2, &resp.id, 250, upd).unwrap_err(),
        AppError::Unauthorized
    );
}

#[test]
fn soft_deleted_note_leaves_active_listing() {
    let mut store = Store::new();
    let a = save_note(&mut store, 1, request("a"), 100).unwrap();
    let b = save_note(&mut store, 1, request("b"), 110).unwrap();
    delete_note(&mut store, 1, &a.id, 300).unwrap();

    let active = list_notes(&store, 1);
    assert_eq!(active.len(), 1);
    assert_eq!(active[0].id, b.id);

    let deleted = list_deleted_notes(&store, 1);
    assert_eq!(deleted.len(), 1);
    assert_eq!(deleted[0].id, a.id);
    assert_eq!(deleted[0].deleted_at, 300);
}

#[test]
fn deleted_note_cannot_be_fetched_or_updated() {
    let mut store = Store::new();
    let a = save_note(&mut store, 1, request("a"), 100).unwrap();
    delete_note(&mut store, 1, &a.id, 300).unwrap();
    assert_eq!(get_note(&store, 1, &a.id).unwrap_err(), AppError::Unauthorized);
    let upd = UpdateNoteRequest {
        metadata: String::from("x"),
        key: String::from("x"),
        content: String::from("x"),
    };
    assert_eq!(update_note(&mut store, 1, &a.id, 400, upd).unwrap_err(), AppError::Unauthorized);
    assert_eq!(delete_note(&mut store, 1, &a.id, 400).unwrap_err(), AppError::Unauthorized);
}

#[test]
fn undelete_restores_the_note() {
    let mut store = Store::new();
    let a = save_note(&mut store, 1, request("a"), 100).unwrap();
    delete_note(&mut store, 1, &a.id, 300).unwrap();
    let restored = undelete_note(&mut store, 1, &a.id).unwrap();
    assert_eq!(restored.metadata, "meta-a");
    assert_eq!(restored.content, "content-a");
    let fetched = get_note(&store, 1, &a.id).unwrap();
    assert_eq!(fetched.content, "content-a");
    assert_eq!(list_deleted_notes(&store, 1).len(), 0);
}

#[test]
fn undelete_of_live_note_is_unauthorized() {
    let mut store = Store::new();
    let a = save_note(&mut store, 1, request("a"), 100).unwrap();
    assert_eq!(undelete_note(&mut store, 1, &a.id).unwrap_err(), AppError::Unauthorized);
}

#[test]
fn deleting_a_note_revokes_its_share() {
    let mut store = Store::new();
    let a = save_note(&mut store, 1, request("a"), 100).unwrap();
    let share = create_share(
        &mut store,
        1,
        CreateShareRequest { note: a.id.clone(), public: None, expires_in: None },
        150,
    )
    .unwrap();
    assert!(access_share(&mut store, &share.token, 160).is_ok());
    delete_note(&mut store, 1, &a.id, 300).unwrap();
    assert_eq!(
        access_share(&mut store, &share.token, 310).unwrap_err(),
        AppError::Unauthorized
    );
}

#[test]
fn listings_are_per_user() {
    let mut store = Store::new();
    let _a = save_note(&mut store, 1, request("a"), 100).unwrap();
    let b = save_note(&mut store, 2, request("b"), 110).unwrap();
    let of_two = list_notes(&store, 2);
    assert_eq!(of_two.len(), 1);
    assert_eq!(of_two[0].id, b.id);
    assert_eq!(list_notes(&store, 3).len(), 0);
}
