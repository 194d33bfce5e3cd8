//! Note lifecycle: create, read, update, list, soft-delete and undelete.
//!
//! A note is never edited while soft-deleted, ownership mismatch and
//! absence are indistinguishable to the caller, and soft-deleting a note
//! revokes its share in the same transition, so a deleted note never keeps
//! a live public link.

use vstd::prelude::*;

use crate::error::AppError;
use crate::store::{
    lemma_filter_members, lemma_filter_distinct, lemma_note_index_unique, NoteRecord,
    ShareRecord, Store,
};
use crate::util::{get_note_token, NOTE_TOKEN_LENGTH};

verus! {

/// Request to save or update a note.
#[derive(Debug)]
pub struct SaveNoteRequest {
    pub metadata: String,
    pub key: String,
    pub content: String,
}

/// Response to saving a note.
#[derive(Debug)]
pub struct SaveNoteResponse {
    pub id: String,
    pub modified_at: i64,
    pub created_at: i64,
}

/// Request to update a note.
#[derive(Debug)]
pub struct UpdateNoteRequest {
    pub metadata: String,
    pub key: String,
    pub content: String,
}

/// Response to updating a note.
#[derive(Debug)]
pub struct UpdateNoteResponse {
    pub id: String,
    pub modified_at: i64,
}

/// Response to fetching a note.
#[derive(Debug)]
pub struct GetNoteResponse {
    pub id: String,
    pub modified_at: i64,
    pub created_at: i64,
    pub metadata: String,
    pub key: String,
    pub content: String,
}

/// Response to undeleting a note.
#[derive(Debug)]
pub struct UndeleteNoteResponse {
    pub id: String,
    pub modified_at: i64,
    pub created_at: i64,
    pub metadata: String,
    pub key: String,
    pub content: String,
}

/// One entry of the active-notes listing.
#[derive(Debug)]
pub struct ListNoteResponse {
    pub id: String,
    pub modified_at: i64,
    pub created_at: i64,
    pub metadata: String,
    pub key: String,
}

/// One entry of the deleted-notes listing.
#[derive(Debug)]
pub struct ListDeletedNoteResponse {
    pub id: String,
    pub modified_at: i64,
    pub created_at: i64,
    pub deleted_at: i64,
    pub metadata: String,
    pub key: String,
}

/// The stored note has exactly these fields.
pub open spec fn note_fields(
    n: NoteRecord,
    token: Seq<char>,
    user_id: i64,
    created_at: i64,
    modified_at: i64,
    deleted_at: Option<i64>,
    metadata: Seq<char>,
    key: Seq<char>,
    content: Seq<char>,
) -> bool {
    &&& n.token@ == token
    &&& n.user_id == user_id
    &&& n.created_at == created_at
    &&& n.modified_at == modified_at
    &&& n.deleted_at == deleted_at
    &&& n.metadata@ == metadata
    &&& n.key@ == key
    &&& n.content@ == content
}

/// Insert a note row; a colliding token is an internal failure, as the
/// violated uniqueness constraint would be.
pub fn store_note(
    store: &mut Store,
    user_id: i64,
    token: String,
    created_at: i64,
    modified_at: i64,
    metadata: String,
    key: String,
    content: String,
) -> (r: Result<(), AppError>)
    requires
        old(store).wf(),
        0 <= created_at,
        0 <= modified_at,
    ensures
        final(store).wf(),
        final(store).users == old(store).users,
        final(store).tokens == old(store).tokens,
        final(store).shares == old(store).shares,
        final(store).next_user_id == old(store).next_user_id,
        match r {
            Ok(()) => {
                &&& !old(store).has_note(token@)
                &&& final(store).notes@.len() == old(store).notes@.len() + 1
                &&& final(store).notes@ == old(store).notes@.push(final(store).notes@.last())
                &&& note_fields(
                    final(store).notes@.last(),
                    token@,
                    user_id,
                    created_at,
                    modified_at,
                    None,
                    metadata@,
                    key@,
                    content@,
                )
            },
            Err(e) => {
                &&& e == AppError::ViolatedAssertion
                &&& old(store).has_note(token@)
                &&& final(store).notes == old(store).notes
            },
        },
{
    if store.find_note(&token).is_some() {
        return Err(AppError::ViolatedAssertion);
    }
    let ghost pre = *store;
    let rec = NoteRecord {
        token,
        user_id,
        created_at,
        modified_at,
        deleted_at: None,
        metadata,
        key,
        content,
    };
    store.notes.push(rec);
    proof {
        let n = store.notes@.len() - 1;
        assert forall|i: int, j: int|
            0 <= i < j < store.notes@.len() implies #[trigger] store.notes@[i].token@ != #[trigger] store.notes@[j].token@ by {
            if j < n {
                assert(store.notes@[i] == pre.notes@[i] && store.notes@[j] == pre.notes@[j]);
            } else {
                assert(store.notes@[i] == pre.notes@[i]);
                assert(!pre.has_note(store.notes@[n].token@));
            }
        }
        assert forall|i: int| 0 <= i < store.notes@.len() implies {
            &&& 0 <= #[trigger] store.notes@[i].created_at
            &&& 0 <= store.notes@[i].modified_at
            &&& match store.notes@[i].deleted_at {
                Some(d) => 0 <= d,
                None => true,
            }
        } by {
            if i < n {
                assert(store.notes@[i] == pre.notes@[i]);
            }
        }
        assert forall|i: int| 0 <= i < store.shares@.len() implies {
            &&& store.has_note(#[trigger] store.shares@[i].note_token@)
            &&& store.note_at(store.shares@[i].note_token@).user_id == store.shares@[i].user_id
            &&& store.note_at(store.shares@[i].note_token@).deleted_at is None
        } by {
            let nt = pre.shares@[i].note_token@;
            assert(pre.has_note(nt));
            let j = pre.note_index(nt);
            assert(store.notes@[j] == pre.notes@[j]);
            lemma_note_index_unique(*store, nt, j);
        }
    }
    Ok(())
}

/// Save a new note for the (funded) owner: a fresh random token and both
/// timestamps set to now. The funding guard stands in front of this call.
pub fn save_note(store: &mut Store, user_id: i64, note: SaveNoteRequest, now: i64) -> (r: Result<
    SaveNoteResponse,
    AppError,
>)
    requires
        old(store).wf(),
        0 <= now,
    ensures
        final(store).wf(),
        final(store).users == old(store).users,
        final(store).tokens == old(store).tokens,
        final(store).shares == old(store).shares,
        final(store).next_user_id == old(store).next_user_id,
        match r {
            Ok(resp) => {
                &&& resp.id@.len() == NOTE_TOKEN_LENGTH as int
                &&& resp.created_at == now
                &&& resp.modified_at == now
                &&& !old(store).has_note(resp.id@)
                &&& final(store).notes@.len() == old(store).notes@.len() + 1
                &&& final(store).notes@ == old(store).notes@.push(final(store).notes@.last())
                &&& note_fields(
                    final(store).notes@.last(),
                    resp.id@,
                    user_id,
                    now,
                    now,
                    None,
                    note.metadata@,
                    note.key@,
                    note.content@,
                )
            },
            Err(e) => {
                &&& e == AppError::ViolatedAssertion
                &&& final(store).notes == old(store).notes
            },
        },
{
    let token = get_note_token();
    let id = token.clone();
    let SaveNoteRequest { metadata, key, content } = note;
    store_note(store, user_id, token, now, now, metadata, key, content)?;
    Ok(SaveNoteResponse { id, modified_at: now, created_at: now })
}

/// Fetch a note: it must exist, belong to the caller and not be
/// soft-deleted; everything else is one indistinguishable `Unauthorized`.
pub fn get_note(store: &Store, user_id: i64, token: &String) -> (r: Result<
    GetNoteResponse,
    AppError,
>)
    requires
        store.wf(),
    ensures
        match r {
            Ok(resp) => {
                &&& store.has_live_note(user_id, token@)
                &&& ({
                    let n = store.note_at(token@);
                    &&& resp.id@ == token@
                    &&& resp.created_at == n.created_at
                    &&& resp.modified_at == n.modified_at
                    &&& resp.metadata@ == n.metadata@
                    &&& resp.key@ == n.key@
                    &&& resp.content@ == n.content@
                })
            },
            Err(e) => e == AppError::Unauthorized && !store.has_live_note(user_id, token@),
        },
{
    let idx = match store.find_note(token) {
        Some(i) => i,
        None => {
            return Err(AppError::Unauthorized);
        },
    };
    proof {
        lemma_note_index_unique(*store, token@, idx as int);
    }
    if store.notes[idx].user_id != user_id || store.notes[idx].deleted_at.is_some() {
        return Err(AppError::Unauthorized);
    }
    let n = &store.notes[idx];
    Ok(GetNoteResponse {
        id: token.clone(),
        modified_at: n.modified_at,
        created_at: n.created_at,
        metadata: n.metadata.clone(),
        key: n.key.clone(),
        content: n.content.clone(),
    })
}

/// Update a live note of the caller in place, stamping the modification
/// time; a missing, foreign or soft-deleted note is `Unauthorized`.
pub fn update_note(
    store: &mut Store,
    user_id: i64,
    token: &String,
    modified_at: i64,
    note: UpdateNoteRequest,
) -> (r: Result<(), AppError>)
    requires
        old(store).wf(),
        0 <= modified_at,
    ensures
        final(store).wf(),
        final(store).users == old(store).users,
        final(store).tokens == old(store).tokens,
        final(store).shares == old(store).shares,
        final(store).next_user_id == old(store).next_user_id,
        match r {
            Ok(()) => {
                &&& old(store).has_live_note(user_id, token@)
                &&& ({
                    let i = old(store).note_index(token@);
                    &&& final(store).notes@ == old(store).notes@.update(
                        i,
                        final(store).notes@[i],
                    )
                    &&& note_fields(
                        final(store).notes@[i],
                        token@,
                        user_id,
                        old(store).notes@[i].created_at,
                        modified_at,
                        None,
                        note.metadata@,
                        note.key@,
                        note.content@,
                    )
                })
            },
            Err(e) => {
                &&& e == AppError::Unauthorized
                &&& !old(store).has_live_note(user_id, token@)
                &&& final(store).notes == old(store).notes
            },
        },
{
    let idx = match store.find_note(token) {
        Some(i) => i,
        None => {
            return Err(AppError::Unauthorized);
        },
    };
    proof {
        lemma_note_index_unique(*store, token@, idx as int);
    }
    if store.notes[idx].user_id != user_id || store.notes[idx].deleted_at.is_some() {
        return Err(AppError::Unauthorized);
    }
    let ghost pre = *store;
    let UpdateNoteRequest { metadata, key, content } = note;
    store.notes[idx].modified_at = modified_at;
    store.notes[idx].metadata = metadata;
    store.notes[idx].key = key;
    store.notes[idx].content = content;
    proof {
        assert(store.notes@ =~= pre.notes@.update(idx as int, store.notes@[idx as int]));
        lemma_wf_note_record_updated(pre, *store, idx as int);
    }
    Ok(())
}

/// Soft-delete a live note of the caller: set its deletion timestamp and,
/// in the same transition, remove any share referencing it, so the public
/// link stops resolving immediately. A missing, foreign or already-deleted
/// note is `Unauthorized` and changes nothing.
pub fn delete_note(store: &mut Store, user_id: i64, token: &String, deleted_at: i64) -> (r: Result<
    (),
    AppError,
>)
    requires
        old(store).wf(),
        0 <= deleted_at,
    ensures
        final(store).wf(),
        final(store).users == old(store).users,
        final(store).tokens == old(store).tokens,
        final(store).next_user_id == old(store).next_user_id,
        match r {
            Ok(()) => {
                &&& old(store).has_live_note(user_id, token@)
                &&& final(store).notes@ == old(store).notes@.update(
                    old(store).note_index(token@),
                    (NoteRecord {
                        deleted_at: Some(deleted_at),
                        ..old(store).note_at(token@)
                    }),
                )
                &&& final(store).shares@ == old(store).shares@.filter(
                    |s: ShareRecord| s.note_token@ != token@,
                )
            },
            Err(e) => {
                &&& e == AppError::Unauthorized
                &&& !old(store).has_live_note(user_id, token@)
                &&& final(store).notes == old(store).notes
                &&& final(store).shares == old(store).shares
            },
        },
{
    let idx = match store.find_note(token) {
        Some(i) => i,
        None => {
            return Err(AppError::Unauthorized);
        },
    };
    proof {
        lemma_note_index_unique(*store, token@, idx as int);
    }
    if store.notes[idx].user_id != user_id || store.notes[idx].deleted_at.is_some() {
        return Err(AppError::Unauthorized);
    }
    let ghost pre = *store;
    let ghost pred = |s: ShareRecord| s.note_token@ != token@;

    // Revoke the note's share, if any (at most one exists).
    let n = store.shares.len();
    let mut kept: Vec<ShareRecord> = Vec::new();
    let mut i: usize = 0;
    proof {
        reveal(Seq::filter);
    }
    while i < n
        invariant
            n == store.shares@.len(),
            i <= n,
            *store == pre,
            pred == (|s: ShareRecord| s.note_token@ != token@),
            kept@ == pre.shares@.take(i as int).filter(pred),
        decreases n - i,
    {
        proof {
            reveal(Seq::filter);
            assert(pre.shares@.take(i + 1).drop_last() =~= pre.shares@.take(i as int));
            assert(pre.shares@.take(i + 1).last() == pre.shares@[i as int]);
        }
        if !(store.shares[i].note_token == *token) {
            let rec = crate::shares::clone_share_record(&store.shares[i]);
            kept.push(rec);
        }
        i = i + 1;
    }
    proof {
        assert(pre.shares@.take(n as int) =~= pre.shares@);
    }
    store.shares = kept;
    proof {
        lemma_filter_members(pre.shares@, pred);
        lemma_filter_distinct(pre.shares@, pred, |s: ShareRecord| s.token@);
        lemma_filter_distinct(pre.shares@, pred, |s: ShareRecord| s.note_token@);
        crate::store::lemma_wf_shares_changed(pre, *store);
    }
    let ghost mid = *store;

    store.notes[idx].deleted_at = Some(deleted_at);
    proof {
        assert forall|k: int|
            0 <= k < store.shares@.len() implies #[trigger] store.shares@[k].note_token@
            != token@ by {
            pre.shares@.lemma_filter_pred(pred, k);
        }
        lemma_wf_note_record_updated(mid, *store, idx as int);
    }
    Ok(())
}

/// Restore a soft-deleted note of the caller and return it; a note that is
/// not currently soft-deleted (or not the caller's) is `Unauthorized`.
pub fn undelete_note(store: &mut Store, user_id: i64, token: &String) -> (r: Result<
    UndeleteNoteResponse,
    AppError,
>)
    requires
        old(store).wf(),
    ensures
        final(store).wf(),
        final(store).users == old(store).users,
        final(store).tokens == old(store).tokens,
        final(store).shares == old(store).shares,
        final(store).next_user_id == old(store).next_user_id,
        match r {
            Ok(resp) => {
                &&& old(store).has_note(token@)
                &&& old(store).note_at(token@).user_id == user_id
                &&& old(store).note_at(token@).deleted_at is Some
                &&& final(store).notes@ == old(store).notes@.update(
                    old(store).note_index(token@),
                    (NoteRecord { deleted_at: None, ..old(store).note_at(token@) }),
                )
                &&& ({
                    let n = old(store).note_at(token@);
                    &&& resp.id@ == token@
                    &&& resp.created_at == n.created_at
                    &&& resp.modified_at == n.modified_at
                    &&& resp.metadata@ == n.metadata@
                    &&& resp.key@ == n.key@
                    &&& resp.content@ == n.content@
                })
            },
            Err(e) => {
                &&& e == AppError::Unauthorized
                &&& !(old(store).has_note(token@) && old(store).note_at(token@).user_id == user_id
                    && old(store).note_at(token@).deleted_at is Some)
                &&& final(store).notes == old(store).notes
            },
        },
{
    let idx = match store.find_note(token) {
        Some(i) => i,
        None => {
            return Err(AppError::Unauthorized);
        },
    };
    proof {
        lemma_note_index_unique(*store, token@, idx as int);
    }
    if store.notes[idx].user_id != user_id || store.notes[idx].deleted_at.is_none() {
        return Err(AppError::Unauthorized);
    }
    let ghost pre = *store;
    store.notes[idx].deleted_at = None;
    let n = &store.notes[idx];
    let resp = UndeleteNoteResponse {
        id: token.clone(),
        modified_at: n.modified_at,
        created_at: n.created_at,
        metadata: n.metadata.clone(),
        key: n.key.clone(),
        content: n.content.clone(),
    };
    proof {
        lemma_wf_note_record_updated(pre, *store, idx as int);
    }
    Ok(resp)
}

/// One listing entry reports exactly this stored note.
pub open spec fn list_entry_matches(e: ListNoteResponse, n: NoteRecord) -> bool {
    &&& e.id@ == n.token@
    &&& e.created_at == n.created_at
    &&& e.modified_at == n.modified_at
    &&& e.metadata@ == n.metadata@
    &&& e.key@ == n.key@
}

/// One deleted-listing entry reports exactly this stored note.
pub open spec fn deleted_entry_matches(e: ListDeletedNoteResponse, n: NoteRecord) -> bool {
    &&& e.id@ == n.token@
    &&& e.created_at == n.created_at
    &&& e.modified_at == n.modified_at
    &&& n.deleted_at == Some(e.deleted_at)
    &&& e.metadata@ == n.metadata@
    &&& e.key@ == n.key@
}

/// The caller's active notes, in storage order.
pub fn list_notes(store: &Store, user_id: i64) -> (r: Vec<ListNoteResponse>)
    ensures
        ({
            let fil = store.notes@.filter(
                |n: NoteRecord| n.user_id == user_id && n.deleted_at is None,
            );
            &&& r@.len() == fil.len()
            &&& forall|k: int| 0 <= k < r@.len() ==> list_entry_matches(#[trigger] r@[k], fil[k])
        }),
{
    let ghost pred = |n: NoteRecord| n.user_id == user_id && n.deleted_at is None;
    let n = store.notes.len();
    let mut out: Vec<ListNoteResponse> = Vec::new();
    let mut i: usize = 0;
    proof {
        reveal(Seq::filter);
    }
    while i < n
        invariant
            n == store.notes@.len(),
            i <= n,
            pred == (|n: NoteRecord| n.user_id == user_id && n.deleted_at is None),
            out@.len() == store.notes@.take(i as int).filter(pred).len(),
            forall|k: int|
                0 <= k < out@.len() ==> list_entry_matches(
                    #[trigger] out@[k],
                    store.notes@.take(i as int).filter(pred)[k],
                ),
        decreases n - i,
    {
        proof {
            reveal(Seq::filter);
            assert(store.notes@.take(i + 1).drop_last() =~= store.notes@.take(i as int));
            assert(store.notes@.take(i + 1).last() == store.notes@[i as int]);
        }
        if store.notes[i].user_id == user_id && store.notes[i].deleted_at.is_none() {
            let rec = &store.notes[i];
            out.push(ListNoteResponse {
                id: rec.token.clone(),
                modified_at: rec.modified_at,
                created_at: rec.created_at,
                metadata: rec.metadata.clone(),
                key: rec.key.clone(),
            });
        }
        i = i + 1;
    }
    proof {
        assert(store.notes@.take(n as int) =~= store.notes@);
    }
    out
}

/// The caller's soft-deleted notes, in storage order, each with its
/// deletion timestamp.
pub fn list_deleted_notes(store: &Store, user_id: i64) -> (r: Vec<ListDeletedNoteResponse>)
    ensures
        ({
            let fil = store.notes@.filter(
                |n: NoteRecord| n.user_id == user_id && n.deleted_at is Some,
            );
            &&& r@.len() == fil.len()
            &&& forall|k: int| 0 <= k < r@.len() ==> deleted_entry_matches(#[trigger] r@[k], fil[k])
        }),
{
    let ghost pred = |n: NoteRecord| n.user_id == user_id && n.deleted_at is Some;
    let n = store.notes.len();
    let mut out: Vec<ListDeletedNoteResponse> = Vec::new();
    let mut i: usize = 0;
    proof {
        reveal(Seq::filter);
    }
    while i < n
        invariant
            n == store.notes@.len(),
            i <= n,
            pred == (|n: NoteRecord| n.user_id == user_id && n.deleted_at is Some),
            out@.len() == store.notes@.take(i as int).filter(pred).len(),
            forall|k: int|
                0 <= k < out@.len() ==> deleted_entry_matches(
                    #[trigger] out@[k],
                    store.notes@.take(i as int).filter(pred)[k],
                ),
        decreases n - i,
    {
        proof {
            reveal(Seq::filter);
            assert(store.notes@.take(i + 1).drop_last() =~= store.notes@.take(i as int));
            assert(store.notes@.take(i + 1).last() == store.notes@[i as int]);
        }
        if store.notes[i].user_id == user_id {
            let rec = &store.notes[i];
            match rec.deleted_at {
                Some(d) => {
                    out.push(ListDeletedNoteResponse {
                        id: rec.token.clone(),
                        modified_at: rec.modified_at,
                        created_at: rec.created_at,
                        deleted_at: d,
                        metadata: rec.metadata.clone(),
                        key: rec.key.clone(),
                    });
                },
                None => {},
            }
        }
        i = i + 1;
    }
    proof {
        assert(store.notes@.take(n as int) =~= store.notes@);
    }
    out
}

/// Law: a note just saved is immediately visible to its creator, live and
/// holding exactly the saved blobs — so a fetch right after a save returns
/// identical metadata, key and content.
pub proof fn lemma_saved_note_visible(
    pre: Store,
    post: Store,
    user_id: i64,
    token: Seq<char>,
    created_at: i64,
    modified_at: i64,
    metadata: Seq<char>,
    key: Seq<char>,
    content: Seq<char>,
)
    requires
        !pre.has_note(token),
        post.notes_unique(),
        post.notes@.len() == pre.notes@.len() + 1,
        post.notes@ == pre.notes@.push(post.notes@.last()),
        note_fields(
            post.notes@.last(),
            token,
            user_id,
            created_at,
            modified_at,
            None,
            metadata,
            key,
            content,
        ),
    ensures
        post.has_live_note(user_id, token),
        note_fields(
            post.note_at(token),
            token,
            user_id,
            created_at,
            modified_at,
            None,
            metadata,
            key,
            content,
        ),
{
    lemma_note_index_unique(post, token, post.notes@.len() - 1);
}

/// Law: soft-deleting a note revokes its share. The deletion's cascade
/// filters the share table by a predicate that rejects the stored share, so
/// that share token no longer resolves afterwards, and an anonymous access
/// through it fails. (The predicate is generic so a caller can pass exactly
/// the closure of [`delete_note`]'s postcondition.)
pub proof fn lemma_delete_note_revokes_share(
    pre: Store,
    post: Store,
    pred: spec_fn(ShareRecord) -> bool,
    share_token: Seq<char>,
)
    requires
        pre.wf(),
        post.shares@ == pre.shares@.filter(pred),
        pre.has_share(share_token),
        !pred(pre.share_at(share_token)),
    ensures
        !post.has_share(share_token),
{
    lemma_filter_members(pre.shares@, pred);
    assert forall|k: int| 0 <= k < post.shares@.len() implies #[trigger] post.shares@[k].token@
        != share_token by {
        pre.shares@.lemma_filter_pred(pred, k);
        assert(pre.shares@.contains(post.shares@[k]));
        let j = choose|j: int| 0 <= j < pre.shares@.len() && pre.shares@[j] == post.shares@[k];
        if post.shares@[k].token@ == share_token {
            crate::store::lemma_share_index_unique(pre, share_token, j);
        }
    }
}

/// An exact copy of one stored note row.
pub(crate) fn clone_note_record(rec: &NoteRecord) -> (r: NoteRecord)
    ensures
        r == *rec,
{
    NoteRecord {
        token: rec.token.clone(),
        user_id: rec.user_id,
        created_at: rec.created_at,
        modified_at: rec.modified_at,
        deleted_at: rec.deleted_at,
        metadata: rec.metadata.clone(),
        key: rec.key.clone(),
        content: rec.content.clone(),
    }
}

/// A note update that keeps token and owner, keeps timestamps non-negative,
/// and — if it soft-deletes the note — leaves no share referencing it,
/// preserves the store invariant.
proof fn lemma_wf_note_record_updated(pre: Store, post: Store, i: int)
    requires
        pre.wf(),
        0 <= i < pre.notes@.len(),
        post.users == pre.users,
        post.tokens == pre.tokens,
        post.shares == pre.shares,
        post.next_user_id == pre.next_user_id,
        post.notes@ == pre.notes@.update(i, post.notes@[i]),
        post.notes@[i].token@ == pre.notes@[i].token@,
        post.notes@[i].user_id == pre.notes@[i].user_id,
        0 <= post.notes@[i].created_at,
        0 <= post.notes@[i].modified_at,
        match post.notes@[i].deleted_at {
            Some(d) => 0 <= d,
            None => true,
        },
        post.notes@[i].deleted_at is Some ==> !post.has_share_for_note(pre.notes@[i].token@),
    ensures
        post.wf(),
{
    assert forall|a: int, b: int|
        0 <= a < b < post.notes@.len() implies #[trigger] post.notes@[a].token@ != #[trigger] post.notes@[b].token@ by {
        assert(post.notes@[a].token@ == pre.notes@[a].token@);
        assert(post.notes@[b].token@ == pre.notes@[b].token@);
    }
    assert forall|a: int| 0 <= a < post.notes@.len() implies {
        &&& 0 <= #[trigger] post.notes@[a].created_at
        &&& 0 <= post.notes@[a].modified_at
        &&& match post.notes@[a].deleted_at {
            Some(d) => 0 <= d,
            None => true,
        }
    } by {
        if a != i {
            assert(post.notes@[a] == pre.notes@[a]);
        }
    }
    assert forall|k: int| 0 <= k < post.shares@.len() implies {
        &&& post.has_note(#[trigger] post.shares@[k].note_token@)
        &&& post.note_at(post.shares@[k].note_token@).user_id == post.shares@[k].user_id
        &&& post.note_at(post.shares@[k].note_token@).deleted_at is None
    } by {
        let nt = pre.shares@[k].note_token@;
        assert(pre.has_note(nt));
        let ni = pre.note_index(nt);
        lemma_note_index_unique(post, nt, ni);
        if ni == i && post.notes@[i].deleted_at is Some {
            assert(post.shares@[k].note_token@ == pre.notes@[i].token@);
            assert(post.has_share_for_note(pre.notes@[i].token@));
        }
    }
}

} // verus!
