//! The retention sweeps: the periodic reclamation of expired session tokens
//! and of notes soft-deleted past the retention window.
//!
//! Each sweep is a delete-by-predicate, idempotent, and exact at the
//! boundary: a row at precisely the window's edge survives, one past it
//! goes. The note purge is the only irreversible deletion in the system and
//! only ever touches rows that are already soft-deleted past the window.

use vstd::prelude::*;

use crate::authentication::TOKEN_EXPIRATION_SECONDS;
use crate::store::{
    lemma_filter_distinct, lemma_filter_members, lemma_wf_tokens_changed,
    NoteRecord, Store, TokenRecord,
};

verus! {

/// Notes soft-deleted longer ago than this are purged for good.
pub const NOTE_RETENTION_WEEKS: i64 = 4;

/// The same retention window in seconds.
pub const NOTE_RETENTION_SECONDS: i64 = NOTE_RETENTION_WEEKS * 7 * 24 * 60 * 60;

/// A token survives the sweep at `now` exactly when it is not yet older
/// than the expiry window (the boundary instant survives).
pub open spec fn token_fresh_at(t: TokenRecord, now: int) -> bool {
    t.created_at >= now - TOKEN_EXPIRATION_SECONDS
}

/// A note survives the purge at `now` unless it has been soft-deleted for
/// longer than the retention window; active notes always survive.
pub open spec fn note_retained_at(n: NoteRecord, now: int) -> bool {
    match n.deleted_at {
        Some(d) => d >= now - NOTE_RETENTION_SECONDS,
        None => true,
    }
}

/// One tick of the token sweep: delete every session token older than the
/// expiry window, and report how many went.
pub fn delete_expired_tokens(store: &mut Store, now: i64) -> (count: usize)
    requires
        old(store).wf(),
        0 <= now,
    ensures
        final(store).wf(),
        final(store).users == old(store).users,
        final(store).notes == old(store).notes,
        final(store).shares == old(store).shares,
        final(store).next_user_id == old(store).next_user_id,
        final(store).tokens@ == old(store).tokens@.filter(
            |t: TokenRecord| token_fresh_at(t, now as int),
        ),
        count == old(store).tokens@.len() - final(store).tokens@.len(),
{
    let ghost pre = *store;
    let ghost pred = |t: TokenRecord| token_fresh_at(t, now as int);
    let cutoff: i64 = now - TOKEN_EXPIRATION_SECONDS;
    let n = store.tokens.len();
    let mut kept: Vec<TokenRecord> = Vec::new();
    let mut i: usize = 0;
    proof {
        reveal(Seq::filter);
    }
    while i < n
        invariant
            n == store.tokens@.len(),
            i <= n,
            *store == pre,
            pre.wf(),
            0 <= now,
            cutoff == now - TOKEN_EXPIRATION_SECONDS,
            pred == (|t: TokenRecord| token_fresh_at(t, now as int)),
            kept@ == pre.tokens@.take(i as int).filter(pred),
        decreases n - i,
    {
        proof {
            reveal(Seq::filter);
            assert(pre.tokens@.take(i + 1).drop_last() =~= pre.tokens@.take(i as int));
            assert(pre.tokens@.take(i + 1).last() == pre.tokens@[i as int]);
        }
        if store.tokens[i].created_at >= cutoff {
            let rec = TokenRecord {
                token: store.tokens[i].token.clone(),
                user_id: store.tokens[i].user_id,
                created_at: store.tokens[i].created_at,
            };
            kept.push(rec);
        }
        i = i + 1;
    }
    proof {
        assert(pre.tokens@.take(n as int) =~= pre.tokens@);
    }
    let count = store.tokens.len() - kept.len();
    store.tokens = kept;
    proof {
        lemma_filter_members(pre.tokens@, pred);
        lemma_filter_distinct(pre.tokens@, pred, |t: TokenRecord| t.token@);
        lemma_wf_tokens_changed(pre, *store);
        pre.tokens@.lemma_filter_len(pred);
    }
    count
}

/// One tick of the note purge: permanently delete every note whose
/// soft-deletion timestamp lies further back than the retention window, and
/// report how many went. Never touches an active note.
pub fn delete_expired_notes(store: &mut Store, now: i64) -> (count: usize)
    requires
        old(store).wf(),
        0 <= now,
    ensures
        final(store).wf(),
        final(store).users == old(store).users,
        final(store).tokens == old(store).tokens,
        final(store).shares == old(store).shares,
        final(store).next_user_id == old(store).next_user_id,
        final(store).notes@ == old(store).notes@.filter(
            |nr: NoteRecord| note_retained_at(nr, now as int),
        ),
        count == old(store).notes@.len() - final(store).notes@.len(),
{
    let ghost pre = *store;
    let ghost pred = |nr: NoteRecord| note_retained_at(nr, now as int);
    let cutoff: i64 = now - NOTE_RETENTION_SECONDS;
    let n = store.notes.len();
    let mut kept: Vec<NoteRecord> = Vec::new();
    let mut i: usize = 0;
    proof {
        reveal(Seq::filter);
    }
    while i < n
        invariant
            n == store.notes@.len(),
            i <= n,
            *store == pre,
            pre.wf(),
            0 <= now,
            cutoff == now - NOTE_RETENTION_SECONDS,
            pred == (|nr: NoteRecord| note_retained_at(nr, now as int)),
            kept@ == pre.notes@.take(i as int).filter(pred),
        decreases n - i,
    {
        proof {
            reveal(Seq::filter);
            assert(pre.notes@.take(i + 1).drop_last() =~= pre.notes@.take(i as int));
            assert(pre.notes@.take(i + 1).last() == pre.notes@[i as int]);
        }
        let keep = match store.notes[i].deleted_at {
            Some(d) => d >= cutoff,
            None => true,
        };
        if keep {
            let rec = crate::notes::clone_note_record(&store.notes[i]);
            kept.push(rec);
        }
        i = i + 1;
    }
    proof {
        assert(pre.notes@.take(n as int) =~= pre.notes@);
    }
    let count = store.notes.len() - kept.len();
    store.notes = kept;
    proof {
        lemma_filter_members(pre.notes@, pred);
        lemma_filter_distinct(pre.notes@, pred, |nr: NoteRecord| nr.token@);
        pre.notes@.lemma_filter_len(pred);
        assert forall|k: int|
            0 <= k < store.shares@.len() implies store.notes@.contains(
            pre.note_at(#[trigger] store.shares@[k].note_token@),
        ) by {
            let nt = pre.shares@[k].note_token@;
            assert(pre.has_note(nt));
            let ni = pre.note_index(nt);
            assert(pred(pre.notes@[ni]));
            pre.notes@.lemma_filter_contains(pred, ni);
        }
        crate::store::lemma_wf_notes_changed(pre, *store);
    }
    count
}

/// Law: after a token sweep only fresh tokens remain; every token past the
/// expiry window is gone.
pub proof fn lemma_sweep_leaves_only_fresh(pre: Store, post: Store, now: int)
    requires
        post.tokens@ == pre.tokens@.filter(|t: TokenRecord| token_fresh_at(t, now)),
    ensures
        forall|k: int|
            0 <= k < post.tokens@.len() ==> token_fresh_at(#[trigger] post.tokens@[k], now),
{
    let pred = |t: TokenRecord| token_fresh_at(t, now);
    assert forall|k: int|
        0 <= k < post.tokens@.len() implies token_fresh_at(#[trigger] post.tokens@[k], now) by {
        pre.tokens@.lemma_filter_pred(pred, k);
    }
}

/// Law: the sweep and lazy validation agree on the boundary. A token
/// survives the sweep at `now` exactly when validation at `now` would still
/// accept it; the instant exactly at the window's edge is on the surviving,
/// valid side.
pub proof fn lemma_sweep_matches_expiry(t: TokenRecord, now: int)
    ensures
        token_fresh_at(t, now) == crate::authentication::token_valid_at(t, now),
{
}

} // verus!
