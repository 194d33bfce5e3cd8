//! Share lifecycle: a public, optionally time-limited link to exactly one
//! live note of its owner.
//!
//! At most one share exists per note (a second creation is a conflict, not
//! an upsert); an expired link is indistinguishable from a missing one and
//! leaves no trace, while every successful anonymous access increments the
//! link's view counter exactly once.

use vstd::prelude::*;

use crate::error::AppError;
use crate::store::{
    lemma_note_index_unique, lemma_note_lookups_agree, lemma_remove_members,
    lemma_share_index_unique, lemma_user_index_unique, ShareRecord, Store,
};
use crate::users::find_active_user_by_name;
use crate::util::{get_share_token, SHARE_TOKEN_LENGTH};

verus! {

/// Request to create a share.
#[derive(Debug)]
pub struct CreateShareRequest {
    pub note: String,
    pub public: Option<String>,
    pub expires_in: Option<i64>,
}

/// Response to creating a share.
#[derive(Debug)]
pub struct CreateShareResponse {
    pub token: String,
    pub note: String,
    pub public: Option<String>,
    pub created_at: i64,
    pub expires_at: Option<i64>,
}

/// One entry of the caller's share listing.
#[derive(Debug)]
pub struct ListShareResponse {
    pub token: String,
    pub note: String,
    pub view_count: u64,
    pub created_at: i64,
    pub expires_at: Option<i64>,
}

/// One entry of a user's public publications listing.
#[derive(Debug)]
pub struct ListPublicationResponse {
    pub token: String,
    pub created_at: i64,
    pub modified_at: i64,
    pub metadata: String,
    pub public: String,
    pub key: String,
}

/// What an anonymous access to a share returns: the note's content and key,
/// never the owner's identity.
#[derive(Debug)]
pub struct AccessShareResponse {
    pub created_at: i64,
    pub modified_at: i64,
    pub content: String,
    pub key: String,
}

/// The view of an optional string.
pub open spec fn opt_view(o: Option<String>) -> Option<Seq<char>> {
    match o {
        Some(s) => Some(s@),
        None => None,
    }
}

/// The requested expiry arithmetic stays within the machine range.
pub open spec fn expiry_fits(now: int, expires_in: Option<i64>) -> bool {
    match expires_in {
        None => true,
        Some(h) => i64::MIN <= h * 3600 <= i64::MAX && i64::MIN <= now + h * 3600 <= i64::MAX,
    }
}

/// The expiry instant a request asks for: `now` plus the requested hours.
pub open spec fn expiry_of(now: int, expires_in: Option<i64>) -> Option<int> {
    match expires_in {
        None => None,
        Some(h) => Some(now + h * 3600),
    }
}

/// Does any share reference the note with this token?
pub fn share_exists(store: &Store, note_token: &String) -> (r: bool)
    ensures
        r == store.has_share_for_note(note_token@),
{
    store.find_share_for_note(note_token).is_some()
}

/// Create a share for a note the caller owns and that is alive: first a
/// conflict check (one share per note), then an atomic "insert if owned and
/// alive", so a concurrently deleted note yields `Unauthorized` rather than
/// an orphaned share. The guard for durable content stands in front of this.
pub fn create_share(store: &mut Store, user_id: i64, request: CreateShareRequest, now: i64) -> (r:
    Result<CreateShareResponse, AppError>)
    requires
        old(store).wf(),
        0 <= now,
    ensures
        final(store).wf(),
        final(store).users == old(store).users,
        final(store).tokens == old(store).tokens,
        final(store).notes == old(store).notes,
        final(store).next_user_id == old(store).next_user_id,
        match r {
            Ok(resp) => {
                &&& expiry_fits(now as int, request.expires_in)
                &&& !old(store).has_share_for_note(request.note@)
                &&& old(store).has_live_note(user_id, request.note@)
                &&& !old(store).has_share(resp.token@)
                &&& resp.token@.len() == SHARE_TOKEN_LENGTH as int
                &&& resp.note@ == request.note@
                &&& opt_view(resp.public) == opt_view(request.public)
                &&& resp.created_at == now
                &&& match resp.expires_at {
                    Some(e) => expiry_of(now as int, request.expires_in) == Some(e as int),
                    None => expiry_of(now as int, request.expires_in) is None,
                }
                &&& final(store).shares@.len() == old(store).shares@.len() + 1
                &&& final(store).shares@ == old(store).shares@.push(final(store).shares@.last())
                &&& ({
                    let s = final(store).shares@.last();
                    &&& s.token@ == resp.token@
                    &&& s.note_token@ == request.note@
                    &&& s.user_id == user_id
                    &&& s.created_at == now
                    &&& s.expires_at == resp.expires_at
                    &&& opt_view(s.public) == opt_view(request.public)
                    &&& s.view_count == 0
                })
            },
            Err(e) => {
                &&& final(store).shares == old(store).shares
                &&& (e == AppError::Conflict || e == AppError::Unauthorized || e
                    == AppError::ViolatedAssertion)
                &&& (e == AppError::Conflict <==> expiry_fits(now as int, request.expires_in)
                    && old(store).has_share_for_note(request.note@))
                &&& (e == AppError::Unauthorized <==> expiry_fits(now as int, request.expires_in)
                    && !old(store).has_share_for_note(request.note@) && !old(
                    store,
                ).has_live_note(user_id, request.note@))
            },
        },
{
    let expires_at: Option<i64> = match request.expires_in {
        None => None,
        Some(h) => {
            let secs = match h.checked_mul(3600) {
                Some(s) => s,
                None => {
                    return Err(AppError::ViolatedAssertion);
                },
            };
            match now.checked_add(secs) {
                Some(e) => Some(e),
                None => {
                    return Err(AppError::ViolatedAssertion);
                },
            }
        },
    };
    if share_exists(store, &request.note) {
        return Err(AppError::Conflict);
    }
    let nidx = match store.find_note(&request.note) {
        Some(i) => i,
        None => {
            return Err(AppError::Unauthorized);
        },
    };
    proof {
        lemma_note_index_unique(*store, request.note@, nidx as int);
    }
    if store.notes[nidx].user_id != user_id || store.notes[nidx].deleted_at.is_some() {
        return Err(AppError::Unauthorized);
    }
    let token = get_share_token();
    if store.find_share(&token).is_some() {
        return Err(AppError::ViolatedAssertion);
    }
    let ghost pre = *store;
    let resp_token = token.clone();
    let resp_public = match &request.public {
        Some(p) => Some(p.clone()),
        None => None,
    };
    let rec = ShareRecord {
        token,
        note_token: request.note.clone(),
        user_id,
        created_at: now,
        expires_at,
        public: request.public,
        view_count: 0,
    };
    store.shares.push(rec);
    proof {
        let n = store.shares@.len() - 1;
        assert forall|i: int, j: int|
            0 <= i < j < store.shares@.len() implies #[trigger] store.shares@[i].token@ != #[trigger] store.shares@[j].token@ by {
            if j < n {
                assert(store.shares@[i] == pre.shares@[i] && store.shares@[j] == pre.shares@[j]);
            } else {
                assert(store.shares@[i] == pre.shares@[i]);
                assert(!pre.has_share(store.shares@[n].token@));
            }
        }
        assert forall|i: int, j: int|
            0 <= i < j < store.shares@.len() implies #[trigger] store.shares@[i].note_token@ != #[trigger] store.shares@[j].note_token@ by {
            if j < n {
                assert(store.shares@[i] == pre.shares@[i] && store.shares@[j] == pre.shares@[j]);
            } else {
                assert(store.shares@[i] == pre.shares@[i]);
                assert(!pre.has_share_for_note(store.shares@[n].note_token@));
            }
        }
        assert forall|i: int| 0 <= i < store.shares@.len() implies 0
            <= #[trigger] store.shares@[i].created_at by {
            if i < n {
                assert(store.shares@[i] == pre.shares@[i]);
            }
        }
        assert forall|i: int| 0 <= i < store.shares@.len() implies {
            &&& store.has_note(#[trigger] store.shares@[i].note_token@)
            &&& store.note_at(store.shares@[i].note_token@).user_id == store.shares@[i].user_id
            &&& store.note_at(store.shares@[i].note_token@).deleted_at is None
        } by {
            if i < n {
                assert(store.shares@[i] == pre.shares@[i]);
                let nt = pre.shares@[i].note_token@;
                assert(pre.has_note(nt));
                lemma_note_lookups_agree(*store, pre, nt);
            } else {
                lemma_note_index_unique(*store, store.shares@[n].note_token@, nidx as int);
            }
        }
    }
    Ok(CreateShareResponse {
        token: resp_token,
        note: request.note,
        public: resp_public,
        created_at: now,
        expires_at,
    })
}

/// The stored share named by `token` is past its expiry at `now`.
pub open spec fn share_expired(s: Store, token: Seq<char>, now: int) -> bool {
    match s.share_at(token).expires_at {
        Some(e) => e < now,
        None => false,
    }
}

/// Anonymous access through a share link: an unknown or expired token is
/// `Unauthorized` and leaves the counter untouched; a live one increments
/// the view counter exactly once and returns the joined note.
pub fn access_share(store: &mut Store, token: &String, now: i64) -> (r: Result<
    AccessShareResponse,
    AppError,
>)
    requires
        old(store).wf(),
    ensures
        final(store).wf(),
        final(store).users == old(store).users,
        final(store).tokens == old(store).tokens,
        final(store).notes == old(store).notes,
        final(store).next_user_id == old(store).next_user_id,
        match r {
            Ok(resp) => {
                &&& old(store).has_share(token@)
                &&& !share_expired(*old(store), token@, now as int)
                &&& final(store).shares@ == old(store).shares@.update(
                    old(store).share_index(token@),
                    (ShareRecord {
                        view_count: (old(store).share_at(token@).view_count + 1) as u64,
                        ..old(store).share_at(token@)
                    }),
                )
                &&& old(store).share_at(token@).view_count < u64::MAX
                &&& ({
                    let note = old(store).note_at(old(store).share_at(token@).note_token@);
                    &&& resp.created_at == note.created_at
                    &&& resp.modified_at == note.modified_at
                    &&& resp.content@ == note.content@
                    &&& resp.key@ == note.key@
                })
            },
            Err(e) => {
                &&& final(store).shares == old(store).shares
                &&& (e == AppError::Unauthorized || e == AppError::ViolatedAssertion)
                &&& (e == AppError::Unauthorized <==> !old(store).has_share(token@)
                    || share_expired(*old(store), token@, now as int))
                &&& (e == AppError::ViolatedAssertion ==> old(store).has_share(token@) && old(
                    store,
                ).share_at(token@).view_count == u64::MAX)
            },
        },
{
    let sidx = match store.find_share(token) {
        Some(i) => i,
        None => {
            return Err(AppError::Unauthorized);
        },
    };
    proof {
        lemma_share_index_unique(*store, token@, sidx as int);
    }
    match store.shares[sidx].expires_at {
        Some(e) => {
            if e < now {
                return Err(AppError::Unauthorized);
            }
        },
        None => {},
    }
    let new_count = match store.shares[sidx].view_count.checked_add(1) {
        Some(c) => c,
        None => {
            return Err(AppError::ViolatedAssertion);
        },
    };
    let nidx = match store.find_note(&store.shares[sidx].note_token) {
        Some(i) => i,
        None => {
            proof {
                assert(store.has_note(store.shares@[sidx as int].note_token@));
            }
            return Err(AppError::ViolatedAssertion);
        },
    };
    proof {
        lemma_note_index_unique(*store, store.shares@[sidx as int].note_token@, nidx as int);
    }
    let resp = AccessShareResponse {
        created_at: store.notes[nidx].created_at,
        modified_at: store.notes[nidx].modified_at,
        content: store.notes[nidx].content.clone(),
        key: store.notes[nidx].key.clone(),
    };
    let ghost pre = *store;
    store.shares[sidx].view_count = new_count;
    proof {
        let post = *store;
        assert forall|a: int, b: int|
            0 <= a < b < post.shares@.len() implies #[trigger] post.shares@[a].token@ != #[trigger] post.shares@[b].token@ by {
            assert(post.shares@[a].token@ == pre.shares@[a].token@);
            assert(post.shares@[b].token@ == pre.shares@[b].token@);
        }
        assert forall|a: int, b: int|
            0 <= a < b < post.shares@.len() implies #[trigger] post.shares@[a].note_token@ != #[trigger] post.shares@[b].note_token@ by {
            assert(post.shares@[a].note_token@ == pre.shares@[a].note_token@);
            assert(post.shares@[b].note_token@ == pre.shares@[b].note_token@);
        }
        assert forall|a: int| 0 <= a < post.shares@.len() implies 0
            <= #[trigger] post.shares@[a].created_at by {
            assert(post.shares@[a].created_at == pre.shares@[a].created_at);
        }
        assert forall|k: int| 0 <= k < post.shares@.len() implies {
            &&& post.has_note(#[trigger] post.shares@[k].note_token@)
            &&& post.note_at(post.shares@[k].note_token@).user_id == post.shares@[k].user_id
            &&& post.note_at(post.shares@[k].note_token@).deleted_at is None
        } by {
            assert(post.shares@[k].note_token@ == pre.shares@[k].note_token@);
            assert(post.shares@[k].user_id == pre.shares@[k].user_id);
            let nt = pre.shares@[k].note_token@;
            assert(pre.has_note(nt));
            lemma_note_lookups_agree(post, pre, nt);
        }
    }
    Ok(resp)
}

/// One share-listing entry reports exactly this stored share.
pub open spec fn share_entry_matches(e: ListShareResponse, s: ShareRecord) -> bool {
    &&& e.token@ == s.token@
    &&& e.note@ == s.note_token@
    &&& e.view_count == s.view_count
    &&& e.created_at == s.created_at
    &&& e.expires_at == s.expires_at
}

/// The caller's shares with their view counts, in storage order.
pub fn list_shares(store: &Store, user_id: i64) -> (r: Vec<ListShareResponse>)
    ensures
        ({
            let fil = store.shares@.filter(|s: ShareRecord| s.user_id == user_id);
            &&& r@.len() == fil.len()
            &&& forall|k: int| 0 <= k < r@.len() ==> share_entry_matches(#[trigger] r@[k], fil[k])
        }),
{
    let ghost pred = |s: ShareRecord| s.user_id == user_id;
    let n = store.shares.len();
    let mut out: Vec<ListShareResponse> = Vec::new();
    let mut i: usize = 0;
    proof {
        reveal(Seq::filter);
    }
    while i < n
        invariant
            n == store.shares@.len(),
            i <= n,
            pred == (|s: ShareRecord| s.user_id == user_id),
            out@.len() == store.shares@.take(i as int).filter(pred).len(),
            forall|k: int|
                0 <= k < out@.len() ==> share_entry_matches(
                    #[trigger] out@[k],
                    store.shares@.take(i as int).filter(pred)[k],
                ),
        decreases n - i,
    {
        proof {
            reveal(Seq::filter);
            assert(store.shares@.take(i + 1).drop_last() =~= store.shares@.take(i as int));
            assert(store.shares@.take(i + 1).last() == store.shares@[i as int]);
        }
        if store.shares[i].user_id == user_id {
            let rec = &store.shares[i];
            out.push(ListShareResponse {
                token: rec.token.clone(),
                note: rec.note_token.clone(),
                view_count: rec.view_count,
                created_at: rec.created_at,
                expires_at: rec.expires_at,
            });
        }
        i = i + 1;
    }
    proof {
        assert(store.shares@.take(n as int) =~= store.shares@);
    }
    out
}

/// The share is a publication of the user named `name`: it carries the
/// public tag and its note belongs to an account storing exactly that
/// username.
pub open spec fn is_publication_of(store: Store, s: ShareRecord, name: Seq<char>) -> bool {
    &&& s.public is Some
    &&& store.has_note(s.note_token@)
    &&& store.has_user_id(store.note_at(s.note_token@).user_id)
    &&& store.user_at(store.note_at(s.note_token@).user_id).username@ == name
}

/// One publication entry reports exactly this share and its note.
pub open spec fn publication_entry_matches(
    store: Store,
    e: ListPublicationResponse,
    s: ShareRecord,
) -> bool {
    &&& e.token@ == s.token@
    &&& opt_view(s.public) == Some(e.public@)
    &&& ({
        let note = store.note_at(s.note_token@);
        &&& e.created_at == note.created_at
        &&& e.modified_at == note.modified_at
        &&& e.metadata@ == note.metadata@
        &&& e.key@ == note.key@
    })
}

/// The public publications of the named user: their shares tagged public,
/// joined with the underlying notes. An unknown or deleted user, or one
/// with nothing published, is `NotFound`.
pub fn list_publications(store: &Store, username: &String) -> (r: Result<
    Vec<ListPublicationResponse>,
    AppError,
>)
    requires
        store.wf(),
    ensures
        ({
            let fil = store.shares@.filter(|s: ShareRecord| is_publication_of(*store, s, username@));
            match r {
                Ok(v) => {
                    &&& store.has_active_username(username@)
                    &&& v@.len() == fil.len()
                    &&& v@.len() > 0
                    &&& forall|k: int|
                        0 <= k < v@.len() ==> publication_entry_matches(
                            *store,
                            #[trigger] v@[k],
                            fil[k],
                        )
                },
                Err(e) => {
                    &&& e == AppError::NotFound
                    &&& !store.has_active_username(username@) || fil.len() == 0
                },
            }
        }),
{
    if find_active_user_by_name(store, username).is_none() {
        return Err(AppError::NotFound);
    }
    let ghost pred = |s: ShareRecord| is_publication_of(*store, s, username@);
    let n = store.shares.len();
    let mut out: Vec<ListPublicationResponse> = Vec::new();
    let mut i: usize = 0;
    proof {
        reveal(Seq::filter);
    }
    while i < n
        invariant
            store.wf(),
            n == store.shares@.len(),
            i <= n,
            pred == (|s: ShareRecord| is_publication_of(*store, s, username@)),
            out@.len() == store.shares@.take(i as int).filter(pred).len(),
            forall|k: int|
                0 <= k < out@.len() ==> publication_entry_matches(
                    *store,
                    #[trigger] out@[k],
                    store.shares@.take(i as int).filter(pred)[k],
                ),
        decreases n - i,
    {
        proof {
            reveal(Seq::filter);
            assert(store.shares@.take(i + 1).drop_last() =~= store.shares@.take(i as int));
            assert(store.shares@.take(i + 1).last() == store.shares@[i as int]);
        }
        let rec = &store.shares[i];
        let public = match &rec.public {
            Some(p) => Some(p.clone()),
            None => None,
        };
        match public {
            Some(p) => {
                let nidx = match store.find_note(&rec.note_token) {
                    Some(j) => j,
                    None => {
                        proof {
                            assert(store.has_note(store.shares@[i as int].note_token@));
                        }
                        return Err(AppError::NotFound);
                    },
                };
                proof {
                    lemma_note_index_unique(*store, store.shares@[i as int].note_token@, nidx as int);
                }
                match store.find_user(store.notes[nidx].user_id) {
                    Some(uidx) => {
                        proof {
                            lemma_user_index_unique(
                                *store,
                                store.notes@[nidx as int].user_id,
                                uidx as int,
                            );
                        }
                        if store.users[uidx].username == *username {
                            let note = &store.notes[nidx];
                            out.push(ListPublicationResponse {
                                token: rec.token.clone(),
                                created_at: note.created_at,
                                modified_at: note.modified_at,
                                metadata: note.metadata.clone(),
                                public: p,
                                key: note.key.clone(),
                            });
                        }
                    },
                    None => {},
                }
            },
            None => {},
        }
        i = i + 1;
    }
    proof {
        assert(store.shares@.take(n as int) =~= store.shares@);
    }
    if out.len() == 0 {
        return Err(AppError::NotFound);
    }
    Ok(out)
}

/// Delete a share of the caller; a missing or foreign token is
/// `Unauthorized`.
pub fn delete_share(store: &mut Store, user_id: i64, token: &String) -> (r: Result<(), AppError>)
    requires
        old(store).wf(),
    ensures
        final(store).wf(),
        final(store).users == old(store).users,
        final(store).tokens == old(store).tokens,
        final(store).notes == old(store).notes,
        final(store).next_user_id == old(store).next_user_id,
        match r {
            Ok(()) => {
                &&& old(store).has_share(token@)
                &&& old(store).share_at(token@).user_id == user_id
                &&& final(store).shares@ == old(store).shares@.remove(
                    old(store).share_index(token@),
                )
            },
            Err(e) => {
                &&& e == AppError::Unauthorized
                &&& !(old(store).has_share(token@) && old(store).share_at(token@).user_id
                    == user_id)
                &&& final(store).shares == old(store).shares
            },
        },
{
    let sidx = match store.find_share(token) {
        Some(i) => i,
        None => {
            return Err(AppError::Unauthorized);
        },
    };
    proof {
        lemma_share_index_unique(*store, token@, sidx as int);
    }
    if store.shares[sidx].user_id != user_id {
        return Err(AppError::Unauthorized);
    }
    let ghost pre = *store;
    store.shares.remove(sidx);
    proof {
        let post = *store;
        lemma_remove_members(pre.shares@, sidx as int);
        assert forall|a: int, b: int|
            0 <= a < b < post.shares@.len() implies #[trigger] post.shares@[a].token@ != #[trigger] post.shares@[b].token@ by {
            let a0 = if a < sidx as int { a } else { a + 1 };
            let b0 = if b < sidx as int { b } else { b + 1 };
            assert(post.shares@[a] == pre.shares@[a0]);
            assert(post.shares@[b] == pre.shares@[b0]);
        }
        assert forall|a: int, b: int|
            0 <= a < b < post.shares@.len() implies #[trigger] post.shares@[a].note_token@ != #[trigger] post.shares@[b].note_token@ by {
            let a0 = if a < sidx as int { a } else { a + 1 };
            let b0 = if b < sidx as int { b } else { b + 1 };
            assert(post.shares@[a] == pre.shares@[a0]);
            assert(post.shares@[b] == pre.shares@[b0]);
        }
        crate::store::lemma_wf_shares_changed(pre, post);
    }
    Ok(())
}

/// Law: once a share row for a note is in the table, the note counts as
/// shared — so a second creation for the same note hits the conflict check.
pub proof fn lemma_created_share_blocks_second(pre: Store, post: Store, note_token: Seq<char>)
    requires
        post.shares@ == pre.shares@.push(post.shares@.last()),
        post.shares@.last().note_token@ == note_token,
    ensures
        post.has_share_for_note(note_token),
{
    assert(post.shares@[post.shares@.len() - 1].note_token@ == note_token);
}

/// An exact copy of one stored share row.
pub(crate) fn clone_share_record(rec: &ShareRecord) -> (r: ShareRecord)
    ensures
        r == *rec,
{
    ShareRecord {
        token: rec.token.clone(),
        note_token: rec.note_token.clone(),
        user_id: rec.user_id,
        created_at: rec.created_at,
        expires_at: rec.expires_at,
        public: match &rec.public {
            Some(p) => Some(p.clone()),
            None => None,
        },
        view_count: rec.view_count,
    }
}

} // verus!
