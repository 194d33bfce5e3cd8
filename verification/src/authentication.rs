//! Bearer-token session lifecycle.
//!
//! A token's presence in the store is the sole proof of validity: there is no
//! revocation flag, deletion is revocation. Every request re-validates
//! against the store; an expired token is deleted lazily as a side effect of
//! the failed validation (the retention sweep only provides storage hygiene).

use vstd::prelude::*;

use crate::error::AppError;
use crate::ledger::{
    ledger_corrupt, ledger_fits, ledger_funded, LedgerConfig,
};
use crate::store::{
    lemma_remove_members, lemma_token_index_unique, lemma_user_index_unique,
    lemma_wf_tokens_changed, Store, TokenRecord,
};
use crate::users::{find_active_user_by_name, is_funded};

verus! {

/// Token expiration time: two months.
pub const TOKEN_EXPIRATION_WEEKS: i64 = 8;

/// The same window in seconds, the unit of every stored timestamp.
pub const TOKEN_EXPIRATION_SECONDS: i64 = TOKEN_EXPIRATION_WEEKS * 7 * 24 * 60 * 60;

/// A token is still valid at `now` when no more than the expiry window has
/// passed since it was issued (the boundary instant itself is still valid).
pub open spec fn token_valid_at(rec: TokenRecord, now: int) -> bool {
    now - rec.created_at <= TOKEN_EXPIRATION_SECONDS
}

/// Presenting `token` at `now` resolves to an identity: the token is stored,
/// its owner exists, and the expiry window has not passed.
pub open spec fn auth_ok(s: Store, token: Seq<char>, now: int) -> bool {
    &&& s.has_token(token)
    &&& s.has_user_id(s.token_at(token).user_id)
    &&& token_valid_at(s.token_at(token), now)
}

/// The stored token is past its window: the one case in which validation
/// deletes the token as a side effect, whether or not an owner row exists.
pub open spec fn auth_expired(s: Store, token: Seq<char>, now: int) -> bool {
    &&& s.has_token(token)
    &&& !token_valid_at(s.token_at(token), now)
}

/// The identity a validated session token resolves to.
#[derive(Debug)]
pub struct AuthenticatedUser {
    pub user_id: i64,
    pub auth_token: String,
    pub username: String,
}

/// An identity that additionally passed the funding guard; only operations
/// that create durable content demand it.
#[derive(Debug)]
pub struct AuthenticatedFundedUser {
    pub user_id: i64,
    pub auth_token: String,
    pub username: String,
}

/// Check whether `token` authorizes a request at time `now` and resolve the
/// owning user. Unknown, ownerless and expired tokens all fail with
/// `Unauthorized`; the expired case deletes the token, and nothing else in
/// the store ever changes.
pub fn is_authorized_with_user(store: &mut Store, token: &String, now: i64) -> (r: Result<
    AuthenticatedUser,
    AppError,
>)
    requires
        old(store).wf(),
        0 <= now,
        token@.len() > 0,
    ensures
        final(store).wf(),
        final(store).users == old(store).users,
        final(store).notes == old(store).notes,
        final(store).shares == old(store).shares,
        final(store).next_user_id == old(store).next_user_id,
        match r {
            Ok(u) => {
                &&& auth_ok(*old(store), token@, now as int)
                &&& u.user_id == old(store).token_at(token@).user_id
                &&& u.auth_token@ == token@
                &&& u.username@ == old(store).user_at(u.user_id).username@
                &&& final(store).tokens == old(store).tokens
            },
            Err(e) => {
                &&& e == AppError::Unauthorized
                &&& !auth_ok(*old(store), token@, now as int)
                &&& if auth_expired(*old(store), token@, now as int) {
                    final(store).tokens@ == old(store).tokens@.remove(
                        old(store).token_index(token@),
                    )
                } else {
                    final(store).tokens == old(store).tokens
                }
            },
        },
{
    let idx = match store.find_token(token) {
        Some(i) => i,
        None => {
            return Err(AppError::Unauthorized);
        },
    };
    proof {
        lemma_token_index_unique(*store, token@, idx as int);
    }
    let user_id = store.tokens[idx].user_id;
    let created_at = store.tokens[idx].created_at;
    if !(now - created_at <= TOKEN_EXPIRATION_SECONDS) {
        let ghost pre = *store;
        store.tokens.remove(idx);
        proof {
            lemma_remove_members(pre.tokens@, idx as int);
            assert forall|a: int, b: int| 0 <= a < b < store.tokens@.len() implies #[trigger] store.tokens@[a].token@ != #[trigger] store.tokens@[b].token@ by {
                let a0 = if a < idx as int { a } else { a + 1 };
                let b0 = if b < idx as int { b } else { b + 1 };
                assert(store.tokens@[a] == pre.tokens@[a0]);
                assert(store.tokens@[b] == pre.tokens@[b0]);
            }
            lemma_wf_tokens_changed(pre, *store);
        }
        return Err(AppError::Unauthorized);
    }
    let uidx = match store.find_user(user_id) {
        Some(i) => i,
        None => {
            return Err(AppError::Unauthorized);
        },
    };
    proof {
        lemma_user_index_unique(*store, user_id, uidx as int);
    }
    let username = store.users[uidx].username.clone();
    let auth_token = token.clone();
    Ok(AuthenticatedUser { user_id, auth_token, username })
}

/// Store a freshly issued token for the user named `name`, who is expected
/// to exist. A missing user or a colliding token string surfaces as an
/// internal failure, as a violated table constraint would.
pub fn store_auth_token(store: &mut Store, name: &String, token: &String, created_at: i64) -> (r:
    Result<(), AppError>)
    requires
        old(store).wf(),
        0 <= created_at,
    ensures
        final(store).wf(),
        final(store).users == old(store).users,
        final(store).notes == old(store).notes,
        final(store).shares == old(store).shares,
        final(store).next_user_id == old(store).next_user_id,
        match r {
            Ok(()) => {
                &&& old(store).has_active_username(name@)
                &&& !old(store).has_token(token@)
                &&& final(store).tokens@ == old(store).tokens@.push(
                    TokenRecord {
                        token: *token,
                        user_id: old(store).active_user_at(name@).id,
                        created_at,
                    },
                )
            },
            Err(e) => {
                &&& e == AppError::ViolatedAssertion
                &&& !(old(store).has_active_username(name@) && !old(store).has_token(token@))
                &&& final(store).tokens == old(store).tokens
            },
        },
{
    let uidx = match find_active_user_by_name(store, name) {
        Some(i) => i,
        None => {
            return Err(AppError::ViolatedAssertion);
        },
    };
    if store.find_token(token).is_some() {
        return Err(AppError::ViolatedAssertion);
    }
    let ghost pre = *store;
    let user_id = store.users[uidx].id;
    let rec = TokenRecord { token: token.clone(), user_id, created_at };
    proof {
        crate::store::lemma_active_user_index_unique(*store, name@, uidx as int);
    }
    store.tokens.push(rec);
    proof {
        assert(store.tokens@[store.tokens@.len() - 1].token@ == token@);
        assert forall|k: int|
            0 <= k < store.tokens@.len() implies pre.tokens@.contains(#[trigger] store.tokens@[k])
            || store.tokens@[k].token@ == token@ by {
            if k < store.tokens@.len() - 1 {
                assert(store.tokens@[k] == pre.tokens@[k]);
            }
        }
        assert forall|a: int, b: int| 0 <= a < b < store.tokens@.len() implies #[trigger] store.tokens@[a].token@ != #[trigger] store.tokens@[b].token@ by {
            if b < store.tokens@.len() - 1 {
                assert(store.tokens@[a] == pre.tokens@[a]);
                assert(store.tokens@[b] == pre.tokens@[b]);
            } else {
                assert(store.tokens@[a] == pre.tokens@[a]);
                assert(!pre.has_token(token@));
            }
        }
        assert forall|i: int| 0 <= i < store.tokens@.len() implies 0 <= #[trigger] store.tokens@[i].created_at by {
            if i < store.tokens@.len() - 1 {
                assert(store.tokens@[i] == pre.tokens@[i]);
            }
        }
        assert forall|i: int| 0 <= i < store.shares@.len() implies {
            &&& store.has_note(#[trigger] store.shares@[i].note_token@)
            &&& store.note_at(store.shares@[i].note_token@).user_id == store.shares@[i].user_id
            &&& store.note_at(store.shares@[i].note_token@).deleted_at is None
        } by {
            let nt = pre.shares@[i].note_token@;
            assert(pre.has_note(nt));
            crate::store::lemma_note_index_unique(*store, nt, pre.note_index(nt));
        }
    }
    Ok(())
}

/// Delete the given session token; deleting an absent token is not an error
/// (logout is always successful).
pub fn delete_auth_token(store: &mut Store, token: &String) -> (r: Result<(), AppError>)
    requires
        old(store).wf(),
    ensures
        final(store).wf(),
        final(store).users == old(store).users,
        final(store).notes == old(store).notes,
        final(store).shares == old(store).shares,
        final(store).next_user_id == old(store).next_user_id,
        r is Ok,
        !final(store).has_token(token@),
        if old(store).has_token(token@) {
            final(store).tokens@ == old(store).tokens@.remove(old(store).token_index(token@))
        } else {
            final(store).tokens == old(store).tokens
        },
{
    let idx = match store.find_token(token) {
        Some(i) => i,
        None => {
            return Ok(());
        },
    };
    proof {
        lemma_token_index_unique(*store, token@, idx as int);
    }
    let ghost pre = *store;
    store.tokens.remove(idx);
    proof {
        lemma_remove_members(pre.tokens@, idx as int);
        assert forall|a: int, b: int| 0 <= a < b < store.tokens@.len() implies #[trigger] store.tokens@[a].token@ != #[trigger] store.tokens@[b].token@ by {
            let a0 = if a < idx as int { a } else { a + 1 };
            let b0 = if b < idx as int { b } else { b + 1 };
            assert(store.tokens@[a] == pre.tokens@[a0]);
            assert(store.tokens@[b] == pre.tokens@[b0]);
        }
        lemma_wf_tokens_changed(pre, *store);
        assert forall|k: int| 0 <= k < store.tokens@.len() implies #[trigger] store.tokens@[k].token@ != token@ by {
            let k0 = if k < idx as int { k } else { k + 1 };
            assert(store.tokens@[k] == pre.tokens@[k0]);
            if k0 != idx as int {
                if k0 < idx as int {
                    assert(pre.tokens@[k0].token@ != pre.tokens@[idx as int].token@);
                } else {
                    assert(pre.tokens@[idx as int].token@ != pre.tokens@[k0].token@);
                }
            }
        }
    }
    Ok(())
}

/// Delete every session token of the given user ("invalidate all sessions").
/// Idempotent; returns how many tokens were removed.
pub fn delete_all_auth_tokens(store: &mut Store, user_id: i64) -> (count: usize)
    requires
        old(store).wf(),
    ensures
        final(store).wf(),
        final(store).users == old(store).users,
        final(store).notes == old(store).notes,
        final(store).shares == old(store).shares,
        final(store).next_user_id == old(store).next_user_id,
        final(store).tokens@ == old(store).tokens@.filter(|t: TokenRecord| t.user_id != user_id),
        count == old(store).tokens@.len() - final(store).tokens@.len(),
{
    let ghost pre = *store;
    let ghost pred = |t: TokenRecord| t.user_id != user_id;
    let n = store.tokens.len();
    let mut kept: Vec<TokenRecord> = Vec::new();
    let mut i: usize = 0;
    proof {
        reveal(Seq::filter);
    }
    while i < n
        invariant
            n == store.tokens@.len(),
            i <= n,
            *store == pre,
            pred == (|t: TokenRecord| t.user_id != user_id),
            kept@ == pre.tokens@.take(i as int).filter(pred),
        decreases n - i,
    {
        proof {
            reveal(Seq::filter);
            assert(pre.tokens@.take(i + 1).drop_last() =~= pre.tokens@.take(i as int));
            assert(pre.tokens@.take(i + 1).last() == pre.tokens@[i as int]);
        }
        if store.tokens[i].user_id != user_id {
            let rec = clone_token_record(&store.tokens[i]);
            kept.push(rec);
        }
        i = i + 1;
    }
    proof {
        assert(pre.tokens@.take(n as int) =~= pre.tokens@);
    }
    let count = store.tokens.len() - kept.len();
    store.tokens = kept;
    proof {
        crate::store::lemma_filter_members(pre.tokens@, pred);
        crate::store::lemma_filter_distinct(pre.tokens@, pred, |t: TokenRecord| t.token@);
        lemma_wf_tokens_changed(pre, *store);
        pre.tokens@.lemma_filter_len(pred);
    }
    count
}

/// An exact copy of one stored token row.
fn clone_token_record(rec: &TokenRecord) -> (r: TokenRecord)
    ensures
        r == *rec,
{
    TokenRecord { token: rec.token.clone(), user_id: rec.user_id, created_at: rec.created_at }
}

/// The guard in front of every operation that creates durable content:
/// resolve the identity as [`is_authorized_with_user`] does, then demand a
/// funded ledger judgement. Reads, deletes and logout never pass through here,
/// so a locked-out user can always retrieve or remove their data.
pub fn authenticated_funded_user(
    store: &mut Store,
    token: &String,
    now: i64,
    cfg: &LedgerConfig,
) -> (r: Result<AuthenticatedFundedUser, AppError>)
    requires
        old(store).wf(),
        old(store).clock_ok(now as int),
        0 <= now,
        token@.len() > 0,
        cfg.wf(),
    ensures
        final(store).wf(),
        final(store).users == old(store).users,
        final(store).notes == old(store).notes,
        final(store).shares == old(store).shares,
        final(store).next_user_id == old(store).next_user_id,
        match r {
            Ok(u) => {
                &&& auth_ok(*old(store), token@, now as int)
                &&& u.user_id == old(store).token_at(token@).user_id
                &&& u.auth_token@ == token@
                &&& u.username@ == old(store).user_at(u.user_id).username@
                &&& ledger_funded(
                    old(store).user_at(u.user_id).events@,
                    now as int,
                    *cfg,
                )
                &&& final(store).tokens == old(store).tokens
            },
            Err(e) => {
                &&& (e == AppError::Unauthorized || e == AppError::Underfunded || e
                    == AppError::ViolatedAssertion)
                &&& (e == AppError::Unauthorized <==> !auth_ok(*old(store), token@, now as int))
                &&& (e == AppError::Unauthorized ==> if auth_expired(
                    *old(store),
                    token@,
                    now as int,
                ) {
                    final(store).tokens@ == old(store).tokens@.remove(
                        old(store).token_index(token@),
                    )
                } else {
                    final(store).tokens == old(store).tokens
                })
                &&& (e != AppError::Unauthorized ==> final(store).tokens == old(store).tokens)
                &&& (e == AppError::Underfunded ==> auth_ok(*old(store), token@, now as int)
                    && !ledger_funded(
                    old(store).user_at(old(store).token_at(token@).user_id).events@,
                    now as int,
                    *cfg,
                ))
                &&& (e == AppError::ViolatedAssertion ==> auth_ok(*old(store), token@, now as int)
                    && (ledger_corrupt(
                    old(store).user_at(old(store).token_at(token@).user_id).events@,
                    cfg.hourly_cost as int,
                ) || !ledger_fits(
                    old(store).user_at(old(store).token_at(token@).user_id).events@,
                    now as int,
                    *cfg,
                )))
            },
        },
{
    let user = is_authorized_with_user(store, token, now)?;
    proof {
        crate::store::lemma_user_lookups_agree(*store, *old(store), user.user_id);
        assert forall|i: int, k: int|
            0 <= i < store.users@.len() && 0 <= k < store.users@[i].events@.len() implies #[trigger] store.users@[i].events@[k].at() <= now as int by {
            assert(store.users@[i] == old(store).users@[i]);
            assert(old(store).users@[i].events@[k].at() <= now as int);
        }
    }
    is_funded(store, user.user_id, now, cfg)?;
    Ok(AuthenticatedFundedUser {
        user_id: user.user_id,
        auth_token: user.auth_token,
        username: user.username,
    })
}

/// Law: a token just issued to an active user authorizes as that user for
/// as long as the expiry window has not passed. The store reached by
/// [`store_auth_token`]'s success resolves the token to the owner's id and
/// stored username.
pub proof fn lemma_issued_token_authorizes(
    pre: Store,
    post: Store,
    name: Seq<char>,
    token: TokenRecord,
    now: int,
)
    requires
        pre.wf(),
        pre.has_active_username(name),
        !pre.has_token(token.token@),
        token.user_id == pre.active_user_at(name).id,
        post.users == pre.users,
        post.tokens@ == pre.tokens@.push(token),
        post.tokens_unique(),
        now - token.created_at <= TOKEN_EXPIRATION_SECONDS,
    ensures
        auth_ok(post, token.token@, now),
        post.token_at(token.token@).user_id == pre.active_user_at(name).id,
        post.user_at(token.user_id).username@ == name,
{
    lemma_token_index_unique(post, token.token@, post.tokens@.len() - 1);
    let i = pre.active_user_index(name);
    lemma_user_index_unique(post, token.user_id, i);
}

} // verus!
