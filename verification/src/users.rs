//! Account lifecycle: signup, login, password change, salt storage, account
//! deletion, and the funding judgement derived from the usage-event ledger.
//!
//! Password hashing is delegated to the bcrypt primitive; what this module
//! guarantees is stated over [`bcrypt_accepts`], the (deterministic) answer
//! bcrypt's verification gives for a password against a stored hash.

use vstd::prelude::*;

use crate::error::AppError;
use crate::ledger::{
    compute_balance, ledger_corrupt, ledger_fits, ledger_funded, LedgerConfig,
};
use crate::store::{
    lemma_active_user_index_unique, lemma_user_index_unique, unicode_lower, Store, UserRecord,
};

verus! {

/// Cost of the bcrypt hashing algorithm.
pub const BCRYPT_COST: u32 = 12;

/// Whether bcrypt's verification accepts `password` against `hash`. The
/// answer re-derives the hash from the password and the parameters stored
/// inside `hash`, so it is a function of the two strings alone.
pub uninterp spec fn bcrypt_accepts(password: Seq<char>, hash: Seq<char>) -> bool;

/// Whether bcrypt's verification can check passwords against `hash` at all:
/// verification parses the salt and cost out of the hash string before it
/// recomputes anything, and errors exactly on a string it cannot parse — a
/// function of the hash alone, independent of the password presented.
pub uninterp spec fn bcrypt_checkable(hash: Seq<char>) -> bool;

#[verifier::external_type_specification]
#[verifier::external_body]
pub struct ExBcryptError(bcrypt::BcryptError);

/// Relies on bcrypt::hash: on success it returns a well-formed hash of the
/// given password (with a fresh random salt), which bcrypt::verify then
/// parses and accepts for the same password.
#[verifier::external_body]
fn bcrypt_hash_password(password: &String, cost: u32) -> (r: Result<String, bcrypt::BcryptError>)
    ensures
        r matches Ok(h) ==> bcrypt_accepts(password@, h@) && bcrypt_checkable(h@),
{
    bcrypt::hash(password.as_str(), cost)
}

/// Relies on bcrypt::verify: it deterministically recomputes the hash from
/// the password and the salt and cost stored in `hash`, and reports whether
/// the outcome matches. It errors exactly when the hash string cannot be
/// parsed, which depends on the hash alone, never on the password.
#[verifier::external_body]
fn bcrypt_verify_password(password: &String, hash: &String) -> (r: Result<
    bool,
    bcrypt::BcryptError,
>)
    ensures
        r is Ok <==> bcrypt_checkable(hash@),
        r matches Ok(b) ==> b == bcrypt_accepts(password@, hash@),
{
    bcrypt::verify(password.as_str(), hash.as_str())
}

/// Relies on str::to_lowercase: the Unicode lowercase mapping depends on
/// the characters alone (it is locale-independent), matching the relational
/// `lower()` a deployment's existence check runs.
#[verifier::external_body]
fn to_lowercase_str(s: &str) -> (r: String)
    ensures
        r@ == unicode_lower(s@),
{
    s.to_lowercase()
}

/// The request form expected for login and for confirming destructive calls.
#[derive(Debug)]
pub struct UserCredentials {
    pub name: String,
    pub password: String,
}

/// The request form expected for signup.
#[derive(Debug)]
pub struct SignupCredentials {
    pub name: String,
    pub password: String,
    pub email: Option<String>,
}

/// What the user-info endpoint reports about an account.
#[derive(Debug)]
pub struct UserInfo {
    pub salt: Option<String>,
    pub username: String,
    pub email: Option<String>,
}

/// The request form expected for storing a client-side salt.
#[derive(Debug)]
pub struct UserSaltRequest {
    pub salt: String,
}

/// The request form expected for changing a password.
#[derive(Debug)]
pub struct PasswordChangeRequest {
    pub name: String,
    pub password: String,
    pub password_new: String,
}

/// Characters a username may not contain.
pub open spec fn forbidden_char(c: char) -> bool {
    c == ';' || c == '/' || c == '?' || c == ':' || c == '@' || c == '&' || c == '=' || c == '+'
        || c == '$' || c == ',' || c == '#' || c == '*' || c == '[' || c == ']' || c == '{' || c
        == '}' || c == '(' || c == ')' || c == '^' || c == '|'
}

pub open spec fn username_chars_ok(s: Seq<char>) -> bool {
    forall|i: int| 0 <= i < s.len() ==> !forbidden_char(#[trigger] s[i])
}

/// A username is valid when it avoids every reserved URL character.
pub fn username_valid(name: &String) -> (r: bool)
    ensures
        r == username_chars_ok(name@),
{
    let n = name.as_str().unicode_len();
    let mut i: usize = 0;
    while i < n
        invariant
            n == name@.len(),
            i <= n,
            forall|k: int| 0 <= k < i ==> !forbidden_char(#[trigger] name@[k]),
        decreases n - i,
    {
        let c = name.as_str().get_char(i);
        if c == ';' || c == '/' || c == '?' || c == ':' || c == '@' || c == '&' || c == '=' || c
            == '+' || c == '$' || c == ',' || c == '#' || c == '*' || c == '[' || c == ']' || c
            == '{' || c == '}' || c == '(' || c == ')' || c == '^' || c == '|' {
            return false;
        }
        i = i + 1;
    }
    true
}

/// Does any account (deleted or not) hold this username, compared
/// case-insensitively through the Unicode folding? This is the signup
/// existence check.
pub fn user_exists(store: &Store, name: &String) -> (r: bool)
    ensures
        r == store.has_username_ci(name@),
{
    let folded = to_lowercase_str(name.as_str());
    let n = store.users.len();
    let mut i: usize = 0;
    while i < n
        invariant
            folded@ == unicode_lower(name@),
            n == store.users@.len(),
            i <= n,
            forall|k: int|
                0 <= k < i ==> unicode_lower(#[trigger] store.users@[k].username@)
                    != unicode_lower(name@),
        decreases n - i,
    {
        if to_lowercase_str(store.users[i].username.as_str()) == folded {
            return true;
        }
        i = i + 1;
    }
    false
}

/// Find the slot of the active (not soft-deleted) user named exactly `name`.
pub fn find_active_user_by_name(store: &Store, name: &String) -> (r: Option<usize>)
    ensures
        match r {
            Some(i) => i < store.users@.len() && store.users@[i as int].username@ == name@
                && store.users@[i as int].deleted_at is None,
            None => !store.has_active_username(name@),
        },
        r is Some <==> store.has_active_username(name@),
{
    let n = store.users.len();
    let mut i: usize = 0;
    while i < n
        invariant
            n == store.users@.len(),
            i <= n,
            forall|k: int|
                0 <= k < i ==> !(#[trigger] store.users@[k].username@ == name@
                    && store.users@[k].deleted_at is None),
        decreases n - i,
    {
        if store.users[i].deleted_at.is_none() && store.users[i].username == *name {
            return Some(i);
        }
        i = i + 1;
    }
    None
}

/// Does an active account hold exactly this username?
pub fn user_exists_and_is_active(store: &Store, name: &String) -> (r: bool)
    ensures
        r == store.has_active_username(name@),
{
    find_active_user_by_name(store, name).is_some()
}

/// The caller's credentials name an active account whose id matches the
/// authenticated one.
pub fn user_exists_and_matches_id(store: &Store, name: &String, user_id: i64) -> (r: bool)
    requires
        store.wf(),
    ensures
        r == (store.has_active_username(name@) && store.active_user_at(name@).id == user_id),
{
    match find_active_user_by_name(store, name) {
        Some(i) => {
            proof {
                lemma_active_user_index_unique(*store, name@, i as int);
            }
            store.users[i].id == user_id
        },
        None => false,
    }
}

/// The stored password hash of the user with this id; a missing row is an
/// internal failure, since callers resolve the id from an authenticated
/// session first.
pub fn get_password(store: &Store, user_id: i64) -> (r: Result<String, AppError>)
    requires
        store.wf(),
    ensures
        match r {
            Ok(h) => store.has_user_id(user_id) && h@ == store.user_at(user_id).password_hash@,
            Err(e) => e == AppError::ViolatedAssertion && !store.has_user_id(user_id),
        },
{
    match store.find_user(user_id) {
        Some(i) => {
            proof {
                lemma_user_index_unique(*store, user_id, i as int);
            }
            Ok(store.users[i].password_hash.clone())
        },
        None => Err(AppError::ViolatedAssertion),
    }
}

/// The id of the user storing exactly this username; a missing row is an
/// internal failure (callers check existence first).
pub fn get_user_id(store: &Store, name: &String) -> (r: Result<i64, AppError>)
    ensures
        match r {
            Ok(id) => exists|i: int|
                0 <= i < store.users@.len() && #[trigger] store.users@[i].username@ == name@
                    && store.users@[i].id == id,
            Err(e) => e == AppError::ViolatedAssertion && !exists|i: int|
                0 <= i < store.users@.len() && #[trigger] store.users@[i].username@ == name@,
        },
{
    let n = store.users.len();
    let mut i: usize = 0;
    while i < n
        invariant
            n == store.users@.len(),
            i <= n,
            forall|k: int| 0 <= k < i ==> #[trigger] store.users@[k].username@ != name@,
        decreases n - i,
    {
        if store.users[i].username == *name {
            return Ok(store.users[i].id);
        }
        i = i + 1;
    }
    Err(AppError::ViolatedAssertion)
}

/// Verify a supplied password against a stored hash. It answers exactly
/// when bcrypt can parse the hash; only a hash bcrypt cannot parse is an
/// internal failure — never a wrong password.
pub fn verify_password(password: &String, hash: &String) -> (r: Result<bool, AppError>)
    ensures
        r is Ok <==> bcrypt_checkable(hash@),
        r matches Ok(b) ==> b == bcrypt_accepts(password@, hash@),
        r matches Err(e) ==> e == AppError::ViolatedAssertion,
{
    match bcrypt_verify_password(password, hash) {
        Ok(b) => Ok(b),
        Err(_) => Err(AppError::ViolatedAssertion),
    }
}

/// The credential check can answer: either it rejects before touching the
/// stored hash (name mismatch, no active account), or the account row is
/// there with a hash bcrypt can parse. Outside this, and only outside it,
/// the check reports an internal failure.
pub open spec fn credentials_answerable(
    s: Store,
    username: Seq<char>,
    user_id: i64,
    name: Seq<char>,
) -> bool {
    !(name == username && s.has_active_username(name) && (!s.has_user_id(user_id)
        || !bcrypt_checkable(s.user_at(user_id).password_hash@)))
}

/// The check guarding destructive account operations: the supplied
/// credentials must repeat the authenticated username, name an active
/// account, and carry the correct password.
pub fn validate_user_with_credentials(
    store: &Store,
    username: &String,
    user_id: i64,
    credential_name: &String,
    credential_password: &String,
) -> (r: Result<bool, AppError>)
    requires
        store.wf(),
    ensures
        r is Ok <==> credentials_answerable(*store, username@, user_id, credential_name@),
        r matches Ok(b) ==> b == (credential_name@ == username@ && store.has_active_username(
            credential_name@,
        ) && store.has_user_id(user_id) && bcrypt_accepts(
            credential_password@,
            store.user_at(user_id).password_hash@,
        )),
        r matches Err(e) ==> e == AppError::ViolatedAssertion,
{
    if !(*credential_name == *username) {
        return Ok(false);
    }
    if !user_exists_and_is_active(store, credential_name) {
        return Ok(false);
    }
    let password = get_password(store, user_id)?;
    match verify_password(credential_password, &password) {
        Ok(b) => Ok(b),
        Err(e) => Err(e),
    }
}

/// Replay one user's event log into the current balance and funded flag at
/// time `now`. A missing user, a corrupted log or a replay outside the
/// machine range is an internal failure, never a silent answer.
pub fn compute_balance_for_user(store: &Store, user_id: i64, now: i64, cfg: &LedgerConfig) -> (r:
    Result<crate::ledger::BalanceInfo, AppError>)
    requires
        store.wf(),
        store.clock_ok(now as int),
        0 <= now,
        cfg.wf(),
    ensures
        r is Ok <==> store.has_user_id(user_id) && !ledger_corrupt(
            store.user_at(user_id).events@,
            cfg.hourly_cost as int,
        ) && ledger_fits(store.user_at(user_id).events@, now as int, *cfg),
        r matches Ok(b) ==> b.balance == crate::ledger::ledger_balance(
            store.user_at(user_id).events@,
            now as int,
            *cfg,
        ) && b.is_funded == ledger_funded(store.user_at(user_id).events@, now as int, *cfg),
        r matches Err(e) ==> e == AppError::ViolatedAssertion,
{
    let uidx = match store.find_user(user_id) {
        Some(i) => i,
        None => {
            return Err(AppError::ViolatedAssertion);
        },
    };
    proof {
        lemma_user_index_unique(*store, user_id, uidx as int);
        assert(crate::store::events_valid(store.users@[uidx as int].events@));
        assert forall|k: int|
            0 <= k < store.users@[uidx as int].events@.len() implies #[trigger] store.users@[uidx as int].events@[k].at() <= now as int by {
            assert(store.users@[uidx as int].events@[k].at() <= now as int);
        }
    }
    compute_balance(&store.users[uidx].events, now, cfg)
}

/// The funding guard's judgement for one user at time `now`: `Ok` exactly when
/// the replayed balance is strictly above the threshold.
pub fn is_funded(store: &Store, user_id: i64, now: i64, cfg: &LedgerConfig) -> (r: Result<
    (),
    AppError,
>)
    requires
        store.wf(),
        store.clock_ok(now as int),
        0 <= now,
        cfg.wf(),
    ensures
        match r {
            Ok(()) => store.has_user_id(user_id) && !ledger_corrupt(
                store.user_at(user_id).events@,
                cfg.hourly_cost as int,
            ) && ledger_fits(store.user_at(user_id).events@, now as int, *cfg) && ledger_funded(
                store.user_at(user_id).events@,
                now as int,
                *cfg,
            ),
            Err(e) => {
                &&& (e == AppError::Underfunded <==> store.has_user_id(user_id) && !ledger_corrupt(
                    store.user_at(user_id).events@,
                    cfg.hourly_cost as int,
                ) && ledger_fits(store.user_at(user_id).events@, now as int, *cfg)
                    && !ledger_funded(store.user_at(user_id).events@, now as int, *cfg))
                &&& (e == AppError::Underfunded || e == AppError::ViolatedAssertion)
                &&& (e == AppError::ViolatedAssertion ==> !store.has_user_id(user_id)
                    || ledger_corrupt(store.user_at(user_id).events@, cfg.hourly_cost as int)
                    || !ledger_fits(store.user_at(user_id).events@, now as int, *cfg))
            },
        },
{
    let info = compute_balance_for_user(store, user_id, now, cfg)?;
    if info.is_funded {
        Ok(())
    } else {
        Err(AppError::Underfunded)
    }
}

/// Sign up a new account: reject a (case-insensitively) taken username with
/// `Conflict`, an invalid one with `InvalidUsername`, then hash the password
/// and append the user row with a fresh id and the default (empty) event
/// log. An internal failure means hashing failed or the id space is spent;
/// the store is unchanged on every error.
pub fn signup(store: &mut Store, user: SignupCredentials, now: i64) -> (r: Result<(), AppError>)
    requires
        old(store).wf(),
        0 <= now,
    ensures
        final(store).wf(),
        final(store).tokens == old(store).tokens,
        final(store).notes == old(store).notes,
        final(store).shares == old(store).shares,
        match r {
            Ok(()) => {
                &&& !old(store).has_username_ci(user.name@)
                &&& username_chars_ok(user.name@)
                &&& old(store).next_user_id < i64::MAX
                &&& final(store).next_user_id == old(store).next_user_id + 1
                &&& final(store).users@.len() == old(store).users@.len() + 1
                &&& final(store).users@ == old(store).users@.push(final(store).users@.last())
                &&& ({
                    let u = final(store).users@.last();
                    &&& u.id == old(store).next_user_id
                    &&& u.username@ == user.name@
                    &&& bcrypt_accepts(user.password@, u.password_hash@)
                    &&& bcrypt_checkable(u.password_hash@)
                    &&& u.email == user.email
                    &&& u.salt is None
                    &&& u.created_at == now
                    &&& u.deleted_at is None
                    &&& u.events@.len() == 0
                })
            },
            Err(e) => {
                &&& final(store).users == old(store).users
                &&& final(store).next_user_id == old(store).next_user_id
                &&& (e == AppError::Conflict <==> old(store).has_username_ci(user.name@))
                &&& (e == AppError::InvalidUsername <==> !old(store).has_username_ci(user.name@)
                    && !username_chars_ok(user.name@))
                &&& (e == AppError::Conflict || e == AppError::InvalidUsername || e
                    == AppError::ViolatedAssertion)
            },
        },
{
    if user_exists(store, &user.name) {
        return Err(AppError::Conflict);
    }
    if !username_valid(&user.name) {
        return Err(AppError::InvalidUsername);
    }
    let hashed_password = match bcrypt_hash_password(&user.password, BCRYPT_COST) {
        Ok(h) => h,
        Err(_) => {
            return Err(AppError::ViolatedAssertion);
        },
    };
    if store.next_user_id == i64::MAX {
        return Err(AppError::ViolatedAssertion);
    }
    let ghost pre = *store;
    let rec = UserRecord {
        id: store.next_user_id,
        username: user.name,
        password_hash: hashed_password,
        email: user.email,
        salt: None,
        created_at: now,
        deleted_at: None,
        events: Vec::new(),
    };
    store.users.push(rec);
    store.next_user_id = store.next_user_id + 1;
    proof {
        let n = store.users@.len() - 1;
        assert forall|i: int, j: int|
            0 <= i < j < store.users@.len() implies #[trigger] store.users@[i].id != #[trigger] store.users@[j].id by {
            if j < n {
                assert(store.users@[i] == pre.users@[i] && store.users@[j] == pre.users@[j]);
            } else {
                assert(store.users@[i] == pre.users@[i]);
                assert(pre.users@[i].id < pre.next_user_id);
            }
        }
        assert forall|i: int, j: int|
            0 <= i < j < store.users@.len() implies #[trigger] store.users@[i].username@ != #[trigger] store.users@[j].username@ by {
            if j < n {
                assert(store.users@[i] == pre.users@[i] && store.users@[j] == pre.users@[j]);
            } else {
                assert(store.users@[i] == pre.users@[i]);
                // An exact match would also match under the case folding,
                // which the existence check ruled out.
                assert(!pre.has_username_ci(store.users@[n].username@));
                if store.users@[i].username@ == store.users@[j].username@ {
                    assert(unicode_lower(pre.users@[i].username@) == unicode_lower(
                        store.users@[n].username@,
                    ));
                }
            }
        }
        assert forall|i: int| 0 <= i < store.users@.len() implies 0 <= #[trigger] store.users@[i].id
            < store.next_user_id by {
            if i < n {
                assert(store.users@[i] == pre.users@[i]);
            }
        }
        assert forall|i: int| 0 <= i < store.users@.len() implies 0
            <= #[trigger] store.users@[i].created_at by {
            if i < n {
                assert(store.users@[i] == pre.users@[i]);
            }
        }
        assert forall|i: int| 0 <= i < store.users@.len() implies crate::store::events_valid(
            #[trigger] store.users@[i].events@,
        ) by {
            if i < n {
                assert(store.users@[i] == pre.users@[i]);
            }
        }
        crate::store::lemma_shares_linked_same_tables(pre, *store);
    }
    Ok(())
}

/// Log in: check the username names an active account, verify the password,
/// then issue and persist a fresh 128-character session token, which the
/// transport layer sets as an HTTP-only cookie. Bad usernames and bad
/// passwords are indistinguishable to the caller.
pub fn login(store: &mut Store, user: &UserCredentials, now: i64) -> (r: Result<String, AppError>)
    requires
        old(store).wf(),
        0 <= now,
    ensures
        final(store).wf(),
        final(store).users == old(store).users,
        final(store).notes == old(store).notes,
        final(store).shares == old(store).shares,
        final(store).next_user_id == old(store).next_user_id,
        match r {
            Ok(t) => {
                &&& old(store).has_active_username(user.name@)
                &&& bcrypt_checkable(old(store).active_user_at(user.name@).password_hash@)
                &&& bcrypt_accepts(
                    user.password@,
                    old(store).active_user_at(user.name@).password_hash@,
                )
                &&& t@.len() == crate::util::AUTH_TOKEN_LENGTH as int
                &&& !old(store).has_token(t@)
                &&& final(store).tokens@ == old(store).tokens@.push(
                    (crate::store::TokenRecord {
                        token: t,
                        user_id: old(store).active_user_at(user.name@).id,
                        created_at: now,
                    }),
                )
            },
            Err(e) => {
                &&& final(store).tokens == old(store).tokens
                &&& (e == AppError::Unauthorized || e == AppError::ViolatedAssertion)
                &&& (e == AppError::Unauthorized <==> !old(store).has_active_username(user.name@)
                    || (bcrypt_checkable(old(store).active_user_at(user.name@).password_hash@)
                    && !bcrypt_accepts(
                    user.password@,
                    old(store).active_user_at(user.name@).password_hash@,
                )))
                &&& (e == AppError::ViolatedAssertion ==> old(store).has_active_username(
                    user.name@,
                ) && (!bcrypt_checkable(old(store).active_user_at(user.name@).password_hash@)
                    || bcrypt_accepts(
                    user.password@,
                    old(store).active_user_at(user.name@).password_hash@,
                )))
            },
        },
{
    let uidx = match find_active_user_by_name(store, &user.name) {
        Some(i) => i,
        None => {
            return Err(AppError::Unauthorized);
        },
    };
    proof {
        lemma_active_user_index_unique(*store, user.name@, uidx as int);
    }
    let password = store.users[uidx].password_hash.clone();
    match verify_password(&user.password, &password) {
        Ok(true) => {},
        Ok(false) => {
            return Err(AppError::Unauthorized);
        },
        Err(e) => {
            return Err(e);
        },
    }
    let token = crate::util::get_auth_token();
    match crate::authentication::store_auth_token(store, &user.name, &token, now) {
        Ok(()) => Ok(token),
        Err(e) => Err(e),
    }
}

/// Change the password of the authenticated account: the request must
/// repeat the username, match the authenticated id and carry the current
/// password; then the stored hash is replaced by one of the new password.
pub fn change_password(store: &mut Store, user_id: i64, credentials: &PasswordChangeRequest) -> (r:
    Result<(), AppError>)
    requires
        old(store).wf(),
    ensures
        final(store).wf(),
        final(store).tokens == old(store).tokens,
        final(store).notes == old(store).notes,
        final(store).shares == old(store).shares,
        final(store).next_user_id == old(store).next_user_id,
        match r {
            Ok(()) => {
                &&& old(store).has_active_username(credentials.name@)
                &&& old(store).active_user_at(credentials.name@).id == user_id
                &&& bcrypt_checkable(
                    old(store).active_user_at(credentials.name@).password_hash@,
                )
                &&& bcrypt_accepts(
                    credentials.password@,
                    old(store).active_user_at(credentials.name@).password_hash@,
                )
                &&& final(store).users@.len() == old(store).users@.len()
                &&& ({
                    let i = old(store).active_user_index(credentials.name@);
                    let u = final(store).users@[i];
                    &&& final(store).users@ == old(store).users@.update(i, u)
                    &&& bcrypt_accepts(credentials.password_new@, u.password_hash@)
                    &&& bcrypt_checkable(u.password_hash@)
                    &&& u == (UserRecord { password_hash: u.password_hash, ..old(store).users@[i] })
                })
            },
            Err(e) => {
                &&& final(store).users == old(store).users
                &&& (e == AppError::Unauthorized || e == AppError::ViolatedAssertion)
                &&& (e == AppError::Unauthorized <==> !(old(store).has_active_username(
                    credentials.name@,
                ) && old(store).active_user_at(credentials.name@).id == user_id) || (
                bcrypt_checkable(old(store).active_user_at(credentials.name@).password_hash@)
                    && !bcrypt_accepts(
                    credentials.password@,
                    old(store).active_user_at(credentials.name@).password_hash@,
                )))
                &&& (e == AppError::ViolatedAssertion ==> old(store).has_active_username(
                    credentials.name@,
                ) && old(store).active_user_at(credentials.name@).id == user_id && (
                !bcrypt_checkable(old(store).active_user_at(credentials.name@).password_hash@)
                    || bcrypt_accepts(
                    credentials.password@,
                    old(store).active_user_at(credentials.name@).password_hash@,
                )))
            },
        },
{
    if !user_exists_and_matches_id(store, &credentials.name, user_id) {
        return Err(AppError::Unauthorized);
    }
    let password = get_password(store, user_id)?;
    proof {
        lemma_active_user_index_unique(
            *store,
            credentials.name@,
            store.active_user_index(credentials.name@),
        );
        lemma_user_index_unique(*store, user_id, store.active_user_index(credentials.name@));
    }
    match verify_password(&credentials.password, &password) {
        Ok(true) => {},
        Ok(false) => {
            return Err(AppError::Unauthorized);
        },
        Err(e) => {
            return Err(e);
        },
    }
    let hashed_password = match bcrypt_hash_password(&credentials.password_new, BCRYPT_COST) {
        Ok(h) => h,
        Err(_) => {
            return Err(AppError::ViolatedAssertion);
        },
    };
    let uidx = match store.find_user(user_id) {
        Some(i) => i,
        None => {
            return Err(AppError::ViolatedAssertion);
        },
    };
    proof {
        lemma_user_index_unique(*store, user_id, uidx as int);
    }
    let ghost pre = *store;
    store.users[uidx].password_hash = hashed_password;
    proof {
        lemma_wf_user_record_updated(pre, *store, uidx as int);
    }
    Ok(())
}

/// Store the client-side salt for an account, only if none is stored yet:
/// an already-present salt (or a missing account) is a conflict, never an
/// overwrite.
pub fn store_salt(store: &mut Store, user_id: i64, salt: String) -> (r: Result<(), AppError>)
    requires
        old(store).wf(),
    ensures
        final(store).wf(),
        final(store).tokens == old(store).tokens,
        final(store).notes == old(store).notes,
        final(store).shares == old(store).shares,
        final(store).next_user_id == old(store).next_user_id,
        match r {
            Ok(()) => {
                &&& old(store).has_user_id(user_id)
                &&& old(store).user_at(user_id).salt is None
                &&& final(store).users@ == old(store).users@.update(
                    old(store).user_index(user_id),
                    (UserRecord { salt: Some(salt), ..old(store).user_at(user_id) }),
                )
            },
            Err(e) => {
                &&& e == AppError::Conflict
                &&& !(old(store).has_user_id(user_id) && old(store).user_at(user_id).salt is None)
                &&& final(store).users == old(store).users
            },
        },
{
    let uidx = match store.find_user(user_id) {
        Some(i) => i,
        None => {
            return Err(AppError::Conflict);
        },
    };
    proof {
        lemma_user_index_unique(*store, user_id, uidx as int);
    }
    if store.users[uidx].salt.is_some() {
        return Err(AppError::Conflict);
    }
    let ghost pre = *store;
    store.users[uidx].salt = Some(salt);
    proof {
        lemma_wf_user_record_updated(pre, *store, uidx as int);
    }
    Ok(())
}

/// What the info endpoint reports for an account; a missing row is an
/// internal failure since the id comes from an authenticated session.
pub fn get_user_info(store: &Store, user_id: i64) -> (r: Result<UserInfo, AppError>)
    requires
        store.wf(),
    ensures
        match r {
            Ok(info) => {
                &&& store.has_user_id(user_id)
                &&& info.salt == store.user_at(user_id).salt
                &&& info.username@ == store.user_at(user_id).username@
                &&& info.email == store.user_at(user_id).email
            },
            Err(e) => e == AppError::ViolatedAssertion && !store.has_user_id(user_id),
        },
{
    let uidx = match store.find_user(user_id) {
        Some(i) => i,
        None => {
            return Err(AppError::ViolatedAssertion);
        },
    };
    proof {
        lemma_user_index_unique(*store, user_id, uidx as int);
    }
    let salt = match &store.users[uidx].salt {
        Some(s) => Some(s.clone()),
        None => None,
    };
    let email = match &store.users[uidx].email {
        Some(s) => Some(s.clone()),
        None => None,
    };
    Ok(UserInfo { salt, username: store.users[uidx].username.clone(), email })
}

/// Remove every share owned by `user_id`.
fn delete_shares_of_user(store: &mut Store, user_id: i64)
    requires
        old(store).wf(),
    ensures
        final(store).wf(),
        final(store).users == old(store).users,
        final(store).tokens == old(store).tokens,
        final(store).notes == old(store).notes,
        final(store).next_user_id == old(store).next_user_id,
        final(store).shares@ == old(store).shares@.filter(
            |s: crate::store::ShareRecord| s.user_id != user_id,
        ),
{
    let ghost pre = *store;
    let ghost pred = |s: crate::store::ShareRecord| s.user_id != user_id;
    let n = store.shares.len();
    let mut kept: Vec<crate::store::ShareRecord> = Vec::new();
    let mut i: usize = 0;
    proof {
        reveal(Seq::filter);
    }
    while i < n
        invariant
            n == store.shares@.len(),
            i <= n,
            *store == pre,
            pred == (|s: crate::store::ShareRecord| s.user_id != user_id),
            kept@ == pre.shares@.take(i as int).filter(pred),
        decreases n - i,
    {
        proof {
            reveal(Seq::filter);
            assert(pre.shares@.take(i + 1).drop_last() =~= pre.shares@.take(i as int));
            assert(pre.shares@.take(i + 1).last() == pre.shares@[i as int]);
        }
        if store.shares[i].user_id != user_id {
            let rec = crate::shares::clone_share_record(&store.shares[i]);
            kept.push(rec);
        }
        i = i + 1;
    }
    proof {
        assert(pre.shares@.take(n as int) =~= pre.shares@);
    }
    store.shares = kept;
    proof {
        crate::store::lemma_filter_members(pre.shares@, pred);
        crate::store::lemma_filter_distinct(
            pre.shares@,
            pred,
            |s: crate::store::ShareRecord| s.token@,
        );
        crate::store::lemma_filter_distinct(
            pre.shares@,
            pred,
            |s: crate::store::ShareRecord| s.note_token@,
        );
        crate::store::lemma_wf_shares_changed(pre, *store);
    }
}

/// Remove every note owned by `user_id`; callable only once the user's
/// shares are gone, so no surviving share loses its note.
fn delete_notes_of_user(store: &mut Store, user_id: i64)
    requires
        old(store).wf(),
        forall|k: int|
            0 <= k < old(store).shares@.len() ==> #[trigger] old(store).shares@[k].user_id
                != user_id,
    ensures
        final(store).wf(),
        final(store).users == old(store).users,
        final(store).tokens == old(store).tokens,
        final(store).shares == old(store).shares,
        final(store).next_user_id == old(store).next_user_id,
        final(store).notes@ == old(store).notes@.filter(
            |nr: crate::store::NoteRecord| nr.user_id != user_id,
        ),
{
    let ghost pre = *store;
    let ghost pred = |nr: crate::store::NoteRecord| nr.user_id != user_id;
    let n = store.notes.len();
    let mut kept: Vec<crate::store::NoteRecord> = Vec::new();
    let mut i: usize = 0;
    proof {
        reveal(Seq::filter);
    }
    while i < n
        invariant
            n == store.notes@.len(),
            i <= n,
            *store == pre,
            pred == (|nr: crate::store::NoteRecord| nr.user_id != user_id),
            kept@ == pre.notes@.take(i as int).filter(pred),
        decreases n - i,
    {
        proof {
            reveal(Seq::filter);
            assert(pre.notes@.take(i + 1).drop_last() =~= pre.notes@.take(i as int));
            assert(pre.notes@.take(i + 1).last() == pre.notes@[i as int]);
        }
        if store.notes[i].user_id != user_id {
            let rec = crate::notes::clone_note_record(&store.notes[i]);
            kept.push(rec);
        }
        i = i + 1;
    }
    proof {
        assert(pre.notes@.take(n as int) =~= pre.notes@);
    }
    store.notes = kept;
    proof {
        crate::store::lemma_filter_members(pre.notes@, pred);
        crate::store::lemma_filter_distinct(
            pre.notes@,
            pred,
            |nr: crate::store::NoteRecord| nr.token@,
        );
        assert forall|k: int|
            0 <= k < store.shares@.len() implies store.notes@.contains(
            pre.note_at(#[trigger] store.shares@[k].note_token@),
        ) by {
            let nt = pre.shares@[k].note_token@;
            assert(pre.has_note(nt));
            let ni = pre.note_index(nt);
            assert(pred(pre.notes@[ni]));
            pre.notes@.lemma_filter_contains(pred, ni);
        }
        crate::store::lemma_wf_notes_changed(pre, *store);
    }
}

/// Delete all user data: in one atomic transition the user's shares, notes
/// and session tokens are removed and the account itself is soft-deleted,
/// preserving the audit trail (the account row and its event log).
pub fn delete_all_user_data(store: &mut Store, user_id: i64, now: i64) -> (r: Result<
    (),
    AppError,
>)
    requires
        old(store).wf(),
        0 <= now,
    ensures
        final(store).wf(),
        r is Ok,
        final(store).next_user_id == old(store).next_user_id,
        final(store).shares@ == old(store).shares@.filter(
            |s: crate::store::ShareRecord| s.user_id != user_id,
        ),
        final(store).notes@ == old(store).notes@.filter(
            |nr: crate::store::NoteRecord| nr.user_id != user_id,
        ),
        final(store).tokens@ == old(store).tokens@.filter(
            |t: crate::store::TokenRecord| t.user_id != user_id,
        ),
        if old(store).has_user_id(user_id) {
            final(store).users@ == old(store).users@.update(
                old(store).user_index(user_id),
                (UserRecord { deleted_at: Some(now), ..old(store).user_at(user_id) }),
            )
        } else {
            final(store).users == old(store).users
        },
{
    delete_shares_of_user(store, user_id);
    proof {
        old(store).shares@.lemma_filter_len(|s: crate::store::ShareRecord| s.user_id != user_id);
        assert forall|k: int|
            0 <= k < store.shares@.len() implies #[trigger] store.shares@[k].user_id != user_id by {
            old(store).shares@.lemma_filter_pred(
                |s: crate::store::ShareRecord| s.user_id != user_id,
                k,
            );
        }
    }
    delete_notes_of_user(store, user_id);
    crate::authentication::delete_all_auth_tokens(store, user_id);
    let uidx = match store.find_user(user_id) {
        Some(i) => i,
        None => {
            proof {
                crate::store::lemma_user_lookups_agree(*store, *old(store), user_id);
            }
            return Ok(());
        },
    };
    proof {
        lemma_user_index_unique(*store, user_id, uidx as int);
        crate::store::lemma_user_lookups_agree(*store, *old(store), user_id);
    }
    let ghost pre = *store;
    store.users[uidx].deleted_at = Some(now);
    proof {
        lemma_wf_user_record_updated(pre, *store, uidx as int);
    }
    Ok(())
}

/// The supplied credentials confirm the authenticated identity: they repeat
/// its username, name an active account, and carry the account's password.
pub open spec fn credentials_valid(
    s: Store,
    username: Seq<char>,
    user_id: i64,
    name: Seq<char>,
    password: Seq<char>,
) -> bool {
    &&& name == username
    &&& s.has_active_username(name)
    &&& s.has_user_id(user_id)
    &&& bcrypt_accepts(password, s.user_at(user_id).password_hash@)
}

/// Delete the authenticated user's account after re-confirming the
/// credentials; wrong credentials fail with `Unauthorized` and change
/// nothing.
pub fn delete_user(
    store: &mut Store,
    user: &crate::authentication::AuthenticatedUser,
    credentials: &UserCredentials,
    now: i64,
) -> (r: Result<(), AppError>)
    requires
        old(store).wf(),
        0 <= now,
    ensures
        final(store).wf(),
        final(store).next_user_id == old(store).next_user_id,
        match r {
            Ok(()) => {
                &&& credentials_valid(
                    *old(store),
                    user.username@,
                    user.user_id,
                    credentials.name@,
                    credentials.password@,
                )
                &&& final(store).shares@ == old(store).shares@.filter(
                    |s: crate::store::ShareRecord| s.user_id != user.user_id,
                )
                &&& final(store).notes@ == old(store).notes@.filter(
                    |nr: crate::store::NoteRecord| nr.user_id != user.user_id,
                )
                &&& final(store).tokens@ == old(store).tokens@.filter(
                    |t: crate::store::TokenRecord| t.user_id != user.user_id,
                )
                &&& final(store).users@ == old(store).users@.update(
                    old(store).user_index(user.user_id),
                    (UserRecord {
                        deleted_at: Some(now),
                        ..old(store).user_at(user.user_id)
                    }),
                )
            },
            Err(e) => {
                &&& *final(store) == *old(store)
                &&& (e == AppError::Unauthorized || e == AppError::ViolatedAssertion)
                &&& (e == AppError::Unauthorized <==> credentials_answerable(
                    *old(store),
                    user.username@,
                    user.user_id,
                    credentials.name@,
                ) && !credentials_valid(
                    *old(store),
                    user.username@,
                    user.user_id,
                    credentials.name@,
                    credentials.password@,
                ))
                &&& (e == AppError::ViolatedAssertion <==> !credentials_answerable(
                    *old(store),
                    user.username@,
                    user.user_id,
                    credentials.name@,
                ))
            },
        },
{
    match validate_user_with_credentials(
        store,
        &user.username,
        user.user_id,
        &credentials.name,
        &credentials.password,
    ) {
        Ok(true) => {},
        Ok(false) => {
            return Err(AppError::Unauthorized);
        },
        Err(e) => {
            return Err(e);
        },
    }
    delete_all_user_data(store, user.user_id, now)
}

/// Invalidate every session of the authenticated user after re-confirming
/// the credentials; the transport layer then clears the cookie.
pub fn invalidate_sessions(
    store: &mut Store,
    user: &crate::authentication::AuthenticatedUser,
    credentials: &UserCredentials,
) -> (r: Result<(), AppError>)
    requires
        old(store).wf(),
    ensures
        final(store).wf(),
        final(store).users == old(store).users,
        final(store).notes == old(store).notes,
        final(store).shares == old(store).shares,
        final(store).next_user_id == old(store).next_user_id,
        match r {
            Ok(()) => {
                &&& credentials_valid(
                    *old(store),
                    user.username@,
                    user.user_id,
                    credentials.name@,
                    credentials.password@,
                )
                &&& final(store).tokens@ == old(store).tokens@.filter(
                    |t: crate::store::TokenRecord| t.user_id != user.user_id,
                )
            },
            Err(e) => {
                &&& final(store).tokens == old(store).tokens
                &&& (e == AppError::Unauthorized || e == AppError::ViolatedAssertion)
                &&& (e == AppError::Unauthorized <==> credentials_answerable(
                    *old(store),
                    user.username@,
                    user.user_id,
                    credentials.name@,
                ) && !credentials_valid(
                    *old(store),
                    user.username@,
                    user.user_id,
                    credentials.name@,
                    credentials.password@,
                ))
                &&& (e == AppError::ViolatedAssertion <==> !credentials_answerable(
                    *old(store),
                    user.username@,
                    user.user_id,
                    credentials.name@,
                ))
            },
        },
{
    match validate_user_with_credentials(
        store,
        &user.username,
        user.user_id,
        &credentials.name,
        &credentials.password,
    ) {
        Ok(true) => {},
        Ok(false) => {
            return Err(AppError::Unauthorized);
        },
        Err(e) => {
            return Err(e);
        },
    }
    crate::authentication::delete_all_auth_tokens(store, user.user_id);
    Ok(())
}

/// A record update that keeps id, username, timestamps and events preserves
/// the whole store invariant.
proof fn lemma_wf_user_record_updated(pre: Store, post: Store, i: int)
    requires
        pre.wf(),
        0 <= i < pre.users@.len(),
        post.tokens == pre.tokens,
        post.notes == pre.notes,
        post.shares == pre.shares,
        post.next_user_id == pre.next_user_id,
        post.users@ == pre.users@.update(i, post.users@[i]),
        post.users@[i].id == pre.users@[i].id,
        post.users@[i].username == pre.users@[i].username,
        post.users@[i].created_at == pre.users@[i].created_at,
        post.users@[i].events == pre.users@[i].events,
    ensures
        post.wf(),
{
    assert forall|a: int, b: int|
        0 <= a < b < post.users@.len() implies #[trigger] post.users@[a].id != #[trigger] post.users@[b].id by {
        assert(post.users@[a].id == pre.users@[a].id && post.users@[b].id == pre.users@[b].id);
    }
    assert forall|a: int, b: int|
        0 <= a < b < post.users@.len() implies #[trigger] post.users@[a].username@ != #[trigger] post.users@[b].username@ by {
        assert(post.users@[a].username == pre.users@[a].username && post.users@[b].username
            == pre.users@[b].username);
    }
    assert forall|a: int| 0 <= a < post.users@.len() implies 0 <= #[trigger] post.users@[a].id
        < post.next_user_id by {
        assert(post.users@[a].id == pre.users@[a].id);
    }
    assert forall|a: int| 0 <= a < post.users@.len() implies 0
        <= #[trigger] post.users@[a].created_at by {
        assert(post.users@[a].created_at == pre.users@[a].created_at);
    }
    assert forall|a: int| 0 <= a < post.users@.len() implies crate::store::events_valid(
        #[trigger] post.users@[a].events@,
    ) by {
        assert(post.users@[a].events == pre.users@[a].events);
    }
    crate::store::lemma_shares_linked_same_tables(pre, post);
}

} // verus!
