//! The persisted state of the service, modelled as plain in-memory tables.
//!
//! The storage engine itself (a relational database in a deployment) is an
//! external collaborator; the engine's operations are specified and verified
//! against this model. Timestamps are seconds, identifiers are integers, and
//! every opaque blob (token, metadata, key, content) is a plain string.

use vstd::prelude::*;

verus! {

/// One stored session token: the token string is the sole proof of validity,
/// deletion is revocation.
pub struct TokenRecord {
    pub token: String,
    pub user_id: i64,
    pub created_at: i64,
}

/// One immutable entry of a user's usage-event log, ordered by time.
pub enum UsageEvent {
    /// Credit injected as an already-validated fact.
    FundsAdded { at: i64, amount: i64 },
    /// Metering begins; must be followed by a pause before the next start.
    SessionStart { at: i64 },
    /// Metering ends; must close an open start.
    SessionPause { at: i64 },
}

impl UsageEvent {
    /// The time at which the event occurred.
    pub open spec fn at(self) -> int {
        match self {
            UsageEvent::FundsAdded { at, .. } => at as int,
            UsageEvent::SessionStart { at } => at as int,
            UsageEvent::SessionPause { at } => at as int,
        }
    }
}

/// Events are stored ordered by time, with non-negative times and amounts.
pub open spec fn events_valid(events: Seq<UsageEvent>) -> bool {
    &&& forall|k: int| 0 <= k < events.len() ==> 0 <= #[trigger] events[k].at()
    &&& forall|k1: int, k2: int|
        0 <= k1 <= k2 < events.len() ==> #[trigger] events[k1].at() <= #[trigger] events[k2].at()
    &&& forall|k: int|
        0 <= k < events.len() ==> match #[trigger] events[k] {
            UsageEvent::FundsAdded { amount, .. } => 0 <= amount,
            _ => true,
        }
}

/// One account. Accounts are soft-deleted, never removed, so the audit trail
/// (including the usage-event log) survives account deletion.
pub struct UserRecord {
    pub id: i64,
    pub username: String,
    pub password_hash: String,
    pub email: Option<String>,
    pub salt: Option<String>,
    pub created_at: i64,
    pub deleted_at: Option<i64>,
    pub events: Vec<UsageEvent>,
}

/// One note. The metadata, key and content blobs are encrypted client-side
/// and never interpreted here. A set `deleted_at` marks a soft deletion.
pub struct NoteRecord {
    pub token: String,
    pub user_id: i64,
    pub created_at: i64,
    pub modified_at: i64,
    pub deleted_at: Option<i64>,
    pub metadata: String,
    pub key: String,
    pub content: String,
}

/// One share link, referencing exactly one live note of the same owner.
pub struct ShareRecord {
    pub token: String,
    pub note_token: String,
    pub user_id: i64,
    pub created_at: i64,
    pub expires_at: Option<i64>,
    pub public: Option<String>,
    pub view_count: u64,
}

/// The whole store: users, session tokens, notes and shares.
pub struct Store {
    pub users: Vec<UserRecord>,
    pub tokens: Vec<TokenRecord>,
    pub notes: Vec<NoteRecord>,
    pub shares: Vec<ShareRecord>,
    /// The next user id handed out at signup; all stored ids are below it.
    pub next_user_id: i64,
}

/// The Unicode lowercase folding of a string, as `str::to_lowercase`
/// computes it (see the trusted wrapper in the users module): usernames are
/// stored case-sensitively, but the signup existence check compares them
/// through this folding, as the relational `lower()` would in a deployment.
pub uninterp spec fn unicode_lower(s: Seq<char>) -> Seq<char>;

impl Store {
    /// A fresh store with no rows.
    pub fn new() -> (s: Store)
        ensures
            s.wf(),
            s.users@ =~= Seq::<UserRecord>::empty(),
            s.tokens@ =~= Seq::<TokenRecord>::empty(),
            s.notes@ =~= Seq::<NoteRecord>::empty(),
            s.shares@ =~= Seq::<ShareRecord>::empty(),
            s.next_user_id == 1,
    {
        Store {
            users: Vec::new(),
            tokens: Vec::new(),
            notes: Vec::new(),
            shares: Vec::new(),
            next_user_id: 1,
        }
    }

    // ----- session tokens -----

    pub open spec fn has_token(self, t: Seq<char>) -> bool {
        exists|i: int| 0 <= i < self.tokens@.len() && #[trigger] self.tokens@[i].token@ == t
    }

    /// The index of the token `t`; meaningful only when `has_token(t)`.
    pub open spec fn token_index(self, t: Seq<char>) -> int {
        choose|i: int| 0 <= i < self.tokens@.len() && #[trigger] self.tokens@[i].token@ == t
    }

    /// The stored row of token `t`; meaningful only when `has_token(t)`.
    pub open spec fn token_at(self, t: Seq<char>) -> TokenRecord {
        self.tokens@[self.token_index(t)]
    }

    // ----- users -----

    pub open spec fn has_user_id(self, id: i64) -> bool {
        exists|i: int| 0 <= i < self.users@.len() && #[trigger] self.users@[i].id == id
    }

    /// The index of the user with id `id`; meaningful only when `has_user_id(id)`.
    pub open spec fn user_index(self, id: i64) -> int {
        choose|i: int| 0 <= i < self.users@.len() && #[trigger] self.users@[i].id == id
    }

    /// The stored row of user `id`; meaningful only when `has_user_id(id)`.
    pub open spec fn user_at(self, id: i64) -> UserRecord {
        self.users@[self.user_index(id)]
    }

    /// Some account (deleted or not) has this username, compared
    /// case-insensitively through [`unicode_lower`]; this is the signup
    /// existence check.
    pub open spec fn has_username_ci(self, name: Seq<char>) -> bool {
        exists|i: int|
            0 <= i < self.users@.len() && unicode_lower(#[trigger] self.users@[i].username@)
                == unicode_lower(name)
    }

    /// A not-deleted account stores exactly this username.
    pub open spec fn has_active_username(self, name: Seq<char>) -> bool {
        exists|i: int|
            0 <= i < self.users@.len() && #[trigger] self.users@[i].username@ == name
                && self.users@[i].deleted_at is None
    }

    /// The index of the active user named `name`; meaningful only when
    /// `has_active_username(name)`.
    pub open spec fn active_user_index(self, name: Seq<char>) -> int {
        choose|i: int|
            0 <= i < self.users@.len() && #[trigger] self.users@[i].username@ == name
                && self.users@[i].deleted_at is None
    }

    /// The active user record named `name`.
    pub open spec fn active_user_at(self, name: Seq<char>) -> UserRecord {
        self.users@[self.active_user_index(name)]
    }

    // ----- notes -----

    pub open spec fn has_note(self, t: Seq<char>) -> bool {
        exists|i: int| 0 <= i < self.notes@.len() && #[trigger] self.notes@[i].token@ == t
    }

    /// The index of the note with token `t`; meaningful only when `has_note(t)`.
    pub open spec fn note_index(self, t: Seq<char>) -> int {
        choose|i: int| 0 <= i < self.notes@.len() && #[trigger] self.notes@[i].token@ == t
    }

    /// The stored row of note `t`; meaningful only when `has_note(t)`.
    pub open spec fn note_at(self, t: Seq<char>) -> NoteRecord {
        self.notes@[self.note_index(t)]
    }

    /// Note `t` exists, is owned by `user_id`, and is not soft-deleted: the
    /// condition under which reads and mutations of a note succeed.
    pub open spec fn has_live_note(self, user_id: i64, t: Seq<char>) -> bool {
        self.has_note(t) && self.note_at(t).user_id == user_id && self.note_at(t).deleted_at is None
    }

    // ----- shares -----

    pub open spec fn has_share(self, t: Seq<char>) -> bool {
        exists|i: int| 0 <= i < self.shares@.len() && #[trigger] self.shares@[i].token@ == t
    }

    /// The index of the share with token `t`; meaningful only when `has_share(t)`.
    pub open spec fn share_index(self, t: Seq<char>) -> int {
        choose|i: int| 0 <= i < self.shares@.len() && #[trigger] self.shares@[i].token@ == t
    }

    /// The stored row of share `t`; meaningful only when `has_share(t)`.
    pub open spec fn share_at(self, t: Seq<char>) -> ShareRecord {
        self.shares@[self.share_index(t)]
    }

    /// Some share references the note with token `nt` (at most one can).
    pub open spec fn has_share_for_note(self, nt: Seq<char>) -> bool {
        exists|i: int| 0 <= i < self.shares@.len() && #[trigger] self.shares@[i].note_token@ == nt
    }

    // ----- well-formedness -----

    /// Every stored timestamp is non-negative.
    pub open spec fn times_ok(self) -> bool {
        &&& forall|i: int| 0 <= i < self.tokens@.len() ==> 0 <= #[trigger] self.tokens@[i].created_at
        &&& forall|i: int|
            0 <= i < self.users@.len() ==> 0 <= #[trigger] self.users@[i].created_at
        &&& forall|i: int|
            0 <= i < self.notes@.len() ==> 0 <= #[trigger] self.notes@[i].created_at && 0
                <= self.notes@[i].modified_at && match self.notes@[i].deleted_at {
                Some(d) => 0 <= d,
                None => true,
            }
        &&& forall|i: int| 0 <= i < self.shares@.len() ==> 0 <= #[trigger] self.shares@[i].created_at
    }

    /// Token strings are unique: the token is the primary key.
    pub open spec fn tokens_unique(self) -> bool {
        forall|i: int, j: int|
            0 <= i < j < self.tokens@.len() ==> #[trigger] self.tokens@[i].token@ != #[trigger] self.tokens@[j].token@
    }

    /// Note tokens are unique.
    pub open spec fn notes_unique(self) -> bool {
        forall|i: int, j: int|
            0 <= i < j < self.notes@.len() ==> #[trigger] self.notes@[i].token@ != #[trigger] self.notes@[j].token@
    }

    /// Share tokens are unique, and no two shares reference the same note.
    pub open spec fn shares_unique(self) -> bool {
        &&& forall|i: int, j: int|
            0 <= i < j < self.shares@.len() ==> #[trigger] self.shares@[i].token@ != #[trigger] self.shares@[j].token@
        &&& forall|i: int, j: int|
            0 <= i < j < self.shares@.len() ==> #[trigger] self.shares@[i].note_token@ != #[trigger] self.shares@[j].note_token@
    }

    /// No two accounts share an id.
    pub open spec fn user_ids_distinct(self) -> bool {
        forall|i: int, j: int|
            0 <= i < j < self.users@.len() ==> #[trigger] self.users@[i].id != #[trigger] self.users@[j].id
    }

    /// No two accounts store the same username. (The signup existence check
    /// enforces more — uniqueness up to case folding — but the invariant
    /// records only the exact distinctness the lookups rest on.)
    pub open spec fn usernames_distinct(self) -> bool {
        forall|i: int, j: int|
            0 <= i < j < self.users@.len() ==> #[trigger] self.users@[i].username@ != #[trigger] self.users@[j].username@
    }

    /// User ids are unique and below `next_user_id`; usernames are unique.
    pub open spec fn users_unique(self) -> bool {
        &&& self.user_ids_distinct()
        &&& self.usernames_distinct()
        &&& 0 <= self.next_user_id
        &&& forall|i: int|
            0 <= i < self.users@.len() ==> 0 <= #[trigger] self.users@[i].id < self.next_user_id
    }

    /// Every share references an existing note of the same owner that is not
    /// soft-deleted: soft-deleting a note revokes its share in the same
    /// transaction, so no deleted note ever keeps a live link.
    pub open spec fn shares_linked(self) -> bool {
        forall|i: int|
            0 <= i < self.shares@.len() ==> {
                &&& self.has_note(#[trigger] self.shares@[i].note_token@)
                &&& self.note_at(self.shares@[i].note_token@).user_id == self.shares@[i].user_id
                &&& self.note_at(self.shares@[i].note_token@).deleted_at is None
            }
    }

    /// Every stored event log is ordered with valid entries.
    pub open spec fn events_ok(self) -> bool {
        forall|i: int| 0 <= i < self.users@.len() ==> events_valid(#[trigger] self.users@[i].events@)
    }

    /// The store invariant: every operation requires and preserves it.
    pub open spec fn wf(self) -> bool {
        &&& self.times_ok()
        &&& self.tokens_unique()
        &&& self.notes_unique()
        &&& self.shares_unique()
        &&& self.users_unique()
        &&& self.shares_linked()
        &&& self.events_ok()
    }

    /// No event of user `id` lies after `now`: the clock never runs behind
    /// the recorded history handed to a balance computation.
    pub open spec fn events_at_most(self, id: i64, now: int) -> bool {
        self.has_user_id(id) ==> forall|k: int|
            0 <= k < self.user_at(id).events@.len() ==> #[trigger] self.user_at(
                id,
            ).events@[k].at() <= now
    }

    /// No recorded event of any user lies after `now`.
    pub open spec fn clock_ok(self, now: int) -> bool {
        forall|i: int, k: int|
            0 <= i < self.users@.len() && 0 <= k < self.users@[i].events@.len()
                ==> #[trigger] self.users@[i].events@[k].at() <= now
    }

    // ----- executable lookups -----

    /// Find the position of session token `t`.
    pub fn find_token(&self, t: &String) -> (r: Option<usize>)
        ensures
            match r {
                Some(i) => i < self.tokens@.len() && self.tokens@[i as int].token@ == t@,
                None => !self.has_token(t@),
            },
            r is Some <==> self.has_token(t@),
    {
        let n = self.tokens.len();
        let mut i: usize = 0;
        while i < n
            invariant
                n == self.tokens@.len(),
                i <= n,
                forall|k: int| 0 <= k < i ==> #[trigger] self.tokens@[k].token@ != t@,
            decreases n - i,
        {
            if self.tokens[i].token == *t {
                return Some(i);
            }
            i = i + 1;
        }
        None
    }

    /// Find the position of the user with id `id`.
    pub fn find_user(&self, id: i64) -> (r: Option<usize>)
        ensures
            match r {
                Some(i) => i < self.users@.len() && self.users@[i as int].id == id,
                None => !self.has_user_id(id),
            },
            r is Some <==> self.has_user_id(id),
    {
        let n = self.users.len();
        let mut i: usize = 0;
        while i < n
            invariant
                n == self.users@.len(),
                i <= n,
                forall|k: int| 0 <= k < i ==> #[trigger] self.users@[k].id != id,
            decreases n - i,
        {
            if self.users[i].id == id {
                return Some(i);
            }
            i = i + 1;
        }
        None
    }

    /// Find the position of the note with token `t`.
    pub fn find_note(&self, t: &String) -> (r: Option<usize>)
        ensures
            match r {
                Some(i) => i < self.notes@.len() && self.notes@[i as int].token@ == t@,
                None => !self.has_note(t@),
            },
            r is Some <==> self.has_note(t@),
    {
        let n = self.notes.len();
        let mut i: usize = 0;
        while i < n
            invariant
                n == self.notes@.len(),
                i <= n,
                forall|k: int| 0 <= k < i ==> #[trigger] self.notes@[k].token@ != t@,
            decreases n - i,
        {
            if self.notes[i].token == *t {
                return Some(i);
            }
            i = i + 1;
        }
        None
    }

    /// Find the position of the share with token `t`.
    pub fn find_share(&self, t: &String) -> (r: Option<usize>)
        ensures
            match r {
                Some(i) => i < self.shares@.len() && self.shares@[i as int].token@ == t@,
                None => !self.has_share(t@),
            },
            r is Some <==> self.has_share(t@),
    {
        let n = self.shares.len();
        let mut i: usize = 0;
        while i < n
            invariant
                n == self.shares@.len(),
                i <= n,
                forall|k: int| 0 <= k < i ==> #[trigger] self.shares@[k].token@ != t@,
            decreases n - i,
        {
            if self.shares[i].token == *t {
                return Some(i);
            }
            i = i + 1;
        }
        None
    }

    /// Find the position of the share referencing note `nt`.
    pub fn find_share_for_note(&self, nt: &String) -> (r: Option<usize>)
        ensures
            match r {
                Some(i) => i < self.shares@.len() && self.shares@[i as int].note_token@ == nt@,
                None => !self.has_share_for_note(nt@),
            },
            r is Some <==> self.has_share_for_note(nt@),
    {
        let n = self.shares.len();
        let mut i: usize = 0;
        while i < n
            invariant
                n == self.shares@.len(),
                i <= n,
                forall|k: int| 0 <= k < i ==> #[trigger] self.shares@[k].note_token@ != nt@,
            decreases n - i,
        {
            if self.shares[i].note_token == *nt {
                return Some(i);
            }
            i = i + 1;
        }
        None
    }
}

/// Every element of a filtered sequence occurs in the sequence it came from.
pub proof fn lemma_filter_members<A>(s: Seq<A>, p: spec_fn(A) -> bool)
    ensures
        forall|k: int| 0 <= k < s.filter(p).len() ==> s.contains(#[trigger] s.filter(p)[k]),
    decreases s.len(),
{
    reveal(Seq::filter);
    if s.len() > 0 {
        let d = s.drop_last();
        lemma_filter_members(d, p);
        let f = s.filter(p);
        let fd = d.filter(p);
        assert forall|k: int| 0 <= k < f.len() implies s.contains(#[trigger] f[k]) by {
            if p(s.last()) && k == f.len() - 1 {
                assert(f[k] == s[s.len() - 1]);
            } else {
                assert(f[k] == fd[k]);
                assert(d.contains(fd[k]));
                let j = choose|j: int| 0 <= j < d.len() && d[j] == fd[k];
                assert(s[j] == f[k]);
            }
        }
    }
}

/// Filtering keeps keys distinct: if no two elements share a key, no two
/// elements of the filtered sequence do either.
pub proof fn lemma_filter_distinct<A, K>(s: Seq<A>, p: spec_fn(A) -> bool, key: spec_fn(A) -> K)
    requires
        forall|i: int, j: int| 0 <= i < j < s.len() ==> key(#[trigger] s[i]) != key(#[trigger] s[j]),
    ensures
        forall|i: int, j: int|
            0 <= i < j < s.filter(p).len() ==> key(#[trigger] s.filter(p)[i]) != key(
                #[trigger] s.filter(p)[j],
            ),
    decreases s.len(),
{
    reveal(Seq::filter);
    if s.len() > 0 {
        let d = s.drop_last();
        lemma_filter_distinct(d, p, key);
        lemma_filter_members(d, p);
        let f = s.filter(p);
        let fd = d.filter(p);
        assert forall|i: int, j: int| 0 <= i < j < f.len() implies key(#[trigger] f[i]) != key(
            #[trigger] f[j],
        ) by {
            if p(s.last()) && j == f.len() - 1 {
                assert(f[i] == fd[i]);
                assert(d.contains(fd[i]));
                let w = choose|w: int| 0 <= w < d.len() && d[w] == fd[i];
                assert(key(s[w]) != key(s[s.len() - 1]));
            } else {
                assert(f[i] == fd[i] && f[j] == fd[j]);
            }
        }
    }
}

/// Characterizes the indices of `s.remove(i)` and membership in `s`.
pub proof fn lemma_remove_members<A>(s: Seq<A>, i: int)
    requires
        0 <= i < s.len(),
    ensures
        s.remove(i).len() == s.len() - 1,
        forall|k: int| 0 <= k < i ==> #[trigger] s.remove(i)[k] == s[k],
        forall|k: int| i <= k < s.len() - 1 ==> #[trigger] s.remove(i)[k] == s[k + 1],
        forall|k: int| 0 <= k < s.remove(i).len() ==> s.contains(#[trigger] s.remove(i)[k]),
{
    assert forall|k: int| 0 <= k < s.remove(i).len() implies s.contains(#[trigger] s.remove(i)[k]) by {
        if k < i {
            assert(s.remove(i)[k] == s[k]);
        } else {
            assert(s.remove(i)[k] == s[k + 1]);
        }
    }
}

/// A store differing from a well-formed one only in its token table keeps
/// the invariant, provided the new tokens come from the old table and stay
/// pairwise distinct.
pub proof fn lemma_wf_tokens_changed(pre: Store, post: Store)
    requires
        pre.wf(),
        post.users == pre.users,
        post.notes == pre.notes,
        post.shares == pre.shares,
        post.next_user_id == pre.next_user_id,
        forall|k: int|
            0 <= k < post.tokens@.len() ==> pre.tokens@.contains(#[trigger] post.tokens@[k]),
        forall|i: int, j: int|
            0 <= i < j < post.tokens@.len() ==> #[trigger] post.tokens@[i].token@ != #[trigger] post.tokens@[j].token@,
    ensures
        post.wf(),
{
    assert forall|i: int| 0 <= i < post.tokens@.len() implies 0 <= #[trigger] post.tokens@[i].created_at by {
        assert(pre.tokens@.contains(post.tokens@[i]));
        let j = choose|j: int| 0 <= j < pre.tokens@.len() && pre.tokens@[j] == post.tokens@[i];
        assert(0 <= pre.tokens@[j].created_at);
    }
    assert forall|i: int| 0 <= i < post.shares@.len() implies {
        &&& post.has_note(#[trigger] post.shares@[i].note_token@)
        &&& post.note_at(post.shares@[i].note_token@).user_id == post.shares@[i].user_id
        &&& post.note_at(post.shares@[i].note_token@).deleted_at is None
    } by {
        let nt = pre.shares@[i].note_token@;
        assert(pre.has_note(nt));
        let j = pre.note_index(nt);
        lemma_note_index_unique(post, nt, j);
    }
}

/// If slot `i` of the note table holds token `t`, then `t` is present and
/// `note_at`/`note_index` resolve to that slot (tokens are unique).
pub proof fn lemma_note_index_unique(s: Store, t: Seq<char>, i: int)
    requires
        s.notes_unique(),
        0 <= i < s.notes@.len(),
        s.notes@[i].token@ == t,
    ensures
        s.has_note(t),
        s.note_index(t) == i,
        s.note_at(t) == s.notes@[i],
{
    assert(s.has_note(t));
    let j = s.note_index(t);
    if i < j {
        assert(s.notes@[i].token@ != s.notes@[j].token@);
    } else if j < i {
        assert(s.notes@[j].token@ != s.notes@[i].token@);
    }
}

/// The token-table analogue of [`lemma_note_index_unique`].
pub proof fn lemma_token_index_unique(s: Store, t: Seq<char>, i: int)
    requires
        s.tokens_unique(),
        0 <= i < s.tokens@.len(),
        s.tokens@[i].token@ == t,
    ensures
        s.has_token(t),
        s.token_index(t) == i,
        s.token_at(t) == s.tokens@[i],
{
    assert(s.has_token(t));
    let j = s.token_index(t);
    if i < j {
        assert(s.tokens@[i].token@ != s.tokens@[j].token@);
    } else if j < i {
        assert(s.tokens@[j].token@ != s.tokens@[i].token@);
    }
}

/// The share-table analogue of [`lemma_note_index_unique`].
pub proof fn lemma_share_index_unique(s: Store, t: Seq<char>, i: int)
    requires
        s.shares_unique(),
        0 <= i < s.shares@.len(),
        s.shares@[i].token@ == t,
    ensures
        s.has_share(t),
        s.share_index(t) == i,
        s.share_at(t) == s.shares@[i],
{
    assert(s.has_share(t));
    let j = s.share_index(t);
    if i < j {
        assert(s.shares@[i].token@ != s.shares@[j].token@);
    } else if j < i {
        assert(s.shares@[j].token@ != s.shares@[i].token@);
    }
}

/// The user-table analogue of [`lemma_note_index_unique`], keyed by id.
pub proof fn lemma_user_index_unique(s: Store, id: i64, i: int)
    requires
        s.user_ids_distinct(),
        0 <= i < s.users@.len(),
        s.users@[i].id == id,
    ensures
        s.has_user_id(id),
        s.user_index(id) == i,
        s.user_at(id) == s.users@[i],
{
    assert(s.has_user_id(id));
    let j = s.user_index(id);
    if i < j {
        assert(s.users@[i].id != s.users@[j].id);
    } else if j < i {
        assert(s.users@[j].id != s.users@[i].id);
    }
}

/// Two stores with the same user table resolve user lookups identically.
pub proof fn lemma_user_lookups_agree(a: Store, b: Store, id: i64)
    requires
        a.users == b.users,
        b.user_ids_distinct(),
    ensures
        a.has_user_id(id) == b.has_user_id(id),
        a.has_user_id(id) ==> a.user_index(id) == b.user_index(id) && a.user_at(id) == b.user_at(
            id,
        ),
{
    assert forall|i: int, j: int|
        0 <= i < j < a.users@.len() implies #[trigger] a.users@[i].id != #[trigger] a.users@[j].id by {
        assert(a.users@[i] == b.users@[i] && a.users@[j] == b.users@[j]);
    }
    if a.has_user_id(id) {
        let i = a.user_index(id);
        lemma_user_index_unique(b, id, i);
        lemma_user_index_unique(a, id, i);
    }
    if b.has_user_id(id) {
        let i = b.user_index(id);
        lemma_user_index_unique(a, id, i);
    }
}

/// Two stores with the same note table resolve note lookups identically.
pub proof fn lemma_note_lookups_agree(a: Store, b: Store, t: Seq<char>)
    requires
        a.notes == b.notes,
        b.notes_unique(),
    ensures
        a.has_note(t) == b.has_note(t),
        a.has_note(t) ==> a.note_index(t) == b.note_index(t) && a.note_at(t) == b.note_at(t),
{
    if a.has_note(t) {
        let i = a.note_index(t);
        lemma_note_index_unique(b, t, i);
        lemma_note_index_unique(a, t, i);
    }
    if b.has_note(t) {
        let i = b.note_index(t);
        lemma_note_index_unique(a, t, i);
    }
}

/// Two stores with the same share table resolve share lookups identically.
pub proof fn lemma_share_lookups_agree(a: Store, b: Store, t: Seq<char>)
    requires
        a.shares == b.shares,
        b.shares_unique(),
    ensures
        a.has_share(t) == b.has_share(t),
        a.has_share(t) ==> a.share_index(t) == b.share_index(t) && a.share_at(t) == b.share_at(t),
{
    if a.has_share(t) {
        let i = a.share_index(t);
        lemma_share_index_unique(b, t, i);
        lemma_share_index_unique(a, t, i);
    }
    if b.has_share(t) {
        let i = b.share_index(t);
        lemma_share_index_unique(a, t, i);
    }
}

/// Share links survive any change that leaves the note and share tables as
/// they were.
pub proof fn lemma_shares_linked_same_tables(pre: Store, post: Store)
    requires
        pre.shares_linked(),
        pre.notes_unique(),
        post.notes == pre.notes,
        post.shares == pre.shares,
    ensures
        post.shares_linked(),
{
    assert forall|i: int| 0 <= i < post.shares@.len() implies {
        &&& post.has_note(#[trigger] post.shares@[i].note_token@)
        &&& post.note_at(post.shares@[i].note_token@).user_id == post.shares@[i].user_id
        &&& post.note_at(post.shares@[i].note_token@).deleted_at is None
    } by {
        assert(post.shares@[i] == pre.shares@[i]);
        let nt = pre.shares@[i].note_token@;
        assert(pre.has_note(nt));
        lemma_note_lookups_agree(post, pre, nt);
    }
}

/// If slot `i` holds an active user named exactly `name`, the active-user
/// lookup resolves to that slot (usernames are unique).
pub proof fn lemma_active_user_index_unique(s: Store, name: Seq<char>, i: int)
    requires
        s.usernames_distinct(),
        0 <= i < s.users@.len(),
        s.users@[i].username@ == name,
        s.users@[i].deleted_at is None,
    ensures
        s.has_active_username(name),
        s.active_user_index(name) == i,
        s.active_user_at(name) == s.users@[i],
{
    assert(s.has_active_username(name));
    let j = s.active_user_index(name);
    if i < j {
        assert(s.users@[i].username@ != s.users@[j].username@);
    } else if j < i {
        assert(s.users@[j].username@ != s.users@[i].username@);
    }
}

/// A store differing from a well-formed one only in its share table keeps
/// the invariant, provided the new shares come from the old table and their
/// keys stay pairwise distinct.
pub proof fn lemma_wf_shares_changed(pre: Store, post: Store)
    requires
        pre.wf(),
        post.users == pre.users,
        post.tokens == pre.tokens,
        post.notes == pre.notes,
        post.next_user_id == pre.next_user_id,
        forall|k: int|
            0 <= k < post.shares@.len() ==> pre.shares@.contains(#[trigger] post.shares@[k]),
        forall|i: int, j: int|
            0 <= i < j < post.shares@.len() ==> #[trigger] post.shares@[i].token@ != #[trigger] post.shares@[j].token@,
        forall|i: int, j: int|
            0 <= i < j < post.shares@.len() ==> #[trigger] post.shares@[i].note_token@ != #[trigger] post.shares@[j].note_token@,
    ensures
        post.wf(),
{
    assert forall|k: int| 0 <= k < post.shares@.len() implies 0
        <= #[trigger] post.shares@[k].created_at by {
        assert(pre.shares@.contains(post.shares@[k]));
        let j = choose|j: int| 0 <= j < pre.shares@.len() && pre.shares@[j] == post.shares@[k];
        assert(0 <= pre.shares@[j].created_at);
    }
    assert forall|k: int| 0 <= k < post.shares@.len() implies {
        &&& post.has_note(#[trigger] post.shares@[k].note_token@)
        &&& post.note_at(post.shares@[k].note_token@).user_id == post.shares@[k].user_id
        &&& post.note_at(post.shares@[k].note_token@).deleted_at is None
    } by {
        assert(pre.shares@.contains(post.shares@[k]));
        let j = choose|j: int| 0 <= j < pre.shares@.len() && pre.shares@[j] == post.shares@[k];
        let nt = pre.shares@[j].note_token@;
        assert(pre.has_note(nt));
        lemma_note_lookups_agree(post, pre, nt);
    }
}

/// A store differing from a well-formed one only in its note table keeps
/// the invariant, provided the new notes come from the old table with
/// distinct tokens and every share's note survived unchanged.
pub proof fn lemma_wf_notes_changed(pre: Store, post: Store)
    requires
        pre.wf(),
        post.users == pre.users,
        post.tokens == pre.tokens,
        post.shares == pre.shares,
        post.next_user_id == pre.next_user_id,
        forall|k: int| 0 <= k < post.notes@.len() ==> pre.notes@.contains(#[trigger] post.notes@[k]),
        forall|i: int, j: int|
            0 <= i < j < post.notes@.len() ==> #[trigger] post.notes@[i].token@ != #[trigger] post.notes@[j].token@,
        forall|k: int|
            0 <= k < post.shares@.len() ==> post.notes@.contains(
                pre.note_at(#[trigger] post.shares@[k].note_token@),
            ),
    ensures
        post.wf(),
{
    assert forall|k: int| 0 <= k < post.notes@.len() implies {
        &&& 0 <= #[trigger] post.notes@[k].created_at
        &&& 0 <= post.notes@[k].modified_at
        &&& match post.notes@[k].deleted_at {
            Some(d) => 0 <= d,
            None => true,
        }
    } by {
        assert(pre.notes@.contains(post.notes@[k]));
        let j = choose|j: int| 0 <= j < pre.notes@.len() && pre.notes@[j] == post.notes@[k];
        assert(0 <= pre.notes@[j].created_at);
    }
    assert forall|k: int| 0 <= k < post.shares@.len() implies {
        &&& post.has_note(#[trigger] post.shares@[k].note_token@)
        &&& post.note_at(post.shares@[k].note_token@).user_id == post.shares@[k].user_id
        &&& post.note_at(post.shares@[k].note_token@).deleted_at is None
    } by {
        let nt = pre.shares@[k].note_token@;
        assert(pre.has_note(nt));
        let rec = pre.note_at(nt);
        assert(post.notes@.contains(rec));
        let j = choose|j: int| 0 <= j < post.notes@.len() && post.notes@[j] == rec;
        lemma_note_index_unique(post, nt, j);
    }
}

} // verus!
