//! The service's state: users, sessions, messages, published key bundles and
//! one-time prekeys, with the invariants that every operation preserves.
//!
//! Rows carry the same fields as the backing tables of the service; timestamps
//! are Unix seconds supplied by the caller. Identifiers of users, sessions and
//! messages are their one-based positions, as rows are never removed from
//! those tables; one-time prekeys are removed in bulk on republication, so
//! they draw identifiers from an ever-growing counter.

use vstd::prelude::*;

verus! {

/// A registered account.
pub struct User {
    pub id: i64,
    pub username: String,
    pub password_hash: String,
    pub created_at: i64,
}

/// One issued bearer token. A user may hold several concurrent sessions.
pub struct Session {
    pub id: i64,
    pub user_id: i64,
    pub token: String,
    pub created_at: i64,
}

/// A direct message; `read_at` is set once the recipient marks it read.
pub struct Message {
    pub id: i64,
    pub from_user_id: i64,
    pub to_user_id: i64,
    pub content: String,
    pub created_at: i64,
    pub read_at: Option<i64>,
}

/// A user's published long-term key material: at most one row per user.
pub struct UserKey {
    pub user_id: i64,
    pub identity_key: String,
    pub signed_prekey: String,
    pub signed_prekey_signature: String,
    pub created_at: i64,
}

/// A single-use public key, consumed by at most one bundle claim.
pub struct OneTimePrekey {
    pub id: i64,
    pub user_id: i64,
    pub key_id: i64,
    pub public_key: String,
    pub used: bool,
    pub created_at: i64,
}

/// The whole persistent state of the service.
pub struct Store {
    pub users: Vec<User>,
    pub sessions: Vec<Session>,
    pub messages: Vec<Message>,
    pub user_keys: Vec<UserKey>,
    pub prekeys: Vec<OneTimePrekey>,
    /// The identifier the next inserted one-time prekey will take.
    pub next_prekey_id: i64,
}

/// `id` names an existing user.
pub open spec fn valid_user_id(users: Seq<User>, id: i64) -> bool {
    1 <= id && id as int <= users.len()
}

/// The username of an existing user.
pub open spec fn uname_of(users: Seq<User>, id: i64) -> Seq<char> {
    users[id as int - 1].username@
}

/// No two accounts share a username (case-sensitive).
pub open spec fn usernames_unique(users: Seq<User>) -> bool {
    forall|i: int, j: int|
        #![trigger users[i], users[j]]
        0 <= i < j < users.len() ==> users[i].username@ != users[j].username@
}

/// Some account carries this username.
pub open spec fn has_user_named(users: Seq<User>, name: Seq<char>) -> bool {
    exists|i: int| 0 <= i < users.len() && (#[trigger] users[i]).username@ == name
}

/// The identity of the account carrying this username; meaningful only when
/// `has_user_named` holds (unique once usernames are unique).
pub open spec fn user_id_by_name(users: Seq<User>, name: Seq<char>) -> i64 {
    users[choose|i: int| 0 <= i < users.len() && (#[trigger] users[i]).username@ == name].id
}

/// The password hash stored for the account carrying this username;
/// meaningful only when `has_user_named` holds.
pub open spec fn stored_hash_of(users: Seq<User>, name: Seq<char>) -> Seq<char> {
    users[user_id_by_name(users, name) as int - 1].password_hash@
}

/// User rows are well formed: positional identifiers and unique usernames.
pub open spec fn users_wf(users: Seq<User>) -> bool {
    &&& forall|i: int| 0 <= i < users.len() ==> (#[trigger] users[i]).id == i + 1
    &&& usernames_unique(users)
}

/// No two sessions share a token: the token is the sole credential.
pub open spec fn tokens_unique(sessions: Seq<Session>) -> bool {
    forall|i: int, j: int|
        #![trigger sessions[i], sessions[j]]
        0 <= i < j < sessions.len() ==> sessions[i].token@ != sessions[j].token@
}

/// Some session was issued under this token.
pub open spec fn has_session_token(sessions: Seq<Session>, token: Seq<char>) -> bool {
    exists|i: int| 0 <= i < sessions.len() && (#[trigger] sessions[i]).token@ == token
}

/// The user a token resolves to; meaningful only when `has_session_token`
/// holds (unique once tokens are unique).
pub open spec fn session_user(sessions: Seq<Session>, token: Seq<char>) -> i64 {
    sessions[choose|i: int|
        0 <= i < sessions.len() && (#[trigger] sessions[i]).token@ == token].user_id
}

/// Session rows are well formed and refer to existing users.
pub open spec fn sessions_wf(sessions: Seq<Session>, users: Seq<User>) -> bool {
    &&& forall|i: int|
        0 <= i < sessions.len() ==> (#[trigger] sessions[i]).id == i + 1 && valid_user_id(
            users,
            sessions[i].user_id,
        )
    &&& tokens_unique(sessions)
}

/// Message rows are well formed: positional identifiers, existing users,
/// and creation times nondecreasing in insertion order — each message is
/// stamped with a wall-clock read at insertion, so store order is time
/// order and listing newest-first is descending `created_at`.
pub open spec fn messages_wf(messages: Seq<Message>, users: Seq<User>) -> bool {
    &&& forall|i: int|
        0 <= i < messages.len() ==> (#[trigger] messages[i]).id == i + 1 && valid_user_id(
            users,
            messages[i].from_user_id,
        ) && valid_user_id(users, messages[i].to_user_id)
    &&& forall|i: int, j: int|
        #![trigger messages[i].created_at, messages[j].created_at]
        0 <= i < j < messages.len() ==> messages[i].created_at <= messages[j].created_at
}

/// Some bundle row belongs to this user.
pub open spec fn has_bundle_for(keys: Seq<UserKey>, user_id: i64) -> bool {
    exists|i: int| 0 <= i < keys.len() && (#[trigger] keys[i]).user_id == user_id
}

/// The position of this user's bundle row; meaningful only when
/// `has_bundle_for` holds (unique once owners are distinct).
pub open spec fn bundle_index_for(keys: Seq<UserKey>, user_id: i64) -> int {
    choose|i: int| 0 <= i < keys.len() && (#[trigger] keys[i]).user_id == user_id
}

/// At most one bundle row per user, each owned by an existing user.
pub open spec fn user_keys_wf(keys: Seq<UserKey>, users: Seq<User>) -> bool {
    &&& forall|i: int|
        0 <= i < keys.len() ==> valid_user_id(users, (#[trigger] keys[i]).user_id)
    &&& forall|i: int, j: int|
        #![trigger keys[i], keys[j]]
        0 <= i < j < keys.len() ==> keys[i].user_id != keys[j].user_id
}

/// `p` is an unconsumed one-time prekey of user `u`.
pub open spec fn is_unused_of(p: OneTimePrekey, u: i64) -> bool {
    p.user_id == u && !p.used
}

/// The unconsumed one-time prekeys of user `u`, in store order — which, by
/// `prekeys_wf`, is ascending `key_id` order.
pub open spec fn unused_for(ps: Seq<OneTimePrekey>, u: i64) -> Seq<OneTimePrekey> {
    ps.filter(|p: OneTimePrekey| is_unused_of(p, u))
}

/// No two one-time prekeys share an identifier.
pub open spec fn prekey_ids_unique(ps: Seq<OneTimePrekey>) -> bool {
    forall|i: int, j: int|
        #![trigger ps[i], ps[j]]
        0 <= i < j < ps.len() ==> ps[i].id != ps[j].id
}

/// Prekey rows are well formed: identifiers below the counter and strictly
/// ascending in store order, owners existing, and each user's rows in
/// strictly ascending `key_id` order (so the oldest unused prekey of a user
/// is the first of its rows).
pub open spec fn prekeys_wf(ps: Seq<OneTimePrekey>, users: Seq<User>, next_id: int) -> bool {
    &&& forall|i: int|
        0 <= i < ps.len() ==> 1 <= (#[trigger] ps[i]).id && ps[i].id < next_id && valid_user_id(
            users,
            ps[i].user_id,
        ) && ps[i].key_id >= 0
    &&& forall|i: int, j: int|
        #![trigger ps[i], ps[j]]
        0 <= i < j < ps.len() ==> ps[i].id < ps[j].id
    &&& forall|i: int, j: int|
        #![trigger ps[i].key_id, ps[j].key_id]
        0 <= i < j < ps.len() && ps[i].user_id == ps[j].user_id ==> ps[i].key_id < ps[j].key_id
}

/// `p` with its single-use flag set; every other field kept.
pub open spec fn marked_used(p: OneTimePrekey) -> OneTimePrekey {
    OneTimePrekey {
        id: p.id,
        user_id: p.user_id,
        key_id: p.key_id,
        public_key: p.public_key,
        used: true,
        created_at: p.created_at,
    }
}

/// A claim of prekey `id` would win: the row exists and is still unused.
pub open spec fn has_claimable(ps: Seq<OneTimePrekey>, id: i64) -> bool {
    exists|i: int| 0 <= i < ps.len() && (#[trigger] ps[i]).id == id && !ps[i].used
}

/// The conditional update at the heart of the claim protocol: mark row `id`
/// used if and only if it exists and is still unused; otherwise leave the
/// rows unchanged.
pub open spec fn claim_at(ps: Seq<OneTimePrekey>, id: i64) -> Seq<OneTimePrekey> {
    if has_claimable(ps, id) {
        let k = choose|i: int| 0 <= i < ps.len() && (#[trigger] ps[i]).id == id && !ps[i].used;
        ps.update(k, marked_used(ps[k]))
    } else {
        ps
    }
}

impl Store {
    /// Every invariant of the state at once.
    pub open spec fn wf(self) -> bool {
        &&& 1 <= self.next_prekey_id
        &&& users_wf(self.users@)
        &&& sessions_wf(self.sessions@, self.users@)
        &&& messages_wf(self.messages@, self.users@)
        &&& user_keys_wf(self.user_keys@, self.users@)
        &&& prekeys_wf(self.prekeys@, self.users@, self.next_prekey_id as int)
    }

    /// A fresh, empty state.
    pub fn new() -> (s: Store)
        ensures
            s.wf(),
            s.users@.len() == 0,
            s.sessions@.len() == 0,
            s.messages@.len() == 0,
            s.user_keys@.len() == 0,
            s.prekeys@.len() == 0,
            s.next_prekey_id == 1,
    {
        Store {
            users: Vec::new(),
            sessions: Vec::new(),
            messages: Vec::new(),
            user_keys: Vec::new(),
            prekeys: Vec::new(),
            next_prekey_id: 1,
        }
    }

    /// Exact-match lookup of a username, as every handler performs it.
    pub fn find_user_id(&self, username: &str) -> (r: Option<i64>)
        requires
            self.wf(),
        ensures
            match r {
                Some(uid) => has_user_named(self.users@, username@) && uid == user_id_by_name(
                    self.users@,
                    username@,
                ) && valid_user_id(self.users@, uid),
                None => !has_user_named(self.users@, username@),
            },
    {
        let uname: String = username.to_owned();
        let n = self.users.len();
        let mut i: usize = 0;
        while i < n
            invariant
                n == self.users@.len(),
                forall|j: int| 0 <= j < i ==> (#[trigger] self.users@[j]).username@ != uname@,
                uname@ == username@,
                self.wf(),
            decreases n - i,
        {
            if self.users[i].username == uname {
                let uid = self.users[i].id;
                proof {
                    assert(has_user_named(self.users@, username@));
                    let k = choose|k: int|
                        0 <= k < self.users@.len() && (#[trigger] self.users@[k]).username@
                            == username@;
                    if k != i as int {
                        assert(self.users@[k].username@ != self.users@[i as int].username@);
                    }
                }
                return Some(uid);
            }
            i += 1;
        }
        None
    }
}

/// Filtering one more element extends the filtered prefix by that element
/// exactly when it satisfies the predicate.
pub proof fn lemma_filter_take_step<A>(s: Seq<A>, pred: spec_fn(A) -> bool, i: int)
    requires
        0 <= i < s.len(),
    ensures
        s.take(i + 1).filter(pred) == if pred(s[i]) {
            s.take(i).filter(pred).push(s[i])
        } else {
            s.take(i).filter(pred)
        },
{
    reveal(Seq::filter);
    assert(s.take(i + 1).drop_last() =~= s.take(i));
    assert(s.take(i + 1).last() == s[i]);
}

/// The filtered whole sequence is the filtered full-length prefix.
pub proof fn lemma_filter_take_all<A>(s: Seq<A>, pred: spec_fn(A) -> bool)
    ensures
        s.take(s.len() as int).filter(pred) == s.filter(pred),
{
    assert(s.take(s.len() as int) =~= s);
}

/// Filtering a prefix yields a prefix of the filtered whole.
pub proof fn lemma_filter_take_prefix<A>(s: Seq<A>, pred: spec_fn(A) -> bool, j: int)
    requires
        0 <= j <= s.len(),
    ensures
        forall|i: int|
            0 <= i < s.take(j).filter(pred).len() ==> #[trigger] s.take(j).filter(pred)[i]
                == s.filter(pred)[i],
        s.take(j).filter(pred).len() <= s.filter(pred).len(),
    decreases s.len(),
{
    reveal(Seq::filter);
    if j == s.len() {
        assert(s.take(j) =~= s);
    } else {
        let t = s.drop_last();
        lemma_filter_take_prefix(t, pred, j);
        assert(s.take(j) =~= t.take(j));
    }
}

/// A sequence none of whose elements satisfy the predicate filters to empty.
pub proof fn lemma_filter_none<A>(s: Seq<A>, pred: spec_fn(A) -> bool)
    requires
        forall|i: int| 0 <= i < s.len() ==> !pred(#[trigger] s[i]),
    ensures
        s.filter(pred) == Seq::<A>::empty(),
    decreases s.len(),
{
    reveal(Seq::filter);
    if s.len() > 0 {
        lemma_filter_none(s.drop_last(), pred);
    }
}

/// A sequence all of whose elements satisfy the predicate filters to itself.
pub proof fn lemma_filter_all<A>(s: Seq<A>, pred: spec_fn(A) -> bool)
    requires
        forall|i: int| 0 <= i < s.len() ==> pred(#[trigger] s[i]),
    ensures
        s.filter(pred) == s,
    decreases s.len(),
{
    reveal(Seq::filter);
    if s.len() > 0 {
        lemma_filter_all(s.drop_last(), pred);
        assert(s.drop_last().filter(pred).push(s.last()) =~= s);
    }
}

/// Every element of a filtered sequence is an element of the original that
/// satisfies the predicate.
pub proof fn lemma_filter_members<A>(s: Seq<A>, pred: spec_fn(A) -> bool)
    ensures
        forall|i: int|
            0 <= i < s.filter(pred).len() ==> s.contains(#[trigger] s.filter(pred)[i]) && pred(
                s.filter(pred)[i],
            ),
    decreases s.len(),
{
    reveal(Seq::filter);
    if s.len() > 0 {
        let t = s.drop_last();
        lemma_filter_members(t, pred);
        assert forall|i: int| 0 <= i < t.filter(pred).len() implies s.contains(
            #[trigger] t.filter(pred)[i],
        ) by {
            let x = t.filter(pred)[i];
            let k = choose|k: int| 0 <= k < t.len() && t[k] == x;
            assert(s[k] == x);
        }
        assert(s.contains(s.last())) by {
            assert(s[s.len() - 1] == s.last());
        }
    }
}

/// Filtering preserves every pairwise relation that held in source order.
pub proof fn lemma_filter_pairwise<A>(
    s: Seq<A>,
    pred: spec_fn(A) -> bool,
    rel: spec_fn(A, A) -> bool,
)
    requires
        forall|i: int, j: int| 0 <= i < j < s.len() ==> rel(#[trigger] s[i], #[trigger] s[j]),
    ensures
        forall|i: int, j: int|
            0 <= i < j < s.filter(pred).len() ==> rel(
                #[trigger] s.filter(pred)[i],
                #[trigger] s.filter(pred)[j],
            ),
    decreases s.len(),
{
    reveal(Seq::filter);
    if s.len() > 0 {
        let t = s.drop_last();
        lemma_filter_pairwise(t, pred, rel);
        lemma_filter_members(t, pred);
        if pred(s.last()) {
            assert forall|i: int, j: int|
                0 <= i < j < s.filter(pred).len() implies rel(
                #[trigger] s.filter(pred)[i],
                #[trigger] s.filter(pred)[j],
            ) by {
                if j == s.filter(pred).len() - 1 {
                    let x = t.filter(pred)[i];
                    let k = choose|k: int| 0 <= k < t.len() && t[k] == x;
                    assert(rel(s[k], s[s.len() - 1]));
                }
            }
        }
    }
}

/// Filtering by a weaker predicate after a stronger one is filtering by the
/// weaker predicate alone.
pub proof fn lemma_filter_subsume<A>(s: Seq<A>, q: spec_fn(A) -> bool, p: spec_fn(A) -> bool)
    requires
        forall|x: A| #[trigger] p(x) ==> q(x),
    ensures
        s.filter(q).filter(p) == s.filter(p),
    decreases s.len(),
{
    reveal(Seq::filter);
    if s.len() > 0 {
        let t = s.drop_last();
        lemma_filter_subsume(t, q, p);
        if q(s.last()) {
            assert(s.filter(q) == t.filter(q).push(s.last()));
            assert(s.filter(q).drop_last() =~= t.filter(q));
            assert(s.filter(q).last() == s.last());
        }
    }
}

} // verus!
