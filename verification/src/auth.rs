//! Authentication: issuing session tokens, hashing and checking passwords,
//! resolving tokens to users, and an authentication gate that turns a
//! bearer header into a user identity.

use vstd::prelude::*;
use vstd::string::StrSliceExecFns;
use rand::RngExt;

use crate::errors::ApiError;
use crate::store::{
    has_session_token, has_user_named, session_user, stored_hash_of, user_id_by_name,
    valid_user_id, Session, Store,
};

verus! {

/// Length of every issued session token.
pub const TOKEN_LENGTH: usize = 32;

/// How many fresh tokens a session insert tries before giving up on the
/// (overwhelmingly unlikely) event of repeated collisions.
pub const TOKEN_RETRIES: usize = 5;

/// The 62-symbol alphabet tokens are drawn from.
pub open spec fn token_alphabet() -> Seq<char> {
    "ABCDEFGHIJKLMNOPQRSTUVWXYZabcdefghijklmnopqrstuvwxyz0123456789"@
}

/// `c` is one of the 62 token symbols.
pub open spec fn is_token_char(c: char) -> bool {
    token_alphabet().contains(c)
}

/// Relies on rand's thread-local generator (`rand::rng`, a cryptographically
/// secure PRNG reseeded from the operating system) and
/// `RngExt::random_range`: a uniform draw below the bound. The bound must be
/// positive, as `random_range` panics on an empty range.
#[verifier::external_body]
fn random_index(bound: usize) -> (r: usize)
    requires
        bound > 0,
    ensures
        r < bound,
{
    rand::rng().random_range(0..bound)
}

/// A fresh session token: 32 symbols drawn uniformly from the 62-symbol
/// alphanumeric alphabet, read from a cryptographically secure source.
pub fn generate_token() -> (t: String)
    ensures
        t@.len() == TOKEN_LENGTH,
        forall|i: int| 0 <= i < t@.len() ==> is_token_char(#[trigger] t@[i]),
{
    let charset: &str = "ABCDEFGHIJKLMNOPQRSTUVWXYZabcdefghijklmnopqrstuvwxyz0123456789";
    proof {
        reveal_strlit("ABCDEFGHIJKLMNOPQRSTUVWXYZabcdefghijklmnopqrstuvwxyz0123456789");
    }
    let mut t = String::new();
    let mut i: usize = 0;
    while i < TOKEN_LENGTH
        invariant
            i <= TOKEN_LENGTH,
            t@.len() == i,
            forall|j: int| 0 <= j < t@.len() ==> is_token_char(#[trigger] t@[j]),
            charset@ == token_alphabet(),
            charset.is_ascii(),
            charset@.len() == 62,
        decreases TOKEN_LENGTH - i,
    {
        let idx = random_index(62);
        let sym = charset.substring_ascii(idx, idx + 1);
        proof {
            assert(sym@ =~= seq![token_alphabet()[idx as int]]);
            assert(token_alphabet().contains(token_alphabet()[idx as int]));
        }
        t.append(sym);
        i += 1;
    }
    t
}

/// Whether bcrypt accepts `password` against the cost, salt and digest
/// recorded in `hash`. A deterministic function of the two strings alone.
pub uninterp spec fn password_verifies(password: Seq<char>, hash: Seq<char>) -> bool;

/// Whether bcrypt can parse `hash` at all: 60 ASCII characters in the
/// `$2_$cc$…` shape with an in-range cost and base64 salt and digest.
/// `bcrypt::verify` fails exactly on a hash outside this set, whatever the
/// password; a deterministic function of the hash string alone.
pub uninterp spec fn bcrypt_hash_wf(hash: Seq<char>) -> bool;

#[verifier::external_type_specification]
#[verifier::external_body]
pub struct ExBcryptError(bcrypt::BcryptError);

/// Relies on `bcrypt::hash` with the library's default cost: on success the
/// returned string is a well-formed salted bcrypt hash that `bcrypt::verify`
/// parses and accepts for the same password.
#[verifier::external_body]
pub fn hash_password(password: &str) -> (r: Result<String, bcrypt::BcryptError>)
    ensures
        r matches Ok(h) ==> password_verifies(password@, h@),
        r matches Ok(h) ==> bcrypt_hash_wf(h@),
{
    bcrypt::hash(password, bcrypt::DEFAULT_COST)
}

/// Relies on `bcrypt::verify`: recomputes the digest under the hash's own
/// cost and salt and compares. It errors exactly on a hash it cannot parse,
/// an outcome that depends on the hash string alone, never on the password.
#[verifier::external_body]
pub fn verify_password(password: &str, hash: &str) -> (r: Result<bool, bcrypt::BcryptError>)
    ensures
        r is Ok <==> bcrypt_hash_wf(hash@),
        r matches Ok(b) ==> b == password_verifies(password@, hash@),
{
    bcrypt::verify(password, hash)
}

/// Look up an account by exact username and check its stored hash against
/// the supplied password. Every outcome is pinned: success exactly when the
/// user exists, the stored hash parses, and the password verifies; the
/// internal error exactly when a stored hash does not parse — which cannot
/// happen to a hash that [`hash_password`] produced.
pub fn verify_credentials(store: &Store, username: &str, password: &str) -> (r: Result<
    i64,
    ApiError,
>)
    requires
        store.wf(),
    ensures
        r matches Err(ApiError::UserNotFound) <==> !has_user_named(store.users@, username@),
        r is Ok <==> (has_user_named(store.users@, username@) && bcrypt_hash_wf(
            stored_hash_of(store.users@, username@),
        ) && password_verifies(password@, stored_hash_of(store.users@, username@))),
        r matches Ok(uid) ==> uid == user_id_by_name(store.users@, username@),
        r matches Err(ApiError::InvalidPassword) <==> (has_user_named(store.users@, username@)
            && bcrypt_hash_wf(stored_hash_of(store.users@, username@)) && !password_verifies(
            password@,
            stored_hash_of(store.users@, username@),
        )),
        r matches Err(ApiError::Internal) <==> (has_user_named(store.users@, username@)
            && !bcrypt_hash_wf(stored_hash_of(store.users@, username@))),
{
    let uid = match store.find_user_id(username) {
        Some(uid) => uid,
        None => { return Err(ApiError::UserNotFound) },
    };
    proof {
        let k = choose|i: int|
            0 <= i < store.users@.len() && (#[trigger] store.users@[i]).username@ == username@;
        assert(store.users@[k].id == k + 1);
    }
    let n = store.users.len();
    let idx = (uid - 1) as usize;
    proof {
        assert(uid as int <= n as int);
        assert(idx as int == uid - 1);
    }
    match verify_password(password, store.users[idx].password_hash.as_str()) {
        Ok(true) => Ok(uid),
        Ok(false) => Err(ApiError::InvalidPassword),
        Err(_) => Err(ApiError::Internal),
    }
}

/// Persist a session under a caller-supplied token: succeeds exactly when
/// the token is not yet taken, so a collision is surfaced rather than
/// silently overwriting an existing session.
pub fn insert_session(store: &mut Store, user_id: i64, token: String, now: i64) -> (r: Result<
    i64,
    ApiError,
>)
    requires
        old(store).wf(),
        valid_user_id(old(store).users@, user_id),
        old(store).sessions@.len() < 0x7fff_ffff_ffff_ffff,
    ensures
        final(store).wf(),
        match r {
            Ok(sid) => {
                &&& !has_session_token(old(store).sessions@, token@)
                &&& sid == old(store).sessions@.len() + 1
                &&& final(store).sessions@ == old(store).sessions@.push(
                    Session { id: sid, user_id, token, created_at: now },
                )
                &&& has_session_token(final(store).sessions@, token@)
                &&& session_user(final(store).sessions@, token@) == user_id
                &&& final(store).users == old(store).users
                &&& final(store).messages == old(store).messages
                &&& final(store).user_keys == old(store).user_keys
                &&& final(store).prekeys == old(store).prekeys
                &&& final(store).next_prekey_id == old(store).next_prekey_id
            },
            Err(e) => {
                &&& e == ApiError::Internal
                &&& has_session_token(old(store).sessions@, token@)
                &&& *final(store) == *old(store)
            },
        },
{
    let n = store.sessions.len();
    let mut i: usize = 0;
    while i < n
        invariant
            *store == *old(store),
            old(store).wf(),
            n == store.sessions@.len(),
            forall|j: int| 0 <= j < i ==> (#[trigger] store.sessions@[j]).token@ != token@,
        decreases n - i,
    {
        if store.sessions[i].token == token {
            return Err(ApiError::Internal);
        }
        i += 1;
    }
    let sid = store.sessions.len() as i64 + 1;
    let ghost old_sessions = store.sessions@;
    store.sessions.push(Session { id: sid, user_id, token, created_at: now });
    proof {
        let s = store.sessions@;
        let last = s.len() - 1;
        assert(forall|j: int| 0 <= j < last ==> s[j] == old_sessions[j]);
        assert(has_session_token(s, s[last].token@));
        let k = choose|k: int| 0 <= k < s.len() && (#[trigger] s[k]).token@ == s[last].token@;
        if k != last {
            assert(old_sessions[k].token@ != s[last].token@);
        }
    }
    Ok(sid)
}

/// Issue a session for a user: generate a token, persist it, and on the rare
/// collision regenerate, a bounded number of times, before surfacing an
/// internal error. The request is never silently dropped.
pub fn create_session(store: &mut Store, user_id: i64, now: i64) -> (r: Result<String, ApiError>)
    requires
        old(store).wf(),
        valid_user_id(old(store).users@, user_id),
        old(store).sessions@.len() < 0x7fff_ffff_ffff_ffff,
    ensures
        final(store).wf(),
        match r {
            Ok(token) => {
                &&& token@.len() == TOKEN_LENGTH
                &&& !has_session_token(old(store).sessions@, token@)
                &&& final(store).sessions@.len() == old(store).sessions@.len() + 1
                &&& forall|j: int|
                    0 <= j < old(store).sessions@.len() ==> final(store).sessions@[j] == old(
                        store,
                    ).sessions@[j]
                &&& final(store).sessions@.last().user_id == user_id
                &&& final(store).sessions@.last().token@ == token@
                &&& final(store).sessions@.last().created_at == now
                &&& has_session_token(final(store).sessions@, token@)
                &&& session_user(final(store).sessions@, token@) == user_id
                &&& final(store).users == old(store).users
                &&& final(store).messages == old(store).messages
                &&& final(store).user_keys == old(store).user_keys
                &&& final(store).prekeys == old(store).prekeys
                &&& final(store).next_prekey_id == old(store).next_prekey_id
            },
            Err(e) => e == ApiError::Internal && *final(store) == *old(store),
        },
{
    let mut attempt: usize = 0;
    while attempt < TOKEN_RETRIES
        invariant
            *store == *old(store),
            old(store).wf(),
            valid_user_id(old(store).users@, user_id),
            old(store).sessions@.len() < 0x7fff_ffff_ffff_ffff,
        decreases TOKEN_RETRIES - attempt,
    {
        let token = generate_token();
        let stored = token.clone();
        if let Ok(_) = insert_session(store, user_id, stored, now) {
            return Ok(token);
        }
        attempt += 1;
    }
    Err(ApiError::Internal)
}

/// Resolve a bearer token to the user it was issued to; exact-match lookup,
/// failing when the token was never issued.
pub fn get_user_id_from_token(store: &Store, token: &str) -> (r: Result<i64, ApiError>)
    requires
        store.wf(),
    ensures
        match r {
            Ok(uid) => {
                &&& has_session_token(store.sessions@, token@)
                &&& uid == session_user(store.sessions@, token@)
                &&& valid_user_id(store.users@, uid)
            },
            Err(e) => e == ApiError::Unauthenticated && !has_session_token(
                store.sessions@,
                token@,
            ),
        },
{
    let t: String = token.to_owned();
    let n = store.sessions.len();
    let mut i: usize = 0;
    while i < n
        invariant
            n == store.sessions@.len(),
            forall|j: int| 0 <= j < i ==> (#[trigger] store.sessions@[j]).token@ != t@,
            t@ == token@,
            store.wf(),
        decreases n - i,
    {
        if store.sessions[i].token == t {
            let uid = store.sessions[i].user_id;
            proof {
                assert(has_session_token(store.sessions@, token@));
                let k = choose|k: int|
                    0 <= k < store.sessions@.len() && (#[trigger] store.sessions@[k]).token@
                        == token@;
                if k != i as int {
                    assert(store.sessions@[k].token@ != store.sessions@[i as int].token@);
                }
            }
            return Ok(uid);
        }
        i += 1;
    }
    Err(ApiError::Unauthenticated)
}

/// The header value names a bearer credential: it starts with `"Bearer "`.
pub open spec fn spec_is_bearer(h: Seq<char>) -> bool {
    h.len() >= 7 && h.subrange(0, 7) == "Bearer "@
}

/// The credential carried by a well-formed bearer header.
pub open spec fn spec_bearer_token(h: Seq<char>) -> Seq<char> {
    h.subrange(7, h.len() as int)
}

/// Split a header value into its bearer token, rejecting a value without the
/// `"Bearer "` prefix.
pub fn parse_bearer_header(header: &str) -> (r: Option<&str>)
    ensures
        match r {
            Some(t) => spec_is_bearer(header@) && t@ == spec_bearer_token(header@),
            None => !spec_is_bearer(header@),
        },
{
    proof {
        reveal_strlit("Bearer ");
    }
    let len = header.unicode_len();
    if len < 7 {
        return None;
    }
    let prefix = header.substring_char(0, 7);
    let mut i: usize = 0;
    while i < 7
        invariant
            prefix@ == header@.subrange(0, 7),
            header@.len() >= 7,
            0 <= i <= 7,
            forall|j: int| 0 <= j < i ==> prefix@[j] == "Bearer "@[j],
        decreases 7 - i,
    {
        proof {
            reveal_strlit("Bearer ");
        }
        let c = prefix.get_char(i);
        let expected: char = match i {
            0 => 'B',
            1 => 'e',
            2 => 'a',
            3 => 'r',
            4 => 'e',
            5 => 'r',
            _ => ' ',
        };
        if c != expected {
            proof {
                assert("Bearer "@[i as int] == expected);
                assert(header@.subrange(0, 7)[i as int] != "Bearer "@[i as int]);
            }
            return None;
        }
        i += 1;
    }
    proof {
        assert(header@.subrange(0, 7) =~= "Bearer "@);
    }
    Some(header.substring_char(7, len))
}

/// Every protected route passes through this gate. A missing or malformed
/// `Authorization` value is rejected at once, before any session lookup; a
/// well-formed bearer token is resolved through the session table.
pub fn auth_gate(store: &Store, header: Option<&str>) -> (r: Result<i64, ApiError>)
    requires
        store.wf(),
    ensures
        match r {
            Ok(uid) => {
                &&& header matches Some(h)
                &&& spec_is_bearer(h@)
                &&& has_session_token(store.sessions@, spec_bearer_token(h@))
                &&& uid == session_user(store.sessions@, spec_bearer_token(h@))
                &&& valid_user_id(store.users@, uid)
            },
            Err(e) => {
                &&& e == ApiError::Unauthenticated
                &&& match header {
                    Some(h) => !spec_is_bearer(h@) || !has_session_token(
                        store.sessions@,
                        spec_bearer_token(h@),
                    ),
                    None => true,
                }
            },
        },
{
    let h = match header {
        Some(h) => h,
        None => { return Err(ApiError::Unauthenticated) },
    };
    let token = match parse_bearer_header(h) {
        Some(t) => t,
        None => { return Err(ApiError::Unauthenticated) },
    };
    get_user_id_from_token(store, token)
}

} // verus!
