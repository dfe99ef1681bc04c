//! Account lifecycle: registration (which issues the first session) and
//! username changes.

use vstd::prelude::*;

use crate::auth::{create_session, hash_password, password_verifies, TOKEN_LENGTH};
use crate::errors::ApiError;
use crate::models::{
    CreateAccountRequest, CreateAccountResponse, UpdateUsernameRequest, UpdateUsernameResponse,
};
use crate::store::{
    has_session_token, has_user_named, session_user, user_id_by_name, valid_user_id, User, Store,
};

verus! {

/// Some account other than `id` carries this username.
pub open spec fn username_taken_by_other(users: Seq<User>, name: Seq<char>, id: i64) -> bool {
    exists|i: int|
        0 <= i < users.len() && (#[trigger] users[i]).username@ == name && users[i].id != id
}

/// Register an account: validate the name and password, reject a taken
/// username, persist the user with a salted password hash, and issue the
/// first session. The whole registration is atomic: on any failure the state
/// is unchanged.
pub fn create_account(store: &mut Store, req: CreateAccountRequest, now: i64) -> (r: Result<
    CreateAccountResponse,
    ApiError,
>)
    requires
        old(store).wf(),
        old(store).users@.len() < 0x7fff_ffff_ffff_ffff,
        old(store).sessions@.len() < 0x7fff_ffff_ffff_ffff,
    ensures
        final(store).wf(),
        r matches Err(ApiError::EmptyUsername) <==> req.username@.len() == 0,
        r matches Err(ApiError::EmptyPassword) <==> (req.username@.len() > 0
            && req.password@.len() == 0),
        r matches Err(ApiError::UsernameTaken) <==> (req.username@.len() > 0
            && req.password@.len() > 0 && has_user_named(old(store).users@, req.username@)),
        r matches Err(e) ==> {
            &&& (e == ApiError::EmptyUsername || e == ApiError::EmptyPassword || e
                == ApiError::UsernameTaken || e == ApiError::Internal)
            &&& final(store).users@ == old(store).users@
            &&& final(store).sessions@ == old(store).sessions@
            &&& final(store).messages@ == old(store).messages@
            &&& final(store).user_keys@ == old(store).user_keys@
            &&& final(store).prekeys@ == old(store).prekeys@
            &&& final(store).next_prekey_id == old(store).next_prekey_id
        },
        r matches Ok(resp) ==> {
            &&& req.username@.len() > 0
            &&& req.password@.len() > 0
            &&& !has_user_named(old(store).users@, req.username@)
            &&& resp.user_id == old(store).users@.len() + 1
            &&& resp.username@ == req.username@
            &&& final(store).users@.len() == old(store).users@.len() + 1
            &&& forall|j: int|
                0 <= j < old(store).users@.len() ==> final(store).users@[j] == old(
                    store,
                ).users@[j]
            &&& final(store).users@.last().id == resp.user_id
            &&& final(store).users@.last().username@ == req.username@
            &&& final(store).users@.last().created_at == now
            &&& password_verifies(req.password@, final(store).users@.last().password_hash@)
            &&& crate::auth::bcrypt_hash_wf(final(store).users@.last().password_hash@)
            &&& has_user_named(final(store).users@, req.username@)
            &&& user_id_by_name(final(store).users@, req.username@) == resp.user_id
            &&& final(store).sessions@.len() == old(store).sessions@.len() + 1
            &&& forall|j: int|
                0 <= j < old(store).sessions@.len() ==> final(store).sessions@[j] == old(
                    store,
                ).sessions@[j]
            &&& final(store).sessions@.last().user_id == resp.user_id
            &&& final(store).sessions@.last().token@ == resp.token@
            &&& resp.token@.len() == TOKEN_LENGTH
            &&& has_session_token(final(store).sessions@, resp.token@)
            &&& session_user(final(store).sessions@, resp.token@) == resp.user_id
            &&& final(store).messages == old(store).messages
            &&& final(store).user_keys == old(store).user_keys
            &&& final(store).prekeys == old(store).prekeys
            &&& final(store).next_prekey_id == old(store).next_prekey_id
        },
{
    if req.username.as_str().is_empty() {
        return Err(ApiError::EmptyUsername);
    }
    if req.password.as_str().is_empty() {
        return Err(ApiError::EmptyPassword);
    }
    if let Some(_) = store.find_user_id(req.username.as_str()) {
        return Err(ApiError::UsernameTaken);
    }
    let password_hash = match hash_password(req.password.as_str()) {
        Ok(h) => h,
        Err(_) => { return Err(ApiError::Internal) },
    };
    let user_id = store.users.len() as i64 + 1;
    let username = req.username;
    let stored_name = username.clone();
    let ghost old_users = store.users@;
    store.users.push(
        User { id: user_id, username: stored_name, password_hash, created_at: now },
    );
    proof {
        let us = store.users@;
        assert(forall|j: int| 0 <= j < old_users.len() ==> us[j] == old_users[j]);
        assert forall|i: int, j: int|
            #![trigger us[i], us[j]]
            0 <= i < j < us.len() implies us[i].username@ != us[j].username@ by {
            if j == us.len() - 1 {
                assert(us[i] == old_users[i]);
            }
        }
        assert(store.wf());
        assert(valid_user_id(store.users@, user_id));
        assert(has_user_named(store.users@, username@)) by {
            assert(store.users@[store.users@.len() - 1].username@ == username@);
        }
        let k = choose|i: int|
            0 <= i < store.users@.len() && (#[trigger] store.users@[i]).username@ == username@;
        if k != store.users@.len() - 1 {
            assert(store.users@[k] == old_users[k]);
            assert(has_user_named(old_users, username@));
        }
        assert(user_id_by_name(store.users@, username@) == user_id);
    }
    match create_session(store, user_id, now) {
        Ok(token) => Ok(CreateAccountResponse { token, user_id, username }),
        Err(_) => {
            let _ = store.users.pop();
            proof {
                assert(store.users@ =~= old_users);
            }
            Err(ApiError::Internal)
        },
    }
}

/// Change the caller's username: reject an empty or otherwise-taken name;
/// renaming an account to its own current name is allowed.
pub fn update_username(store: &mut Store, user_id: i64, req: UpdateUsernameRequest, now: i64) -> (r:
    Result<UpdateUsernameResponse, ApiError>)
    requires
        old(store).wf(),
        valid_user_id(old(store).users@, user_id),
    ensures
        final(store).wf(),
        r matches Err(ApiError::EmptyUsername) <==> req.new_username@.len() == 0,
        r matches Err(ApiError::UsernameTaken) <==> (req.new_username@.len() > 0
            && username_taken_by_other(old(store).users@, req.new_username@, user_id)),
        r matches Err(e) ==> (e == ApiError::EmptyUsername || e == ApiError::UsernameTaken)
            && *final(store) == *old(store),
        r matches Ok(resp) ==> {
            &&& req.new_username@.len() > 0
            &&& !username_taken_by_other(old(store).users@, req.new_username@, user_id)
            &&& resp.username@ == req.new_username@
            &&& resp.updated_at == now
            &&& final(store).users@.len() == old(store).users@.len()
            &&& final(store).users@[user_id - 1].username@ == req.new_username@
            &&& final(store).users@[user_id - 1].id == user_id
            &&& final(store).users@[user_id - 1].password_hash == old(store).users@[user_id
                - 1].password_hash
            &&& final(store).users@[user_id - 1].created_at == old(store).users@[user_id
                - 1].created_at
            &&& forall|j: int|
                0 <= j < old(store).users@.len() && j != user_id - 1 ==> final(store).users@[j]
                    == old(store).users@[j]
            &&& has_user_named(final(store).users@, req.new_username@)
            &&& user_id_by_name(final(store).users@, req.new_username@) == user_id
            &&& final(store).sessions == old(store).sessions
            &&& final(store).messages == old(store).messages
            &&& final(store).user_keys == old(store).user_keys
            &&& final(store).prekeys == old(store).prekeys
            &&& final(store).next_prekey_id == old(store).next_prekey_id
        },
{
    if req.new_username.as_str().is_empty() {
        return Err(ApiError::EmptyUsername);
    }
    let uname: String = req.new_username.clone();
    let n = store.users.len();
    let mut i: usize = 0;
    while i < n
        invariant
            *store == *old(store),
            old(store).wf(),
            n == store.users@.len(),
            uname@ == req.new_username@,
            req.new_username@.len() > 0,
            forall|j: int|
                0 <= j < i ==> !((#[trigger] store.users@[j]).username@ == uname@
                    && store.users@[j].id != user_id),
        decreases n - i,
    {
        if store.users[i].username == uname && store.users[i].id != user_id {
            proof {
                assert(old(store).users@[i as int].username@ == req.new_username@
                    && old(store).users@[i as int].id != user_id);
            }
            return Err(ApiError::UsernameTaken);
        }
        i += 1;
    }
    let idx = (user_id - 1) as usize;
    proof {
        assert(user_id as int <= n as int);
    }
    let ghost old_users = store.users@;
    store.users[idx].username = req.new_username;
    proof {
        let us = store.users@;
        assert(us[user_id - 1].username@ == uname@);
        assert forall|i2: int, j2: int|
            #![trigger us[i2], us[j2]]
            0 <= i2 < j2 < us.len() implies us[i2].username@ != us[j2].username@ by {
            if i2 != idx as int && j2 != idx as int {
                assert(us[i2] == old_users[i2]);
                assert(us[j2] == old_users[j2]);
            } else if i2 == idx as int {
                assert(us[j2] == old_users[j2]);
                assert(old_users[j2].id == j2 + 1);
            } else {
                assert(us[i2] == old_users[i2]);
                assert(old_users[i2].id == i2 + 1);
            }
        }
        assert(store.wf());
        let k = choose|i2: int|
            0 <= i2 < us.len() && (#[trigger] us[i2]).username@ == req.new_username@;
        if k != idx as int {
            assert(us[k] == old_users[k]);
        }
        assert(user_id_by_name(us, req.new_username@) == user_id);
    }
    Ok(UpdateUsernameResponse { username: uname, updated_at: now })
}

} // verus!
