//! The key-distribution service: publishing a user's key bundle
//! (replace-and-reset) and serving a bundle to a requester with
//! exactly-once consumption of one one-time prekey.

use vstd::prelude::*;

use crate::errors::ApiError;
use crate::models::{GetKeysResponse, KeyBundle, UploadKeysRequest, UploadKeysResponse};
use crate::store::{
    bundle_index_for, claim_at, has_bundle_for, has_claimable, has_user_named, is_unused_of,
    lemma_filter_all, lemma_filter_members, lemma_filter_none, lemma_filter_pairwise,
    lemma_filter_subsume, lemma_filter_take_all, lemma_filter_take_step, marked_used,
    prekey_ids_unique, unused_for, user_id_by_name, valid_user_id, OneTimePrekey, Store, UserKey,
};

verus! {

/// How many unused one-time prekeys a served bundle carries at most.
pub const BUNDLE_PREKEY_LIMIT: usize = 10;

/// The rows a publication of `batch` for user `u` inserts: one per supplied
/// key, tagged with its ordinal position as `key_id`, unused, with
/// identifiers drawn consecutively from `start_id`.
pub open spec fn publish_batch(u: i64, batch: Seq<String>, start_id: int, now: i64) -> Seq<
    OneTimePrekey,
> {
    Seq::new(
        batch.len(),
        |i: int|
            OneTimePrekey {
                id: (start_id + i) as i64,
                user_id: u,
                key_id: i as i64,
                public_key: batch[i],
                used: false,
                created_at: now,
            },
    )
}

/// The prekey rows of everyone but user `u`, in store order.
pub open spec fn retained_prekeys(ps: Seq<OneTimePrekey>, u: i64) -> Seq<OneTimePrekey> {
    ps.filter(|p: OneTimePrekey| p.user_id != u)
}

/// The prekey table after user `u` publishes `batch`: every other user's
/// rows kept in order, all of `u`'s former rows gone, and the new batch
/// appended.
pub open spec fn publish_prekeys(
    ps: Seq<OneTimePrekey>,
    u: i64,
    batch: Seq<String>,
    start_id: int,
    now: i64,
) -> Seq<OneTimePrekey> {
    retained_prekeys(ps, u) + publish_batch(u, batch, start_id, now)
}

/// Publish a key bundle: an idempotent upsert of the user's bundle row that
/// unconditionally invalidates (removes) all of the user's previous one-time
/// prekeys and inserts the supplied batch, as one atomic unit. Other users'
/// rows are untouched.
#[verifier::loop_isolation(false)]
pub fn upload_keys(store: &mut Store, user_id: i64, req: UploadKeysRequest, now: i64) -> (r:
    UploadKeysResponse)
    requires
        old(store).wf(),
        valid_user_id(old(store).users@, user_id),
        old(store).next_prekey_id + req.key_bundle.one_time_prekeys@.len()
            <= 0x7fff_ffff_ffff_ffff,
    ensures
        final(store).wf(),
        r.success,
        has_bundle_for(final(store).user_keys@, user_id),
        !has_bundle_for(old(store).user_keys@, user_id) ==> final(store).user_keys@ == old(
            store,
        ).user_keys@.push(
            UserKey {
                user_id,
                identity_key: req.key_bundle.identity_key,
                signed_prekey: req.key_bundle.signed_prekey,
                signed_prekey_signature: req.key_bundle.signed_prekey_signature,
                created_at: now,
            },
        ),
        has_bundle_for(old(store).user_keys@, user_id) ==> final(store).user_keys@ == old(
            store,
        ).user_keys@.update(
            bundle_index_for(old(store).user_keys@, user_id),
            UserKey {
                user_id,
                identity_key: req.key_bundle.identity_key,
                signed_prekey: req.key_bundle.signed_prekey,
                signed_prekey_signature: req.key_bundle.signed_prekey_signature,
                created_at: old(store).user_keys@[bundle_index_for(
                    old(store).user_keys@,
                    user_id,
                )].created_at,
            },
        ),
        final(store).prekeys@ == publish_prekeys(
            old(store).prekeys@,
            user_id,
            req.key_bundle.one_time_prekeys@,
            old(store).next_prekey_id as int,
            now,
        ),
        final(store).next_prekey_id == old(store).next_prekey_id
            + req.key_bundle.one_time_prekeys@.len(),
        final(store).users == old(store).users,
        final(store).sessions == old(store).sessions,
        final(store).messages == old(store).messages,
{
    let UploadKeysRequest { key_bundle } = req;
    let KeyBundle { identity_key, signed_prekey, signed_prekey_signature, one_time_prekeys } =
        key_bundle;
    let mut batch = one_time_prekeys;

    // Upsert the bundle row.
    let n = store.user_keys.len();
    let mut i: usize = 0;
    let mut found: Option<usize> = None;
    while i < n
        invariant
            *store == *old(store),
            old(store).wf(),
            n == store.user_keys@.len(),
            i <= n,
            match found {
                Some(k) => k < i && store.user_keys@[k as int].user_id == user_id,
                None => forall|j: int|
                    0 <= j < i ==> (#[trigger] store.user_keys@[j]).user_id != user_id,
            },
        decreases n - i,
    {
        if found.is_none() && store.user_keys[i].user_id == user_id {
            found = Some(i);
        }
        i += 1;
    }
    match found {
        Some(k) => {
            proof {
                assert(store.user_keys@[k as int].user_id == user_id);
                assert(has_bundle_for(store.user_keys@, user_id));
                let c = bundle_index_for(old(store).user_keys@, user_id);
                if c != k as int {
                    assert(store.user_keys@[c].user_id != store.user_keys@[k as int].user_id);
                }
            }
            let ghost mid0 = store.user_keys@;
            store.user_keys[k].identity_key = identity_key;
            store.user_keys[k].signed_prekey = signed_prekey;
            store.user_keys[k].signed_prekey_signature = signed_prekey_signature;
            proof {
                assert(store.user_keys@ =~= mid0.update(
                    k as int,
                    UserKey {
                        user_id,
                        identity_key: req.key_bundle.identity_key,
                        signed_prekey: req.key_bundle.signed_prekey,
                        signed_prekey_signature: req.key_bundle.signed_prekey_signature,
                        created_at: mid0[k as int].created_at,
                    },
                ));
                let ks = store.user_keys@;
                assert(ks[k as int].user_id == user_id);
                assert(has_bundle_for(ks, user_id));
                assert forall|a: int, b: int|
                    #![trigger ks[a], ks[b]]
                    0 <= a < b < ks.len() implies ks[a].user_id != ks[b].user_id by {
                    assert(mid0[a].user_id != mid0[b].user_id);
                }
            }
        },
        None => {
            proof {
                if has_bundle_for(store.user_keys@, user_id) {
                    let c = bundle_index_for(store.user_keys@, user_id);
                    assert(store.user_keys@[c].user_id == user_id);
                }
            }
            let ghost mid0 = store.user_keys@;
            store.user_keys.push(
                UserKey {
                    user_id,
                    identity_key,
                    signed_prekey,
                    signed_prekey_signature,
                    created_at: now,
                },
            );
            proof {
                let ks = store.user_keys@;
                assert(ks[ks.len() - 1].user_id == user_id);
                assert(has_bundle_for(ks, user_id));
                assert forall|a: int, b: int|
                    #![trigger ks[a], ks[b]]
                    0 <= a < b < ks.len() implies ks[a].user_id != ks[b].user_id by {
                    if b < mid0.len() {
                        assert(mid0[a].user_id != mid0[b].user_id);
                    } else {
                        assert(ks[a] == mid0[a]);
                    }
                }
            }
        },
    }

    // Invalidate the user's old one-time prekeys, keeping everyone else's
    // rows in order.
    let ghost ks_mid = store.user_keys@;
    let ghost orig = store.prekeys@;
    let mut kept: Vec<OneTimePrekey> = Vec::new();
    while store.prekeys.len() > 0
        invariant
            store.users == old(store).users,
            store.sessions == old(store).sessions,
            store.messages == old(store).messages,
            store.user_keys@ == ks_mid,
            store.next_prekey_id == old(store).next_prekey_id,
            store.prekeys@.len() <= orig.len(),
            store.prekeys@ =~= orig.skip(orig.len() - store.prekeys@.len()),
            kept@ == orig.take(orig.len() - store.prekeys@.len()).filter(
                |p: OneTimePrekey| p.user_id != user_id,
            ),
        decreases store.prekeys@.len(),
    {
        let ghost pr = orig.len() - store.prekeys@.len();
        let p = store.prekeys.remove(0);
        proof {
            assert(p == orig[pr]);
            assert(store.prekeys@ =~= orig.skip(pr + 1));
            lemma_filter_take_step(orig, |q: OneTimePrekey| q.user_id != user_id, pr);
        }
        if p.user_id != user_id {
            kept.push(p);
        }
    }
    proof {
        lemma_filter_take_all(orig, |p: OneTimePrekey| p.user_id != user_id);
        assert(kept@ == retained_prekeys(orig, user_id));
    }

    // Insert the new batch, tagging each key with its ordinal position.
    let ghost batch_orig = batch@;
    let ghost start_id = store.next_prekey_id as int;
    let total = batch.len();
    let mut bi: usize = 0;
    while bi < total
        invariant
            store.users == old(store).users,
            store.sessions == old(store).sessions,
            store.messages == old(store).messages,
            store.user_keys@ == ks_mid,
            bi <= total,
            total == batch_orig.len(),
            batch@ =~= batch_orig.skip(bi as int),
            store.next_prekey_id as int == start_id + bi,
            start_id + total <= 0x7fff_ffff_ffff_ffff,
            1 <= start_id,
            kept@ == retained_prekeys(orig, user_id) + publish_batch(
                user_id,
                batch_orig,
                start_id,
                now,
            ).take(bi as int),
        decreases total - bi,
    {
        let pk = batch.remove(0);
        let id = store.next_prekey_id;
        store.next_prekey_id = id + 1;
        kept.push(
            OneTimePrekey {
                id,
                user_id,
                key_id: bi as i64,
                public_key: pk,
                used: false,
                created_at: now,
            },
        );
        proof {
            assert(pk == batch_orig[bi as int]);
            assert(batch@ =~= batch_orig.skip(bi + 1));
            assert(kept@ =~= retained_prekeys(orig, user_id) + publish_batch(
                user_id,
                batch_orig,
                start_id,
                now,
            ).take(bi + 1));
        }
        bi += 1;
    }
    store.prekeys = kept;
    proof {
        assert(publish_batch(user_id, batch_orig, start_id, now).take(total as int)
            =~= publish_batch(user_id, batch_orig, start_id, now));
        assert(store.prekeys@ == publish_prekeys(orig, user_id, batch_orig, start_id, now));
        lemma_publish_wf(orig, old(store).users@, user_id, batch_orig, start_id, now);
    }
    UploadKeysResponse { success: true }
}

/// After a publication the prekey table is well formed again.
proof fn lemma_publish_wf(
    ps: Seq<OneTimePrekey>,
    users: Seq<crate::store::User>,
    u: i64,
    batch: Seq<String>,
    start_id: int,
    now: i64,
)
    requires
        crate::store::prekeys_wf(ps, users, start_id),
        valid_user_id(users, u),
        1 <= start_id,
        start_id + batch.len() <= 0x7fff_ffff_ffff_ffff,
    ensures
        crate::store::prekeys_wf(
            publish_prekeys(ps, u, batch, start_id, now),
            users,
            start_id + batch.len(),
        ),
{
    let pred = |p: OneTimePrekey| p.user_id != u;
    let f = ps.filter(pred);
    let b = publish_batch(u, batch, start_id, now);
    let out = publish_prekeys(ps, u, batch, start_id, now);
    lemma_filter_members(ps, pred);
    lemma_filter_pairwise(ps, pred, |a: OneTimePrekey, c: OneTimePrekey| a.id < c.id);
    lemma_filter_pairwise(
        ps,
        pred,
        |a: OneTimePrekey, c: OneTimePrekey| a.user_id == c.user_id ==> a.key_id < c.key_id,
    );
    assert forall|i: int| 0 <= i < f.len() implies 1 <= (#[trigger] f[i]).id && f[i].id < start_id
        && valid_user_id(users, f[i].user_id) && f[i].key_id >= 0 by {
        let k = choose|k: int| 0 <= k < ps.len() && ps[k] == f[i];
        assert(ps[k].id < start_id);
    }
    assert forall|i: int| 0 <= i < out.len() implies 1 <= (#[trigger] out[i]).id && out[i].id
        < start_id + batch.len() && valid_user_id(users, out[i].user_id) && out[i].key_id
        >= 0 by {
        if i >= f.len() {
            assert(out[i] == b[i - f.len()]);
        }
    }
    assert forall|i: int, j: int|
        #![trigger out[i], out[j]]
        0 <= i < j < out.len() implies out[i].id < out[j].id by {
        if j < f.len() {
        } else if i >= f.len() {
            assert(out[i] == b[i - f.len()]);
            assert(out[j] == b[j - f.len()]);
        } else {
            assert(out[j] == b[j - f.len()]);
            assert(out[i].id < start_id);
        }
    }
    assert forall|i: int, j: int|
        #![trigger out[i].key_id, out[j].key_id]
        0 <= i < j < out.len() && out[i].user_id == out[j].user_id implies out[i].key_id
        < out[j].key_id by {
        if j < f.len() {
            assert(out[i] == f[i] && out[j] == f[j]);
        } else if i >= f.len() {
            assert(out[i] == b[i - f.len()]);
            assert(out[j] == b[j - f.len()]);
        } else {
            assert(out[i] == f[i]);
            assert(out[j] == b[j - f.len()]);
            assert(out[i].user_id != u);
            assert(out[j].user_id == u);
        }
    }
}

/// All prekey rows of user `w`, used or not, in store order.
pub open spec fn prekeys_of(ps: Seq<OneTimePrekey>, w: i64) -> Seq<OneTimePrekey> {
    ps.filter(|p: OneTimePrekey| p.user_id == w)
}

/// The conditional update at the heart of the claim protocol: mark the prekey
/// row `prekey_id` as used exactly when it exists and is still unused, and
/// report whether this caller won the claim. A row that another caller
/// already consumed is never handed out again.
#[verifier::loop_isolation(false)]
pub fn claim_prekey(store: &mut Store, prekey_id: i64) -> (won: bool)
    requires
        old(store).wf(),
    ensures
        final(store).wf(),
        won == has_claimable(old(store).prekeys@, prekey_id),
        final(store).prekeys@ == claim_at(old(store).prekeys@, prekey_id),
        final(store).users == old(store).users,
        final(store).sessions == old(store).sessions,
        final(store).messages == old(store).messages,
        final(store).user_keys == old(store).user_keys,
        final(store).next_prekey_id == old(store).next_prekey_id,
{
    let n = store.prekeys.len();
    let mut i: usize = 0;
    while i < n
        invariant
            *store == *old(store),
            i <= n,
            n == store.prekeys@.len(),
            forall|j: int|
                0 <= j < i ==> !((#[trigger] store.prekeys@[j]).id == prekey_id
                    && !store.prekeys@[j].used),
        decreases n - i,
    {
        if store.prekeys[i].id == prekey_id {
            if !store.prekeys[i].used {
                proof {
                    assert(has_claimable(old(store).prekeys@, prekey_id));
                }
                let ghost before = store.prekeys@;
                store.prekeys[i].used = true;
                proof {
                    let k = choose|k: int|
                        0 <= k < before.len() && (#[trigger] before[k]).id == prekey_id
                            && !before[k].used;
                    if k != i as int {
                        assert(before[k].id != before[i as int].id);
                    }
                    assert(store.prekeys@ =~= before.update(
                        i as int,
                        marked_used(before[i as int]),
                    ));
                    assert(store.prekeys@ == claim_at(before, prekey_id));
                }
                return true;
            } else {
                proof {
                    assert forall|j: int| 0 <= j < store.prekeys@.len() implies !((
                    #[trigger] store.prekeys@[j]).id == prekey_id && !store.prekeys@[j].used) by {
                        if j != i as int {
                            assert(store.prekeys@[j].id != store.prekeys@[i as int].id);
                        }
                    }
                }
                return false;
            }
        }
        i += 1;
    }
    false
}

/// Serve user `username`'s key bundle to a requester: resolve the name, read
/// the bundle, list up to ten of the oldest unused one-time prekeys
/// (ascending `key_id`), and claim the first of them — the one with the
/// lowest `key_id` — through the conditional update, so that no other
/// requester can ever receive it again. An empty pool is not an error: the
/// bundle is still served, with an empty prekey list.
///
/// The claim is made on behalf of `requesting_user`, an identity the
/// authentication gate resolved: this is a protected operation, never served
/// to an anonymous caller.
#[verifier::loop_isolation(false)]
pub fn get_keys(store: &mut Store, requesting_user: i64, username: &str) -> (r: Result<
    GetKeysResponse,
    ApiError,
>)
    requires
        old(store).wf(),
        valid_user_id(old(store).users@, requesting_user),
    ensures
        final(store).wf(),
        (r matches Err(ApiError::UserNotFound)) <==> !has_user_named(
            old(store).users@,
            username@,
        ),
        (r matches Err(ApiError::KeysNotFound)) <==> (has_user_named(old(store).users@, username@)
            && !has_bundle_for(
            old(store).user_keys@,
            user_id_by_name(old(store).users@, username@),
        )),
        r matches Err(e) ==> (e == ApiError::UserNotFound || e == ApiError::KeysNotFound)
            && *final(store) == *old(store),
        r matches Ok(resp) ==> ({
            let uid = user_id_by_name(old(store).users@, username@);
            let row = old(store).user_keys@[bundle_index_for(old(store).user_keys@, uid)];
            let unused = unused_for(old(store).prekeys@, uid);
            &&& has_user_named(old(store).users@, username@)
            &&& has_bundle_for(old(store).user_keys@, uid)
            &&& resp.key_bundle.identity_key@ == row.identity_key@
            &&& resp.key_bundle.signed_prekey@ == row.signed_prekey@
            &&& resp.key_bundle.signed_prekey_signature@ == row.signed_prekey_signature@
            &&& resp.key_bundle.one_time_prekeys@.len() == (if unused.len() <= 10 {
                unused.len()
            } else {
                10
            })
            &&& forall|t: int|
                0 <= t < resp.key_bundle.one_time_prekeys@.len() ==> (
                #[trigger] resp.key_bundle.one_time_prekeys@[t])@ == unused[t].public_key@
            &&& final(store).users == old(store).users
            &&& final(store).sessions == old(store).sessions
            &&& final(store).messages == old(store).messages
            &&& final(store).user_keys == old(store).user_keys
            &&& final(store).next_prekey_id == old(store).next_prekey_id
            &&& unused.len() == 0 ==> final(store).prekeys == old(store).prekeys
            &&& unused.len() > 0 ==> exists|c: int|
                {
                    &&& 0 <= c < old(store).prekeys@.len()
                    &&& is_unused_of(#[trigger] old(store).prekeys@[c], uid)
                    &&& forall|j: int| 0 <= j < c ==> !is_unused_of(old(store).prekeys@[j], uid)
                    &&& final(store).prekeys@ == old(store).prekeys@.update(
                        c,
                        marked_used(old(store).prekeys@[c]),
                    )
                }
            &&& unused.len() > 0 ==> unused_for(final(store).prekeys@, uid)
                == unused.drop_first()
        }),
{
    let uid = match store.find_user_id(username) {
        Some(u) => u,
        None => { return Err(ApiError::UserNotFound) },
    };
    let n = store.user_keys.len();
    let mut i: usize = 0;
    let mut bundle_at: Option<usize> = None;
    while i < n
        invariant
            *store == *old(store),
            i <= n,
            n == store.user_keys@.len(),
            match bundle_at {
                Some(k) => k < i && store.user_keys@[k as int].user_id == uid,
                None => forall|j: int|
                    0 <= j < i ==> (#[trigger] store.user_keys@[j]).user_id != uid,
            },
        decreases n - i,
    {
        if bundle_at.is_none() && store.user_keys[i].user_id == uid {
            bundle_at = Some(i);
        }
        i += 1;
    }
    let k = match bundle_at {
        Some(k) => k,
        None => { return Err(ApiError::KeysNotFound) },
    };
    proof {
        assert(store.user_keys@[k as int].user_id == uid);
        assert(has_bundle_for(store.user_keys@, uid));
        let c = bundle_index_for(store.user_keys@, uid);
        if c != k as int {
            assert(store.user_keys@[c].user_id != store.user_keys@[k as int].user_id);
        }
    }

    // List up to ten of the oldest unused prekeys, remembering the first —
    // the claim candidate.
    let ghost ps = store.prekeys@;
    let ghost pred = |p: OneTimePrekey| is_unused_of(p, uid);
    let m = store.prekeys.len();
    let mut j: usize = 0;
    let mut listed: Vec<String> = Vec::new();
    let mut first: Option<i64> = None;
    let ghost mut c: int = 0;
    while j < m
        invariant
            *store == *old(store),
            j <= m,
            m == ps.len(),
            ps == store.prekeys@,
            listed@.len() == (if ps.take(j as int).filter(pred).len() <= 10 {
                ps.take(j as int).filter(pred).len()
            } else {
                10
            }),
            forall|t: int|
                0 <= t < listed@.len() ==> (#[trigger] listed@[t])@ == ps.take(j as int).filter(
                    pred,
                )[t].public_key@,
            match first {
                None => forall|t: int| 0 <= t < j ==> !is_unused_of(ps[t], uid),
                Some(id) => {
                    &&& 0 <= c < j
                    &&& ps[c].id == id
                    &&& is_unused_of(ps[c], uid)
                    &&& forall|t: int| 0 <= t < c ==> !is_unused_of(ps[t], uid)
                },
            },
        decreases m - j,
    {
        proof {
            lemma_filter_take_step(ps, pred, j as int);
            if first is None {
                lemma_filter_none(ps.take(j as int), pred);
            }
        }
        if store.prekeys[j].user_id == uid && !store.prekeys[j].used {
            if first.is_none() {
                first = Some(store.prekeys[j].id);
                proof {
                    c = j as int;
                }
            }
            if listed.len() < BUNDLE_PREKEY_LIMIT {
                listed.push(store.prekeys[j].public_key.clone());
            }
        }
        j += 1;
    }
    proof {
        lemma_filter_take_all(ps, pred);
    }

    let identity_key = store.user_keys[k].identity_key.clone();
    let signed_prekey = store.user_keys[k].signed_prekey.clone();
    let signed_prekey_signature = store.user_keys[k].signed_prekey_signature.clone();

    // Claim the listed prekey with the lowest key_id, exactly once.
    if let Some(id) = first {
        proof {
            assert(has_claimable(ps, id));
        }
        let won = claim_prekey(store, id);
        proof {
            let k2 = choose|t: int|
                0 <= t < ps.len() && (#[trigger] ps[t]).id == id && !ps[t].used;
            if k2 != c {
                assert(ps[k2].id != ps[c].id);
            }
            assert(final(store).prekeys@ == ps.update(c, marked_used(ps[c])));
            lemma_claim_first_unused(ps, uid, c);
        }
    } else {
        proof {
            lemma_filter_none(ps, pred);
            assert(unused_for(ps, uid).len() == 0);
        }
    }
    Ok(
        GetKeysResponse {
            key_bundle: KeyBundle {
                identity_key,
                signed_prekey,
                signed_prekey_signature,
                one_time_prekeys: listed,
            },
        },
    )
}

/// Claiming the first unused prekey of a user consumes exactly that row:
/// afterwards the user's unused pool is the old pool without its head, and
/// every other row is untouched.
pub proof fn lemma_claim_first_unused(s: Seq<OneTimePrekey>, u: i64, c: int)
    requires
        0 <= c < s.len(),
        is_unused_of(s[c], u),
        forall|j: int| 0 <= j < c ==> !is_unused_of(s[j], u),
    ensures
        unused_for(s, u).len() > 0,
        unused_for(s, u)[0] == s[c],
        unused_for(s.update(c, marked_used(s[c])), u) == unused_for(s, u).drop_first(),
{
    let pred = |p: OneTimePrekey| is_unused_of(p, u);
    let a = s.take(c);
    let b = s.skip(c + 1);
    let t = s.update(c, marked_used(s[c]));
    assert(s =~= a + seq![s[c]] + b);
    assert(t =~= a + seq![marked_used(s[c])] + b);
    Seq::filter_distributes_over_add(a + seq![s[c]], b, pred);
    Seq::filter_distributes_over_add(a, seq![s[c]], pred);
    Seq::filter_distributes_over_add(a + seq![marked_used(s[c])], b, pred);
    Seq::filter_distributes_over_add(a, seq![marked_used(s[c])], pred);
    lemma_filter_none(a, pred);
    assert(seq![s[c]].filter(pred) =~= seq![s[c]]) by {
        reveal(Seq::filter);
        assert(seq![s[c]].drop_last() =~= Seq::<OneTimePrekey>::empty());
    }
    assert(seq![marked_used(s[c])].filter(pred) =~= Seq::<OneTimePrekey>::empty()) by {
        reveal(Seq::filter);
        assert(seq![marked_used(s[c])].drop_last() =~= Seq::<OneTimePrekey>::empty());
    }
    assert(unused_for(s, u) == seq![s[c]] + b.filter(pred));
    assert(unused_for(t, u) == b.filter(pred));
    assert((seq![s[c]] + b.filter(pred)).drop_first() =~= b.filter(pred));
}

/// Exactly-once consumption at the linearization point: once a claim of a
/// prekey has won, no later claim of the same prekey can win, and a losing
/// claim leaves the rows exactly as they were.
pub proof fn lemma_claim_exactly_once(ps: Seq<OneTimePrekey>, id: i64)
    requires
        prekey_ids_unique(ps),
        has_claimable(ps, id),
    ensures
        !has_claimable(claim_at(ps, id), id),
        claim_at(claim_at(ps, id), id) == claim_at(ps, id),
{
    let k = choose|i: int| 0 <= i < ps.len() && (#[trigger] ps[i]).id == id && !ps[i].used;
    let t = claim_at(ps, id);
    assert(t == ps.update(k, marked_used(ps[k])));
    assert forall|i: int| 0 <= i < t.len() implies !((#[trigger] t[i]).id == id
        && !t[i].used) by {
        if i != k {
            assert(ps[i].id != ps[k].id);
        }
    }
}

/// Republication overwrites: publishing a second batch after a first leaves
/// the prekey table exactly as a single publication of the second batch
/// would, so nothing of the first batch survives.
pub proof fn lemma_publish_overwrites(
    ps: Seq<OneTimePrekey>,
    u: i64,
    b1: Seq<String>,
    n1: int,
    t1: i64,
    b2: Seq<String>,
    n2: int,
    t2: i64,
)
    ensures
        publish_prekeys(publish_prekeys(ps, u, b1, n1, t1), u, b2, n2, t2) == publish_prekeys(
            ps,
            u,
            b2,
            n2,
            t2,
        ),
{
    let pred = |p: OneTimePrekey| p.user_id != u;
    let f = ps.filter(pred);
    let batch1 = publish_batch(u, b1, n1, t1);
    Seq::filter_distributes_over_add(f, batch1, pred);
    lemma_filter_none(batch1, pred);
    lemma_filter_subsume(ps, pred, pred);
    assert(retained_prekeys(publish_prekeys(ps, u, b1, n1, t1), u) =~= f);
}

/// A publication resets the publishing user's pool to exactly the new batch
/// — every key unused, in batch order.
pub proof fn lemma_publish_resets(
    ps: Seq<OneTimePrekey>,
    u: i64,
    batch: Seq<String>,
    start_id: int,
    now: i64,
)
    ensures
        unused_for(publish_prekeys(ps, u, batch, start_id, now), u) == publish_batch(
            u,
            batch,
            start_id,
            now,
        ),
        prekeys_of(publish_prekeys(ps, u, batch, start_id, now), u) == publish_batch(
            u,
            batch,
            start_id,
            now,
        ),
{
    let not_u = |p: OneTimePrekey| p.user_id != u;
    let f = ps.filter(not_u);
    let b = publish_batch(u, batch, start_id, now);
    let out = publish_prekeys(ps, u, batch, start_id, now);
    let unused_u = |p: OneTimePrekey| is_unused_of(p, u);
    Seq::filter_distributes_over_add(f, b, unused_u);
    assert(f.filter(unused_u) =~= Seq::<OneTimePrekey>::empty()) by {
        lemma_filter_members(ps, not_u);
        lemma_filter_none(f, unused_u);
    }
    lemma_filter_all(b, unused_u);
    assert(unused_for(out, u) =~= b);

    let of_u = |p: OneTimePrekey| p.user_id == u;
    Seq::filter_distributes_over_add(f, b, of_u);
    assert(f.filter(of_u) =~= Seq::<OneTimePrekey>::empty()) by {
        lemma_filter_members(ps, not_u);
        lemma_filter_none(f, of_u);
    }
    lemma_filter_all(b, of_u);
    assert(prekeys_of(out, u) =~= b);
}

/// A publication by one user leaves every other user's prekey rows exactly
/// as they were.
pub proof fn lemma_publish_other_user(
    ps: Seq<OneTimePrekey>,
    u: i64,
    batch: Seq<String>,
    start_id: int,
    now: i64,
    w: i64,
)
    requires
        w != u,
    ensures
        prekeys_of(publish_prekeys(ps, u, batch, start_id, now), w) == prekeys_of(ps, w),
{
    let not_u = |p: OneTimePrekey| p.user_id != u;
    let f = ps.filter(not_u);
    let b = publish_batch(u, batch, start_id, now);
    let out = publish_prekeys(ps, u, batch, start_id, now);
    let of_w = |p: OneTimePrekey| p.user_id == w;
    Seq::filter_distributes_over_add(f, b, of_w);
    lemma_filter_none(b, of_w);
    lemma_filter_subsume(ps, not_u, of_w);
    assert(prekeys_of(out, w) =~= ps.filter(of_w));
}

} // verus!
