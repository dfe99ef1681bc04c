//! Direct messaging: sending, listing (newest first), filtering by
//! counterpart, and marking a counterpart's messages read.

use vstd::prelude::*;

use crate::errors::ApiError;
use crate::models::{
    ConversationResponse, MessageResponse, SendMessageRequest, SendMessageResponse,
};
use crate::store::{
    has_user_named, lemma_filter_pairwise, lemma_filter_take_all, lemma_filter_take_prefix,
    lemma_filter_take_step, uname_of, user_id_by_name, valid_user_id, Message, Store,
};

verus! {

/// `u` is the sender or the recipient of `m`.
pub open spec fn involves(m: Message, u: i64) -> bool {
    m.from_user_id == u || m.to_user_id == u
}

/// `m` was exchanged between `u` and `v`, in either direction.
pub open spec fn between(m: Message, u: i64, v: i64) -> bool {
    (m.from_user_id == u && m.to_user_id == v) || (m.from_user_id == v && m.to_user_id == u)
}

/// The messages involving `u`, in store (insertion) order.
pub open spec fn msgs_involving(ms: Seq<Message>, u: i64) -> Seq<Message> {
    ms.filter(|m: Message| involves(m, u))
}

/// The messages between `u` and `v`, in store (insertion) order.
pub open spec fn msgs_between(ms: Seq<Message>, u: i64, v: i64) -> Seq<Message> {
    ms.filter(|m: Message| between(m, u, v))
}

/// `m` is still-unread mail from `other` to `me`.
pub open spec fn is_unread_from(m: Message, other: i64, me: i64) -> bool {
    m.from_user_id == other && m.to_user_id == me && m.read_at is None
}

/// `m` with its read timestamp set; every other field kept.
pub open spec fn marked_read(m: Message, t: i64) -> Message {
    Message {
        id: m.id,
        from_user_id: m.from_user_id,
        to_user_id: m.to_user_id,
        content: m.content,
        created_at: m.created_at,
        read_at: Some(t),
    }
}

/// `r` renders message `m` with both usernames resolved.
pub open spec fn renders(r: MessageResponse, m: Message, users: Seq<crate::store::User>) -> bool {
    &&& r.id == m.id
    &&& r.content@ == m.content@
    &&& r.created_at == m.created_at
    &&& r.from_username@ == uname_of(users, m.from_user_id)
    &&& r.to_username@ == uname_of(users, m.to_user_id)
}

/// Send a message: reject empty content, resolve the recipient by exact
/// username, and append the message unread.
#[verifier::loop_isolation(false)]
pub fn send_message(store: &mut Store, sender_id: i64, req: SendMessageRequest, now: i64) -> (r:
    Result<SendMessageResponse, ApiError>)
    requires
        old(store).wf(),
        valid_user_id(old(store).users@, sender_id),
        old(store).messages@.len() < 0x7fff_ffff_ffff_ffff,
        old(store).messages@.len() == 0 || old(store).messages@.last().created_at <= now,
    ensures
        final(store).wf(),
        r matches Err(ApiError::EmptyContent) <==> req.content@.len() == 0,
        r matches Err(ApiError::RecipientNotFound) <==> (req.content@.len() > 0
            && !has_user_named(old(store).users@, req.to_username@)),
        r matches Err(e) ==> (e == ApiError::EmptyContent || e == ApiError::RecipientNotFound)
            && *final(store) == *old(store),
        r matches Ok(resp) ==> {
            &&& req.content@.len() > 0
            &&& has_user_named(old(store).users@, req.to_username@)
            &&& resp.message_id == old(store).messages@.len() + 1
            &&& resp.created_at == now
            &&& final(store).messages@ == old(store).messages@.push(
                Message {
                    id: resp.message_id,
                    from_user_id: sender_id,
                    to_user_id: user_id_by_name(old(store).users@, req.to_username@),
                    content: req.content,
                    created_at: now,
                    read_at: None,
                },
            )
            &&& final(store).users == old(store).users
            &&& final(store).sessions == old(store).sessions
            &&& final(store).user_keys == old(store).user_keys
            &&& final(store).prekeys == old(store).prekeys
            &&& final(store).next_prekey_id == old(store).next_prekey_id
        },
{
    if req.content.as_str().is_empty() {
        return Err(ApiError::EmptyContent);
    }
    let recipient_id = match store.find_user_id(req.to_username.as_str()) {
        Some(uid) => uid,
        None => { return Err(ApiError::RecipientNotFound) },
    };
    let message_id = store.messages.len() as i64 + 1;
    store.messages.push(
        Message {
            id: message_id,
            from_user_id: sender_id,
            to_user_id: recipient_id,
            content: req.content,
            created_at: now,
            read_at: None,
        },
    );
    Ok(SendMessageResponse { message_id, created_at: now })
}

/// List every message the user sent or received, newest first (reverse
/// insertion order, matching descending creation time), with usernames
/// resolved.
#[verifier::loop_isolation(false)]
pub fn get_messages(store: &Store, user_id: i64) -> (r: Vec<MessageResponse>)
    requires
        store.wf(),
    ensures
        r@.len() == msgs_involving(store.messages@, user_id).len(),
        forall|t: int|
            0 <= t < r@.len() ==> renders(
                #[trigger] r@[t],
                msgs_involving(store.messages@, user_id)[r@.len() - 1 - t],
                store.users@,
            ),
        forall|a: int, b: int|
            #![trigger r@[a].created_at, r@[b].created_at]
            0 <= a < b < r@.len() ==> r@[a].created_at >= r@[b].created_at,
{
    let ghost ms = store.messages@;
    let ghost pred = |m: Message| involves(m, user_id);
    let un = store.users.len();
    let mut out: Vec<MessageResponse> = Vec::new();
    let mut j: usize = store.messages.len();
    proof {
        lemma_filter_take_all(ms, pred);
    }
    while j > 0
        invariant
            j <= ms.len(),
            un == store.users@.len(),
            ms == store.messages@,
            out@.len() + ms.take(j as int).filter(pred).len() == ms.filter(pred).len(),
            forall|t: int|
                0 <= t < out@.len() ==> renders(
                    #[trigger] out@[t],
                    ms.filter(pred)[ms.filter(pred).len() - 1 - t],
                    store.users@,
                ),
        decreases j,
    {
        j -= 1;
        proof {
            lemma_filter_take_step(ms, pred, j as int);
            lemma_filter_take_prefix(ms, pred, j as int);
            lemma_filter_take_prefix(ms, pred, j + 1);
        }
        let m_from = store.messages[j].from_user_id;
        let m_to = store.messages[j].to_user_id;
        if m_from == user_id || m_to == user_id {
            let fi = (m_from - 1) as usize;
            let ti = (m_to - 1) as usize;
            proof {
                assert(m_from as int <= un as int && m_to as int <= un as int);
            }
            let resp = MessageResponse {
                id: store.messages[j].id,
                from_username: store.users[fi].username.clone(),
                to_username: store.users[ti].username.clone(),
                content: store.messages[j].content.clone(),
                created_at: store.messages[j].created_at,
            };
            proof {
                let fl = ms.take(j as int).filter(pred).len() as int;
                assert(ms.take(j + 1).filter(pred) == ms.take(j as int).filter(pred).push(
                    ms[j as int],
                ));
                assert(ms.take(j + 1).filter(pred)[fl] == ms[j as int]);
                assert(ms.filter(pred)[fl] == ms[j as int]);
                assert(renders(resp, ms[j as int], store.users@));
            }
            out.push(resp);
        }
    }
    proof {
        assert(ms.take(0) =~= Seq::<Message>::empty());
        reveal(Seq::filter);
        lemma_listing_sorted(out@, ms, pred, store.users@);
    }
    out
}

/// List the messages between the user and one named counterpart, newest
/// first, with usernames resolved; without a counterpart, list everything,
/// as [`get_messages`] does.
#[verifier::loop_isolation(false)]
pub fn get_filtered_messages(store: &Store, user_id: i64, with_user: Option<&str>) -> (r: Result<
    Vec<MessageResponse>,
    ApiError,
>)
    requires
        store.wf(),
    ensures
        r matches Err(e) ==> ({
            &&& e == ApiError::UserNotFound
            &&& with_user matches Some(name) && !has_user_named(store.users@, name@)
        }),
        r matches Ok(list) ==> forall|a: int, b: int|
            #![trigger list@[a].created_at, list@[b].created_at]
            0 <= a < b < list@.len() ==> list@[a].created_at >= list@[b].created_at,
        r matches Ok(list) ==> match with_user {
            Some(name) => ({
                let other = user_id_by_name(store.users@, name@);
                let pair = msgs_between(store.messages@, user_id, other);
                &&& has_user_named(store.users@, name@)
                &&& list@.len() == pair.len()
                &&& forall|t: int|
                    0 <= t < list@.len() ==> renders(
                        #[trigger] list@[t],
                        pair[list@.len() - 1 - t],
                        store.users@,
                    )
            }),
            None => ({
                let all = msgs_involving(store.messages@, user_id);
                &&& list@.len() == all.len()
                &&& forall|t: int|
                    0 <= t < list@.len() ==> renders(
                        #[trigger] list@[t],
                        all[list@.len() - 1 - t],
                        store.users@,
                    )
            }),
        },
{
    let name = match with_user {
        Some(name) => name,
        None => { return Ok(get_messages(store, user_id)) },
    };
    let other = match store.find_user_id(name) {
        Some(uid) => uid,
        None => { return Err(ApiError::UserNotFound) },
    };
    let ghost ms = store.messages@;
    let ghost pred = |m: Message| between(m, user_id, other);
    let un = store.users.len();
    let mut out: Vec<MessageResponse> = Vec::new();
    let mut j: usize = store.messages.len();
    proof {
        lemma_filter_take_all(ms, pred);
    }
    while j > 0
        invariant
            j <= ms.len(),
            un == store.users@.len(),
            ms == store.messages@,
            out@.len() + ms.take(j as int).filter(pred).len() == ms.filter(pred).len(),
            forall|t: int|
                0 <= t < out@.len() ==> renders(
                    #[trigger] out@[t],
                    ms.filter(pred)[ms.filter(pred).len() - 1 - t],
                    store.users@,
                ),
        decreases j,
    {
        j -= 1;
        proof {
            lemma_filter_take_step(ms, pred, j as int);
            lemma_filter_take_prefix(ms, pred, j as int);
            lemma_filter_take_prefix(ms, pred, j + 1);
        }
        let m_from = store.messages[j].from_user_id;
        let m_to = store.messages[j].to_user_id;
        if (m_from == user_id && m_to == other) || (m_from == other && m_to == user_id) {
            let fi = (m_from - 1) as usize;
            let ti = (m_to - 1) as usize;
            proof {
                assert(m_from as int <= un as int && m_to as int <= un as int);
            }
            let resp = MessageResponse {
                id: store.messages[j].id,
                from_username: store.users[fi].username.clone(),
                to_username: store.users[ti].username.clone(),
                content: store.messages[j].content.clone(),
                created_at: store.messages[j].created_at,
            };
            proof {
                let fl = ms.take(j as int).filter(pred).len() as int;
                assert(ms.take(j + 1).filter(pred) == ms.take(j as int).filter(pred).push(
                    ms[j as int],
                ));
                assert(ms.take(j + 1).filter(pred)[fl] == ms[j as int]);
                assert(ms.filter(pred)[fl] == ms[j as int]);
                assert(renders(resp, ms[j as int], store.users@));
            }
            out.push(resp);
        }
    }
    proof {
        assert(ms.take(0) =~= Seq::<Message>::empty());
        reveal(Seq::filter);
        lemma_listing_sorted(out@, ms, pred, store.users@);
    }
    Ok(out)
}

/// A listing that renders a time-sorted table's filtered rows in reverse
/// order carries nonincreasing creation times.
proof fn lemma_listing_sorted(
    out: Seq<MessageResponse>,
    ms: Seq<Message>,
    pred: spec_fn(Message) -> bool,
    users: Seq<crate::store::User>,
)
    requires
        forall|i: int, j: int|
            #![trigger ms[i].created_at, ms[j].created_at]
            0 <= i < j < ms.len() ==> ms[i].created_at <= ms[j].created_at,
        out.len() == ms.filter(pred).len(),
        forall|t: int|
            0 <= t < out.len() ==> renders(
                #[trigger] out[t],
                ms.filter(pred)[out.len() - 1 - t],
                users,
            ),
    ensures
        forall|a: int, b: int|
            #![trigger out[a].created_at, out[b].created_at]
            0 <= a < b < out.len() ==> out[a].created_at >= out[b].created_at,
{
    lemma_filter_pairwise(
        ms,
        pred,
        |x: Message, y: Message| x.created_at <= y.created_at,
    );
    let f = ms.filter(pred);
    assert forall|a: int, b: int|
        #![trigger out[a].created_at, out[b].created_at]
        0 <= a < b < out.len() implies out[a].created_at >= out[b].created_at by {
        assert(renders(out[a], f[out.len() - 1 - a], users));
        assert(renders(out[b], f[out.len() - 1 - b], users));
        assert(f[out.len() - 1 - b].created_at <= f[out.len() - 1 - a].created_at);
    }
}

/// Mark all still-unread messages from one named counterpart to the caller
/// as read, returning how many were marked. The counterpart is required.
#[verifier::loop_isolation(false)]
pub fn mark_messages_read(store: &mut Store, user_id: i64, with_user: Option<&str>, now: i64) -> (r:
    Result<u64, ApiError>)
    requires
        old(store).wf(),
    ensures
        final(store).wf(),
        r matches Err(ApiError::MissingWithUser) <==> with_user is None,
        r matches Err(ApiError::UserNotFound) <==> (with_user matches Some(name)
            && !has_user_named(old(store).users@, name@)),
        r matches Err(e) ==> (e == ApiError::MissingWithUser || e == ApiError::UserNotFound)
            && *final(store) == *old(store),
        r matches Ok(n) ==> (with_user matches Some(name) && {
            let other = user_id_by_name(old(store).users@, name@);
            &&& has_user_named(old(store).users@, name@)
            &&& n == old(store).messages@.filter(
                |m: Message| is_unread_from(m, other, user_id),
            ).len()
            &&& final(store).messages@.len() == old(store).messages@.len()
            &&& forall|t: int|
                0 <= t < old(store).messages@.len() ==> final(store).messages@[t] == (
                if is_unread_from(#[trigger] old(store).messages@[t], other, user_id) {
                    marked_read(old(store).messages@[t], now)
                } else {
                    old(store).messages@[t]
                })
            &&& final(store).users == old(store).users
            &&& final(store).sessions == old(store).sessions
            &&& final(store).user_keys == old(store).user_keys
            &&& final(store).prekeys == old(store).prekeys
            &&& final(store).next_prekey_id == old(store).next_prekey_id
        }),
{
    let name = match with_user {
        Some(name) => name,
        None => { return Err(ApiError::MissingWithUser) },
    };
    let other = match store.find_user_id(name) {
        Some(uid) => uid,
        None => { return Err(ApiError::UserNotFound) },
    };
    let ghost oms = store.messages@;
    let ghost pred = |m: Message| is_unread_from(m, other, user_id);
    let m = store.messages.len();
    let mut count: u64 = 0;
    let mut j: usize = 0;
    while j < m
        invariant
            j <= m,
            m == oms.len(),
            store.messages@.len() == oms.len(),
            count as int == oms.take(j as int).filter(pred).len(),
            forall|t: int| j <= t < oms.len() ==> store.messages@[t] == oms[t],
            forall|t: int|
                0 <= t < j ==> store.messages@[t] == (if pred(#[trigger] oms[t]) {
                    marked_read(oms[t], now)
                } else {
                    oms[t]
                }),
            store.users == old(store).users,
            store.sessions == old(store).sessions,
            store.user_keys == old(store).user_keys,
            store.prekeys == old(store).prekeys,
            store.next_prekey_id == old(store).next_prekey_id,
        decreases m - j,
    {
        proof {
            lemma_filter_take_step(oms, pred, j as int);
        }
        if store.messages[j].from_user_id == other && store.messages[j].to_user_id == user_id
            && store.messages[j].read_at.is_none() {
            store.messages[j].read_at = Some(now);
            proof {
                oms.take(j as int).lemma_filter_len(pred);
            }
            count = count + 1;
        }
        j += 1;
    }
    proof {
        lemma_filter_take_all(oms, pred);
        assert forall|t: int| 0 <= t < store.messages@.len() implies (
        #[trigger] store.messages@[t]).id == t + 1 && valid_user_id(
            store.users@,
            store.messages@[t].from_user_id,
        ) && valid_user_id(store.users@, store.messages@[t].to_user_id) by {
            assert(oms[t].id == t + 1);
        }
        assert forall|a: int, b: int|
            #![trigger store.messages@[a].created_at, store.messages@[b].created_at]
            0 <= a < b < store.messages@.len() implies store.messages@[a].created_at
            <= store.messages@[b].created_at by {
            assert(oms[a].created_at <= oms[b].created_at);
            assert(store.messages@[a].created_at == oms[a].created_at);
            assert(store.messages@[b].created_at == oms[b].created_at);
        }
    }
    Ok(count)
}


/// The counterpart of a message that involves `u` (which is `u` itself for a
/// note to oneself).
pub open spec fn other_party(m: Message, u: i64) -> i64 {
    if m.from_user_id == u {
        m.to_user_id
    } else {
        m.from_user_id
    }
}

/// Some entry of the partner list names counterpart `c`.
pub open spec fn contains_partner(ps: Seq<(i64, int)>, c: i64) -> bool {
    exists|t: int| 0 <= t < ps.len() && (#[trigger] ps[t]).0 == c
}

/// The conversation partners of `u` among the messages with index `j` or
/// higher, newest first: each distinct counterpart paired with the index of
/// the latest message exchanged with them.
pub open spec fn partners_newest_first(ms: Seq<Message>, u: i64, j: int) -> Seq<(i64, int)>
    decreases ms.len() - j,
{
    if j < 0 || j >= ms.len() {
        Seq::empty()
    } else {
        let rest = partners_newest_first(ms, u, j + 1);
        if involves(ms[j], u) && !contains_partner(rest, other_party(ms[j], u)) {
            rest.push((other_party(ms[j], u), j))
        } else {
            rest
        }
    }
}

/// How many messages from `c` to `u` are still unread.
pub open spec fn unread_count_of(ms: Seq<Message>, c: i64, u: i64) -> int {
    ms.filter(|m: Message| is_unread_from(m, c, u)).len() as int
}

/// `r` summarizes the conversation of `u` with counterpart `c`, whose latest
/// message stands at index `li`.
pub open spec fn renders_convo(
    r: ConversationResponse,
    c: i64,
    li: int,
    ms: Seq<Message>,
    users: Seq<crate::store::User>,
    u: i64,
) -> bool {
    &&& r.username@ == uname_of(users, c)
    &&& r.last_message@ == ms[li].content@
    &&& r.last_message_time == ms[li].created_at
    &&& r.unread_count == unread_count_of(ms, c, u)
}

/// Summarize the user's conversations: one entry per distinct counterpart,
/// ordered by the latest message exchanged with them, newest first, each
/// carrying that message and the number of the counterpart's messages still
/// unread.
#[verifier::loop_isolation(false)]
pub fn get_conversations(store: &Store, user_id: i64) -> (r: Vec<ConversationResponse>)
    requires
        store.wf(),
    ensures
        r@.len() == partners_newest_first(store.messages@, user_id, 0).len(),
        forall|t: int|
            0 <= t < r@.len() ==> renders_convo(
                #[trigger] r@[t],
                partners_newest_first(store.messages@, user_id, 0)[t].0,
                partners_newest_first(store.messages@, user_id, 0)[t].1,
                store.messages@,
                store.users@,
                user_id,
            ),
        forall|a: int, b: int|
            #![trigger r@[a].last_message_time, r@[b].last_message_time]
            0 <= a < b < r@.len() ==> r@[a].last_message_time >= r@[b].last_message_time,
{
    let ghost ms = store.messages@;
    let un = store.users.len();
    let mlen = store.messages.len();
    proof {
        if mlen > 0 {
            assert(ms[mlen - 1].id == mlen);
        }
    }
    let mut out: Vec<ConversationResponse> = Vec::new();
    let mut seen: Vec<i64> = Vec::new();
    let mut j: usize = mlen;
    while j > 0
        invariant
            j <= mlen,
            mlen == ms.len(),
            un == store.users@.len(),
            ms == store.messages@,
            seen@.len() == out@.len(),
            out@.len() == partners_newest_first(ms, user_id, j as int).len(),
            forall|t: int|
                0 <= t < out@.len() ==> seen@[t] == (#[trigger] partners_newest_first(
                    ms,
                    user_id,
                    j as int,
                )[t]).0,
            forall|t: int|
                0 <= t < out@.len() ==> renders_convo(
                    #[trigger] out@[t],
                    partners_newest_first(ms, user_id, j as int)[t].0,
                    partners_newest_first(ms, user_id, j as int)[t].1,
                    ms,
                    store.users@,
                    user_id,
                ),
        decreases j,
    {
        j -= 1;
        let ghost rest = partners_newest_first(ms, user_id, j as int + 1);
        let m_from = store.messages[j].from_user_id;
        let m_to = store.messages[j].to_user_id;
        if m_from == user_id || m_to == user_id {
            let c = if m_from == user_id {
                m_to
            } else {
                m_from
            };
            let mut s: usize = 0;
            let mut dup = false;
            while s < seen.len()
                invariant
                    s <= seen@.len(),
                    dup ==> exists|t: int| 0 <= t < seen@.len() && seen@[t] == c,
                    !dup ==> forall|t: int| 0 <= t < s ==> seen@[t] != c,
                decreases seen@.len() - s,
            {
                if seen[s] == c {
                    dup = true;
                }
                s += 1;
            }
            proof {
                if dup {
                    let t = choose|t: int| 0 <= t < seen@.len() && seen@[t] == c;
                    assert(rest[t].0 == c);
                    assert(contains_partner(rest, c));
                } else {
                    if contains_partner(rest, c) {
                        let t = choose|t: int| 0 <= t < rest.len() && (#[trigger] rest[t]).0 == c;
                        assert(seen@[t] == c);
                    }
                }
            }
            if !dup {
                let mut count: i64 = 0;
                let mut q: usize = 0;
                let ghost unread_pred = |m: Message| is_unread_from(m, c, user_id);
                while q < mlen
                    invariant
                        q <= mlen,
                        mlen == ms.len(),
                        ms == store.messages@,
                        count as int == ms.take(q as int).filter(unread_pred).len(),
                    decreases mlen - q,
                {
                    proof {
                        lemma_filter_take_step(ms, unread_pred, q as int);
                        ms.take(q as int).lemma_filter_len(unread_pred);
                    }
                    if store.messages[q].from_user_id == c && store.messages[q].to_user_id
                        == user_id && store.messages[q].read_at.is_none() {
                        count += 1;
                    }
                    q += 1;
                }
                proof {
                    lemma_filter_take_all(ms, unread_pred);
                }
                let fi = (c - 1) as usize;
                proof {
                    assert(c as int <= un as int);
                }
                let resp = ConversationResponse {
                    username: store.users[fi].username.clone(),
                    last_message: store.messages[j].content.clone(),
                    last_message_time: store.messages[j].created_at,
                    unread_count: count,
                };
                proof {
                    assert(partners_newest_first(ms, user_id, j as int) == rest.push(
                        (c, j as int),
                    ));
                    assert(renders_convo(resp, c, j as int, ms, store.users@, user_id));
                }
                out.push(resp);
                seen.push(c);
            } else {
                proof {
                    assert(partners_newest_first(ms, user_id, j as int) == rest);
                }
            }
        } else {
            proof {
                assert(partners_newest_first(ms, user_id, j as int) == rest);
            }
        }
    }
    proof {
        lemma_partners_indices(ms, user_id, 0);
        let ps2 = partners_newest_first(ms, user_id, 0);
        assert forall|a: int, b: int|
            #![trigger out@[a].last_message_time, out@[b].last_message_time]
            0 <= a < b < out@.len() implies out@[a].last_message_time
            >= out@[b].last_message_time by {
            assert(renders_convo(out@[a], ps2[a].0, ps2[a].1, ms, store.users@, user_id));
            assert(renders_convo(out@[b], ps2[b].0, ps2[b].1, ms, store.users@, user_id));
            assert(ps2[b].1 < ps2[a].1);
            assert(ms[ps2[b].1].created_at <= ms[ps2[a].1].created_at);
        }
    }
    out
}

/// Partner entries carry message indices inside the suffix they were drawn
/// from, in strictly descending order: the head of the list is the
/// counterpart of the newest message.
proof fn lemma_partners_indices(ms: Seq<Message>, u: i64, j: int)
    ensures
        forall|t: int|
            0 <= t < partners_newest_first(ms, u, j).len() ==> j <= (
            #[trigger] partners_newest_first(ms, u, j)[t]).1 < ms.len(),
        forall|a: int, b: int|
            #![trigger partners_newest_first(ms, u, j)[a], partners_newest_first(ms, u, j)[b]]
            0 <= a < b < partners_newest_first(ms, u, j).len() ==> partners_newest_first(
                ms,
                u,
                j,
            )[a].1 > partners_newest_first(ms, u, j)[b].1,
    decreases ms.len() - j,
{
    if j < 0 || j >= ms.len() {
    } else {
        lemma_partners_indices(ms, u, j + 1);
        let rest = partners_newest_first(ms, u, j + 1);
        let cur = partners_newest_first(ms, u, j);
        if involves(ms[j], u) && !contains_partner(rest, other_party(ms[j], u)) {
            assert(cur == rest.push((other_party(ms[j], u), j)));
            assert forall|t: int| 0 <= t < cur.len() implies j <= (#[trigger] cur[t]).1
                < ms.len() by {
                if t < rest.len() {
                    assert(cur[t] == rest[t]);
                } else {
                    assert(cur[t].1 == j);
                }
            }
            assert forall|a: int, b: int|
                #![trigger cur[a], cur[b]]
                0 <= a < b < cur.len() implies cur[a].1 > cur[b].1 by {
                assert(cur[a] == rest[a]);
                if b == cur.len() - 1 {
                    assert(rest[a].1 >= j + 1);
                    assert(cur[b].1 == j);
                } else {
                    assert(cur[b] == rest[b]);
                }
            }
        } else {
            assert(cur == rest);
            assert forall|t: int| 0 <= t < cur.len() implies j <= (#[trigger] cur[t]).1
                < ms.len() by {
                assert(rest[t].1 >= j + 1);
            }
        }
    }
}

} // verus!
