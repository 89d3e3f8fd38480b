//! The broker's cross-cutting guarantees, stated and proved over the spec
//! functions that the executable contracts use.

use vstd::prelude::*;

use crate::assoc::{
    assoc_contains, assoc_get, assoc_insert, assoc_remove, assoc_wf, lemma_get_insert_other,
    lemma_get_insert_same, lemma_get_remove_other, lemma_get_remove_same,
    lemma_insert_then_remove_fresh, lemma_remove_absent,
};
use crate::connection::{DispatchView, dispatch, dispatch_step, subscribe_step_view};
use crate::message::{FilterItemView, MessageView, filter_msg_spec};
use crate::storage::{
    SessionView, StorageView, fresh_session_view, own_delivery, publish_rel, session_of,
    share_deliveries, storage_wf, valid_picks, with_session,
};

verus! {

/// A published message that matches a session's non-shared filters (and is
/// neither expired nor blocked by `no_local`) is appended to that
/// session's queue exactly once per publish call: the queue grows by
/// exactly the one filtered message, before any share-group deliveries.
pub proof fn lemma_nonshared_delivered_once(
    pre: StorageView,
    post: StorageView,
    m: MessageView,
    now: u64,
    i: int,
)
    requires
        publish_rel(pre, post, m, now),
        0 <= i < pre.sessions.len(),
    ensures
        exists|extra: Seq<MessageView>|
            post.sessions[i].1.queue =~= pre.sessions[i].1.queue + own_delivery(
                pre.sessions[i].1,
                pre.sessions[i].0,
                m,
                now,
            ) + extra,
{
    let picks = choose|picks: Seq<Option<int>>|
        valid_picks(pre.shares, picks, m, now) && (forall|x: int|
            0 <= x < pre.sessions.len() ==> #[trigger] post.sessions[x] == (
                pre.sessions[x].0,
                SessionView {
                    queue: pre.sessions[x].1.queue + own_delivery(
                        pre.sessions[x].1,
                        pre.sessions[x].0,
                        m,
                        now,
                    ) + share_deliveries(pre.shares, picks, pre.sessions[x].0, m, now),
                    ..pre.sessions[x].1
                },
            ));
    let extra = share_deliveries(pre.shares, picks, pre.sessions[i].0, m, now);
    assert(post.sessions[i].1.queue =~= pre.sessions[i].1.queue + own_delivery(
        pre.sessions[i].1,
        pre.sessions[i].0,
        m,
        now,
    ) + extra);
}

/// For every share group with at least one member whose filters match the
/// published message, exactly one member is picked to receive it; a group
/// without a matching member delivers to nobody.
pub proof fn lemma_share_group_one_winner(
    shares: Seq<(Seq<u8>, Seq<(Seq<u8>, Seq<(Seq<u8>, FilterItemView)>)>)>,
    picks: Seq<Option<int>>,
    m: MessageView,
    now: u64,
    g: int,
)
    requires
        valid_picks(shares, picks, m, now),
        0 <= g < shares.len(),
        exists|j: int|
            0 <= j < shares[g].1.len() && filter_msg_spec(
                (#[trigger] shares[g].1[j]).1,
                shares[g].1[j].0,
                m,
                now,
            ) is Some,
    ensures
        picks[g] matches Some(j) && 0 <= j < shares[g].1.len() && filter_msg_spec(
            shares[g].1[j].1,
            shares[g].1[j].0,
            m,
            now,
        ) is Some,
{
    match picks[g] {
        Some(_) => {
        },
        None => {
            let j = choose|j: int|
                0 <= j < shares[g].1.len() && filter_msg_spec(
                    (#[trigger] shares[g].1[j]).1,
                    shares[g].1[j].0,
                    m,
                    now,
                ) is Some;
            assert(filter_msg_spec(shares[g].1[j].1, shares[g].1[j].0, m, now) is None);
        },
    }
}

/// The outbound dispatch loop spends exactly one unit of quota per
/// in-flight publish it creates, so unused quota plus in-flight count is
/// an invariant of delivery.
pub proof fn lemma_dispatch_quota(msgs: Seq<MessageView>, now: u64, init: DispatchView)
    requires
        init.inflight_add.len() == 0,
    ensures
        dispatch(msgs, now, init).quota == init.quota - dispatch(
            msgs,
            now,
            init,
        ).inflight_add.len(),
    decreases msgs.len(),
{
    if msgs.len() > 0 {
        lemma_dispatch_quota(msgs.drop_last(), now, init);
        let d = dispatch(msgs.drop_last(), now, init);
        assert(dispatch(msgs, now, init) == dispatch_step(d, msgs.last(), now));
        if !crate::message::spec_msg_expired(msgs.last(), now) && msgs.last().qos
            != crate::packets::Qos::AtMostOnce {
            assert(dispatch_step(d, msgs.last(), now).inflight_add.len() == d.inflight_add.len()
                + 1);
        }
    }
}

/// Delivery preserves the outbound flow invariant: unused quota plus the
/// number of in-flight QoS >= 1 publishes stays at the client's receive
/// maximum, because the dispatch loop spends exactly one unit of quota
/// per publish it puts in flight.
pub proof fn lemma_notified_preserves_flow(
    quota: int,
    max: int,
    inflight: Seq<crate::packets::PublishView>,
    pulled: Seq<MessageView>,
    now: u64,
    pid: u16,
    qos2: Seq<(u16, crate::connection::Qos2State)>,
)
    requires
        quota + inflight.len() == max,
    ensures
        ({
            let d = dispatch(pulled, now, crate::connection::dispatch_init(quota, pid, qos2));
            d.quota + (inflight + d.inflight_add).len() == max
        }),
{
    lemma_dispatch_quota(pulled, now, crate::connection::dispatch_init(quota, pid, qos2));
}

/// After a clean-start CONNECT the session is fresh: empty queue, no
/// subscriptions, no in-flight or uncompleted messages, no pending
/// will-delivery or expiry deadline.
pub proof fn lemma_clean_start_fresh(
    v: StorageView,
    cid: Seq<u8>,
    lwv: Option<crate::packets::LastWillView>,
)
    ensures
        ({
            let v2 = crate::connection::create_session_view(v, cid, true, lwv);
            &&& assoc_get(v2.sessions, cid) == Some(fresh_session_view(lwv))
            &&& session_of(v2, cid).queue.len() == 0
            &&& session_of(v2, cid).filters.len() == 0
            &&& session_of(v2, cid).inflight.len() == 0
            &&& session_of(v2, cid).uncompleted.len() == 0
            &&& session_of(v2, cid).last_will_deadline is None
            &&& session_of(v2, cid).remove_deadline is None
        }),
{
    lemma_get_insert_same(assoc_remove(v.sessions, cid), cid, fresh_session_view(lwv));
}

/// Subscribing a fresh (previously absent) non-shared filter and then
/// unsubscribing it restores the session's filter table; unsubscribing an
/// absent filter finds nothing and is a no-op on the table.
pub proof fn lemma_subscribe_unsubscribe_restores(
    v: StorageView,
    cid: Seq<u8>,
    item: FilterItemView,
    now: u64,
)
    requires
        storage_wf(v),
        assoc_contains(v.sessions, cid),
        item.topic_filter.share is None,
        !assoc_contains(session_of(v, cid).filters, item.topic_filter.path),
    ensures
        ({
            let path = item.topic_filter.path;
            let v1 = subscribe_step_view(v, cid, item, now);
            &&& assoc_remove(session_of(v1, cid).filters, path) =~= session_of(v, cid).filters
            &&& assoc_remove(session_of(v, cid).filters, path) =~= session_of(v, cid).filters
            &&& assoc_get(session_of(v, cid).filters, path) is None
        }),
{
    let path = item.topic_filter.path;
    let s = session_of(v, cid);
    let f2 = assoc_insert(s.filters, path, item);
    let v1 = subscribe_step_view(v, cid, item, now);
    let ns = session_of(v1, cid);
    assert(ns.filters == f2) by {
        let replay = item.retain_handling == crate::packets::RetainHandling::OnEverySubscribe || (
        item.retain_handling == crate::packets::RetainHandling::OnNewSubscribe
            && !assoc_contains(s.filters, path));
        let updated = SessionView {
            filters: f2,
            queue: s.queue + if replay {
                crate::storage::retained_replay(v.retained, f2, cid, now)
            } else {
                Seq::empty()
            },
            ..s
        };
        lemma_get_insert_same(v.sessions, cid, updated);
    }
    lemma_insert_then_remove_fresh(s.filters, path, item);
    lemma_remove_absent(s.filters, path);
    crate::assoc::lemma_get_some_iff_contains(s.filters, path);
}

/// After a connection is lost with a will still registered, the will is
/// scheduled exactly min(will-delay, session-expiry) after the
/// disconnect, the session itself is dropped after session-expiry, and
/// the periodic tick takes the will once its deadline has passed. (A
/// normal client DISCONNECT clears the will before the session is
/// detached, so nothing is scheduled then.)
pub proof fn lemma_will_fires_after_min_delay(s: SessionView, expiry: u32, at: u64, now: u64)
    requires
        s.last_will is Some,
    ensures
        ({
            let s2 = crate::storage::disconnected_session(s, expiry, at);
            let delay = crate::storage::will_delay_of(s.last_will->Some_0);
            let capped: u64 = if delay <= expiry {
                delay as u64
            } else {
                expiry as u64
            };
            &&& s2.last_will_deadline == Some(crate::message::spec_add_sat(at, capped))
            &&& s2.remove_deadline == Some(crate::message::spec_add_sat(at, expiry as u64))
            &&& crate::storage::will_deadline_passed(s2, now) == (crate::message::spec_add_sat(
                at,
                capped,
            ) < now)
        }),
{
}

/// The share table carries no empty client or group entries; subscribe
/// creates entries only to fill them and unsubscribe removes entries it
/// empties, so the operations keep this shape.
pub open spec fn shares_tidy(
    shares: Seq<(Seq<u8>, Seq<(Seq<u8>, Seq<(Seq<u8>, FilterItemView)>)>)>,
) -> bool {
    &&& forall|g: int| 0 <= g < shares.len() ==> (#[trigger] shares[g]).1.len() > 0
    &&& forall|g: int, c: int|
        0 <= g < shares.len() && 0 <= c < shares[g].1.len() ==> (
        #[trigger] shares[g].1[c]).1.len() > 0
}

/// Subscribing a fresh shared filter and then unsubscribing it restores
/// the share table, including the removal of the client and group
/// entries the subscribe created; unsubscribing an absent shared filter
/// is a no-op.
pub proof fn lemma_shared_subscribe_unsubscribe_restores(
    shares: Seq<(Seq<u8>, Seq<(Seq<u8>, Seq<(Seq<u8>, FilterItemView)>)>)>,
    g: Seq<u8>,
    cid: Seq<u8>,
    item: FilterItemView,
)
    requires
        assoc_wf(shares),
        shares_tidy(shares),
        item.topic_filter.share == Some(g),
        !crate::storage::share_contains(shares, g, cid, item.topic_filter.path),
    ensures
        crate::storage::share_unsubscribed(
            crate::storage::share_subscribed(shares, g, cid, item),
            g,
            cid,
            item.topic_filter.path,
        ) =~= shares,
        crate::storage::share_unsubscribed(shares, g, cid, item.topic_filter.path) =~= shares,
{
    let path = item.topic_filter.path;
    crate::assoc::lemma_get_some_iff_contains(shares, g);
    match assoc_get(shares, g) {
        None => {
            // the subscribe created group, client and filter; removing the
            // filter empties and removes them all again
            let f1 = assoc_insert(Seq::<(Seq<u8>, FilterItemView)>::empty(), path, item);
            let clients1 = assoc_insert(
                Seq::<(Seq<u8>, Seq<(Seq<u8>, FilterItemView)>)>::empty(),
                cid,
                f1,
            );
            lemma_get_insert_same(shares, g, clients1);
            crate::assoc::lemma_get_insert_same(
                Seq::<(Seq<u8>, Seq<(Seq<u8>, FilterItemView)>)>::empty(),
                cid,
                f1,
            );
            assert(assoc_remove(f1, path) =~= Seq::<(Seq<u8>, FilterItemView)>::empty());
            assert(assoc_remove(clients1, cid) =~= Seq::<(
                Seq<u8>,
                Seq<(Seq<u8>, FilterItemView)>,
            )>::empty());
            crate::assoc::lemma_remove_insert(shares, g, clients1);
            lemma_remove_absent(shares, g);
        },
        Some(clients) => {
            crate::assoc::lemma_get_is_entry(shares, g);
            let gi = choose|i: int| 0 <= i < shares.len() && shares[i] == (g, clients);
            assert(clients.len() > 0);
            crate::assoc::lemma_get_some_iff_contains(clients, cid);
            match assoc_get(clients, cid) {
                None => {
                    let f1 = assoc_insert(Seq::<(Seq<u8>, FilterItemView)>::empty(), path, item);
                    let clients1 = assoc_insert(clients, cid, f1);
                    lemma_get_insert_same(shares, g, clients1);
                    lemma_get_insert_same(clients, cid, f1);
                    assert(assoc_remove(f1, path) =~= Seq::<(Seq<u8>, FilterItemView)>::empty());
                    crate::assoc::lemma_remove_insert(clients, cid, f1);
                    lemma_remove_absent(clients, cid);
                    assert(assoc_remove(clients1, cid) =~= clients);
                    crate::assoc::lemma_insert_insert(shares, g, clients1, clients);
                    // this also settles the absent unsubscribe: the client
                    // entry is missing, so the table is rebuilt unchanged
                    crate::assoc::lemma_insert_same_value(shares, g, clients);
                },
                Some(fl) => {
                    crate::assoc::lemma_get_is_entry(clients, cid);
                    let ci = choose|i: int|
                        0 <= i < clients.len() && clients[i] == (cid, fl);
                    assert(fl.len() > 0) by {
                        assert(shares[gi].1[ci].1.len() > 0);
                    }
                    crate::assoc::lemma_get_some_iff_contains(fl, path);
                    let f1 = assoc_insert(fl, path, item);
                    let clients1 = assoc_insert(clients, cid, f1);
                    lemma_get_insert_same(shares, g, clients1);
                    lemma_get_insert_same(clients, cid, f1);
                    lemma_insert_then_remove_fresh(fl, path, item);
                    assert(assoc_remove(f1, path) =~= fl);
                    crate::assoc::lemma_insert_insert(clients, cid, f1, fl);
                    crate::assoc::lemma_insert_same_value(clients, cid, fl);
                    assert(assoc_insert(clients1, cid, assoc_remove(f1, path)) =~= clients);
                    crate::assoc::lemma_insert_insert(shares, g, clients1, clients);
                    crate::assoc::lemma_insert_same_value(shares, g, clients);
                    // the absent unsubscribe: removing the missing path
                    // leaves the filters, the client and the group alone
                    lemma_remove_absent(fl, path);
                    assert(assoc_remove(fl, path) =~= fl);
                    crate::assoc::lemma_insert_same_value(clients, cid, fl);
                    assert(assoc_insert(clients, cid, assoc_remove(fl, path)) =~= clients);
                },
            }
        },
    }
}

/// Of two retained-message updates for the same topic only the second is
/// visible afterwards: an empty payload leaves no entry, anything else
/// exactly the second message; other topics are untouched.
pub proof fn lemma_retained_second_wins(
    retained: Seq<(Seq<u8>, MessageView)>,
    topic: Seq<u8>,
    m1: MessageView,
    m2: MessageView,
    other: Seq<u8>,
)
    requires
        assoc_wf(retained),
        other != topic,
    ensures
        ({
            let r1 = if m1.payload.len() == 0 {
                assoc_remove(retained, topic)
            } else {
                assoc_insert(retained, topic, m1)
            };
            let r2 = if m2.payload.len() == 0 {
                assoc_remove(r1, topic)
            } else {
                assoc_insert(r1, topic, m2)
            };
            &&& assoc_get(r2, topic) == if m2.payload.len() == 0 {
                None::<MessageView>
            } else {
                Some(m2)
            }
            &&& assoc_get(r2, other) == assoc_get(retained, other)
        }),
{
    let r1 = if m1.payload.len() == 0 {
        assoc_remove(retained, topic)
    } else {
        assoc_insert(retained, topic, m1)
    };
    if m1.payload.len() == 0 {
        crate::assoc::lemma_remove_wf(retained, topic);
        lemma_get_remove_other(retained, topic, other);
    } else {
        crate::assoc::lemma_insert_wf(retained, topic, m1);
        lemma_get_insert_other(retained, topic, m1, other);
    }
    if m2.payload.len() == 0 {
        lemma_get_remove_same(r1, topic);
        lemma_get_remove_other(r1, topic, other);
    } else {
        crate::assoc::lemma_get_insert_same(r1, topic, m2);
        lemma_get_insert_other(r1, topic, m2, other);
    }
}

} // verus!
