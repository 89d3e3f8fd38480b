//! The shared session and routing store: sessions with their queues,
//! subscriptions and in-flight state, retained messages, shared
//! subscriptions, and the will/expiry timers.
//!
//! Time is passed in as a number of seconds (`now`); the caller drives the
//! clock and the periodic timer tick.

use vstd::prelude::*;

use crate::assoc::{
    assoc_contains, assoc_get, assoc_insert, assoc_remove, assoc_wf,
    lemma_get_some_iff_contains, lemma_insert_at_first_index, lemma_insert_wf, lemma_remove_wf,
};
use crate::maps::{BMap, IdMap};
use crate::topic::TopicFilter;
use crate::message::{
    FilterItem, FilterItemView, Filters, Message, MessageView, filter_msg_spec,
    filters_entries_wf, spec_add_sat, add_sat,
};
use crate::packets::{LastWill, LastWillView, Publish, PublishView, Qos, RetainHandling, opt_will_view};

verus! {

pub open spec fn msg_views(s: Seq<Message>) -> Seq<MessageView> {
    s.map_values(|m: Message| m@)
}

pub open spec fn pub_views(s: Seq<Publish>) -> Seq<PublishView> {
    s.map_values(|p: Publish| p@)
}

/// The state a broker keeps for one client identifier.
pub struct Session {
    /// Messages awaiting delivery, oldest first.
    pub queue: Vec<Message>,
    /// Non-shared subscription filters, keyed by filter path.
    pub subscription_filters: Filters,
    /// The will registered at CONNECT, if any.
    pub last_will: Option<LastWill>,
    /// Outbound QoS >= 1 publishes not yet fully acknowledged, in
    /// transmission order.
    pub inflight_pub_packets: Vec<Publish>,
    /// Inbound QoS 2 messages awaiting PUBREL, keyed by packet identifier.
    pub uncompleted_messages: IdMap<Message>,
    /// When to deliver the will, if disconnected.
    pub last_will_deadline: Option<u64>,
    /// When to drop the session, if disconnected.
    pub remove_deadline: Option<u64>,
}

#[verifier::ext_equal]
pub ghost struct SessionView {
    pub queue: Seq<MessageView>,
    pub filters: Seq<(Seq<u8>, FilterItemView)>,
    pub last_will: Option<LastWillView>,
    pub inflight: Seq<PublishView>,
    pub uncompleted: Seq<(u16, MessageView)>,
    pub last_will_deadline: Option<u64>,
    pub remove_deadline: Option<u64>,
}

impl View for Session {
    type V = SessionView;

    open spec fn view(&self) -> SessionView {
        SessionView {
            queue: msg_views(self.queue@),
            filters: self.subscription_filters@,
            last_will: opt_will_view(self.last_will),
            inflight: pub_views(self.inflight_pub_packets@),
            uncompleted: self.uncompleted_messages@,
            last_will_deadline: self.last_will_deadline,
            remove_deadline: self.remove_deadline,
        }
    }
}

pub open spec fn session_view_wf(s: SessionView) -> bool {
    &&& filters_entries_wf(s.filters)
    &&& assoc_wf(s.uncompleted)
}

/// A freshly created session: everything empty but the will.
pub open spec fn fresh_session_view(lw: Option<LastWillView>) -> SessionView {
    SessionView {
        queue: Seq::empty(),
        filters: Seq::empty(),
        last_will: lw,
        inflight: Seq::empty(),
        uncompleted: Seq::empty(),
        last_will_deadline: None,
        remove_deadline: None,
    }
}

impl Session {
    fn fresh(last_will: Option<LastWill>) -> (r: Session)
        ensures
            r@ == fresh_session_view(opt_will_view(last_will)),
            session_view_wf(r@),
    {
        let r = Session {
            queue: Vec::new(),
            subscription_filters: Filters::new(),
            last_will,
            inflight_pub_packets: Vec::new(),
            uncompleted_messages: IdMap::new(),
            last_will_deadline: None,
            remove_deadline: None,
        };
        proof {
            assert(r@ =~= fresh_session_view(opt_will_view(r.last_will)));
        }
        r
    }
}

/// The client maps of the share groups: group name -> client -> filters.
pub open spec fn clients_wf(c: Seq<(Seq<u8>, Seq<(Seq<u8>, FilterItemView)>)>) -> bool {
    &&& assoc_wf(c)
    &&& forall|i: int| 0 <= i < c.len() ==> filters_entries_wf((#[trigger] c[i]).1)
}

#[verifier::ext_equal]
pub ghost struct StorageView {
    pub retained: Seq<(Seq<u8>, MessageView)>,
    pub sessions: Seq<(Seq<u8>, SessionView)>,
    pub shares: Seq<(Seq<u8>, Seq<(Seq<u8>, Seq<(Seq<u8>, FilterItemView)>)>)>,
    pub clients_expired: u64,
}

pub open spec fn storage_wf(v: StorageView) -> bool {
    &&& assoc_wf(v.retained)
    &&& assoc_wf(v.sessions)
    &&& forall|i: int| 0 <= i < v.sessions.len() ==> session_view_wf((#[trigger] v.sessions[i]).1)
    &&& assoc_wf(v.shares)
    &&& forall|i: int| 0 <= i < v.shares.len() ==> clients_wf((#[trigger] v.shares[i]).1)
}

/// The session stored under `cid` (meaningful when one is there).
pub open spec fn session_of(v: StorageView, cid: Seq<u8>) -> SessionView {
    assoc_get(v.sessions, cid)->Some_0
}

/// `v` with the session of `cid` replaced by `s`.
pub open spec fn with_session(v: StorageView, cid: Seq<u8>, s: SessionView) -> StorageView {
    StorageView { sessions: assoc_insert(v.sessions, cid, s), ..v }
}

/// Every share group without the entry of one client.
pub open spec fn shares_without_client(
    shares: Seq<(Seq<u8>, Seq<(Seq<u8>, Seq<(Seq<u8>, FilterItemView)>)>)>,
    cid: Seq<u8>,
) -> Seq<(Seq<u8>, Seq<(Seq<u8>, Seq<(Seq<u8>, FilterItemView)>)>)> {
    Seq::new(shares.len(), |i: int| (shares[i].0, assoc_remove(shares[i].1, cid)))
}

/// The will-delay interval of a will, zero when absent.
pub open spec fn will_delay_of(w: LastWillView) -> u32 {
    match w.properties.delay_interval {
        Some(d) => d,
        None => 0,
    }
}

/// The session as `disconnect_session` leaves it: the will fires after
/// min(will-delay, expiry), the session is removed after expiry.
pub open spec fn disconnected_session(s: SessionView, expiry: u32, now: u64) -> SessionView {
    SessionView {
        last_will_deadline: match s.last_will {
            Some(w) => Some(
                spec_add_sat(
                    now,
                    if will_delay_of(w) <= expiry {
                        will_delay_of(w) as u64
                    } else {
                        expiry as u64
                    },
                ),
            ),
            None => s.last_will_deadline,
        },
        remove_deadline: Some(spec_add_sat(now, expiry as u64)),
        ..s
    }
}

/// Counters over the whole store, for monitoring.
pub struct StorageMetrics {
    pub session_count: usize,
    pub inflight_messages_count: usize,
    pub retained_messages_count: usize,
    pub messages_count: usize,
    pub messages_bytes: usize,
    pub subscriptions_count: usize,
    pub clients_expired: usize,
}

/// The in-memory store shared by all connections.
pub struct Storage {
    retained: BMap<Message>,
    sessions: BMap<Session>,
    shares: BMap<BMap<Filters>>,
    clients_expired: u64,
}

impl View for Storage {
    type V = StorageView;

    closed spec fn view(&self) -> StorageView {
        StorageView {
            retained: self.retained@,
            sessions: self.sessions@,
            shares: self.shares@,
            clients_expired: self.clients_expired,
        }
    }
}

proof fn lemma_with_session_wf(v: StorageView, cid: Seq<u8>, s: SessionView)
    requires
        storage_wf(v),
        session_view_wf(s),
    ensures
        storage_wf(with_session(v, cid, s)),
{
    lemma_insert_wf(v.sessions, cid, s);
    let r = assoc_insert(v.sessions, cid, s);
    assert forall|i: int| 0 <= i < r.len() implies session_view_wf((#[trigger] r[i]).1) by {
        if r[i] == (cid, s) {
        } else {
            let j = choose|j: int| 0 <= j < v.sessions.len() && v.sessions[j] == r[i];
            assert(session_view_wf(v.sessions[j].1));
        }
    }
}

type ClientsView = Seq<(Seq<u8>, Seq<(Seq<u8>, FilterItemView)>)>;

type SharesView = Seq<(Seq<u8>, Seq<(Seq<u8>, Seq<(Seq<u8>, FilterItemView)>)>)>;

proof fn lemma_clients_wf_insert(c: ClientsView, cid: Seq<u8>, fl: Seq<(Seq<u8>, FilterItemView)>)
    requires
        clients_wf(c),
        filters_entries_wf(fl),
    ensures
        clients_wf(assoc_insert(c, cid, fl)),
{
    lemma_insert_wf(c, cid, fl);
    let r = assoc_insert(c, cid, fl);
    assert forall|i: int| 0 <= i < r.len() implies filters_entries_wf((#[trigger] r[i]).1) by {
        if r[i] == (cid, fl) {
        } else {
            let j = choose|j: int| 0 <= j < c.len() && c[j] == r[i];
            assert(filters_entries_wf(c[j].1));
        }
    }
}

proof fn lemma_clients_wf_remove(c: ClientsView, cid: Seq<u8>)
    requires
        clients_wf(c),
    ensures
        clients_wf(assoc_remove(c, cid)),
{
    lemma_remove_wf(c, cid);
    let r = assoc_remove(c, cid);
    assert forall|i: int| 0 <= i < r.len() implies filters_entries_wf((#[trigger] r[i]).1) by {
        let j = choose|j: int| 0 <= j < c.len() && c[j] == r[i];
        assert(filters_entries_wf(c[j].1));
    }
}

proof fn lemma_shares_wf_insert(s: SharesView, g: Seq<u8>, c: ClientsView)
    requires
        assoc_wf(s),
        forall|i: int| 0 <= i < s.len() ==> clients_wf((#[trigger] s[i]).1),
        clients_wf(c),
    ensures
        assoc_wf(assoc_insert(s, g, c)),
        forall|i: int| 0 <= i < assoc_insert(s, g, c).len() ==> clients_wf(
            (#[trigger] assoc_insert(s, g, c)[i]).1,
        ),
{
    lemma_insert_wf(s, g, c);
    let r = assoc_insert(s, g, c);
    assert forall|i: int| 0 <= i < r.len() implies clients_wf((#[trigger] r[i]).1) by {
        if r[i] == (g, c) {
        } else {
            let j = choose|j: int| 0 <= j < s.len() && s[j] == r[i];
            assert(clients_wf(s[j].1));
        }
    }
}

proof fn lemma_shares_wf_remove(s: SharesView, g: Seq<u8>)
    requires
        assoc_wf(s),
        forall|i: int| 0 <= i < s.len() ==> clients_wf((#[trigger] s[i]).1),
    ensures
        assoc_wf(assoc_remove(s, g)),
        forall|i: int| 0 <= i < assoc_remove(s, g).len() ==> clients_wf(
            (#[trigger] assoc_remove(s, g)[i]).1,
        ),
{
    lemma_remove_wf(s, g);
    let r = assoc_remove(s, g);
    assert forall|i: int| 0 <= i < r.len() implies clients_wf((#[trigger] r[i]).1) by {
        let j = choose|j: int| 0 <= j < s.len() && s[j] == r[i];
        assert(clients_wf(s[j].1));
    }
}

/// The share table after `client_id` subscribed to `item` under group `g`:
/// group and client entries are created as needed, the filter is keyed by
/// its path.
pub open spec fn share_subscribed(
    shares: SharesView,
    g: Seq<u8>,
    cid: Seq<u8>,
    item: FilterItemView,
) -> SharesView {
    let clients = match assoc_get(shares, g) {
        Some(c) => c,
        None => Seq::empty(),
    };
    let filters = match assoc_get(clients, cid) {
        Some(f) => f,
        None => Seq::empty(),
    };
    assoc_insert(
        shares,
        g,
        assoc_insert(clients, cid, assoc_insert(filters, item.topic_filter.path, item)),
    )
}

/// The share table after `client_id` unsubscribed `path` from group `g`:
/// an emptied client entry is dropped, and an emptied group with it.
pub open spec fn share_unsubscribed(shares: SharesView, g: Seq<u8>, cid: Seq<u8>, path: Seq<u8>)
    -> SharesView {
    match assoc_get(shares, g) {
        None => shares,
        Some(clients) => {
            let clients2 = match assoc_get(clients, cid) {
                None => clients,
                Some(fl) => {
                    let fl2 = assoc_remove(fl, path);
                    if fl2.len() == 0 {
                        assoc_remove(clients, cid)
                    } else {
                        assoc_insert(clients, cid, fl2)
                    }
                },
            };
            if clients2.len() == 0 {
                assoc_remove(shares, g)
            } else {
                assoc_insert(shares, g, clients2)
            }
        },
    }
}

/// Whether `path` is subscribed under group `g` for `client_id`.
pub open spec fn share_contains(shares: SharesView, g: Seq<u8>, cid: Seq<u8>, path: Seq<u8>)
    -> bool {
    match assoc_get(shares, g) {
        None => false,
        Some(clients) => match assoc_get(clients, cid) {
            None => false,
            Some(fl) => assoc_get(fl, path) is Some,
        },
    }
}

/// What one session's queue gains from the non-shared phase of a publish.
pub open spec fn own_delivery(s: SessionView, cid: Seq<u8>, m: MessageView, now: u64) -> Seq<
    MessageView,
> {
    match filter_msg_spec(s.filters, cid, m, now) {
        Some(d) => seq![d],
        None => Seq::empty(),
    }
}

/// A valid choice of share-group winners for message `m`: one matching
/// member wherever some member matches, and none exactly when no member
/// matches.
/// Whether `pick` is a valid winner for one group: a matching member
/// wherever some member matches, and none exactly when no member matches.
pub open spec fn group_pick_ok(
    group: ClientsView,
    pick: Option<int>,
    m: MessageView,
    now: u64,
) -> bool {
    match pick {
        Some(j) => 0 <= j < group.len() && filter_msg_spec(group[j].1, group[j].0, m, now)
            is Some,
        None => forall|j: int| 0 <= j < group.len() ==> filter_msg_spec(
            (#[trigger] group[j]).1,
            group[j].0,
            m,
            now,
        ) is None,
    }
}

pub open spec fn valid_picks(
    shares: SharesView,
    picks: Seq<Option<int>>,
    m: MessageView,
    now: u64,
) -> bool {
    &&& picks.len() == shares.len()
    &&& forall|g: int| 0 <= g < shares.len() ==> group_pick_ok(
        (#[trigger] shares[g]).1,
        picks[g],
        m,
        now,
    )
}

/// The messages the session of `cid` gains from the share phase, in group
/// order: the filtered message of each group whose winner is `cid`.
pub open spec fn share_deliveries(
    shares: SharesView,
    picks: Seq<Option<int>>,
    cid: Seq<u8>,
    m: MessageView,
    now: u64,
) -> Seq<MessageView>
    decreases shares.len(),
{
    if shares.len() == 0 || picks.len() != shares.len() {
        Seq::empty()
    } else {
        share_deliveries(shares.drop_last(), picks.drop_last(), cid, m, now) + (match picks.last() {
            Some(j) => {
                if 0 <= j < shares.last().1.len() && shares.last().1[j].0 == cid {
                    match filter_msg_spec(shares.last().1[j].1, cid, m, now) {
                        Some(d) => seq![d],
                        None => Seq::empty(),
                    }
                } else {
                    Seq::empty()
                }
            },
            None => Seq::empty(),
        })
    }
}

/// How publishing one message changes the store: retained messages, share
/// tables and counters stay; every session's queue is extended by its own
/// delivery and then, for some valid choice of winners, by the share
/// deliveries it won. Every non-shared match enqueues exactly once; every
/// matching share group delivers to exactly one member.
pub open spec fn publish_rel(pre: StorageView, post: StorageView, m: MessageView, now: u64)
    -> bool {
    &&& post.retained == pre.retained
    &&& post.shares == pre.shares
    &&& post.clients_expired == pre.clients_expired
    &&& post.sessions.len() == pre.sessions.len()
    &&& exists|picks: Seq<Option<int>>|
        valid_picks(pre.shares, picks, m, now) && (forall|i: int|
            0 <= i < pre.sessions.len() ==> #[trigger] post.sessions[i] == (
                pre.sessions[i].0,
                SessionView {
                    queue: pre.sessions[i].1.queue + own_delivery(
                        pre.sessions[i].1,
                        pre.sessions[i].0,
                        m,
                        now,
                    ) + share_deliveries(pre.shares, picks, pre.sessions[i].0, m, now),
                    ..pre.sessions[i].1
                },
            ))
}

/// `publish_rel`, chained over a list of messages in order: some sequence
/// of intermediate states leads from `pre` to `post`, one `publish_rel`
/// step per message.
pub open spec fn publish_list_rel(
    pre: StorageView,
    post: StorageView,
    msgs: Seq<MessageView>,
    now: u64,
) -> bool {
    exists|states: Seq<StorageView>|
        {
            &&& states.len() == msgs.len() + 1
            &&& states[0] == pre
            &&& states[msgs.len() as int] == post
            &&& forall|i: int| 0 <= i < msgs.len() ==> #[trigger] publish_rel(
                states[i],
                states[i + 1],
                msgs[i],
                now,
            )
        }
}

/// The will timer of a session has fired.
pub open spec fn will_deadline_passed(s: SessionView, now: u64) -> bool {
    match s.last_will_deadline {
        Some(t) => t < now,
        None => false,
    }
}

/// The expiry timer of a session has fired.
pub open spec fn session_expired(s: SessionView, now: u64) -> bool {
    match s.remove_deadline {
        Some(t) => t < now,
        None => false,
    }
}

/// The sessions after the will timers fired: a fired session loses its
/// will and its will deadline.
pub open spec fn after_wills(sessions: Seq<(Seq<u8>, SessionView)>, now: u64) -> Seq<(
    Seq<u8>,
    SessionView,
)> {
    Seq::new(
        sessions.len(),
        |i: int|
            (
                sessions[i].0,
                if will_deadline_passed(sessions[i].1, now) {
                    SessionView { last_will: None, last_will_deadline: None, ..sessions[i].1 }
                } else {
                    sessions[i].1
                },
            ),
    )
}

/// The wills collected by the tick, in session-table order.
pub open spec fn wills_due(sessions: Seq<(Seq<u8>, SessionView)>, now: u64) -> Seq<(
    Seq<u8>,
    LastWillView,
)>
    decreases sessions.len(),
{
    if sessions.len() == 0 {
        Seq::empty()
    } else {
        wills_due(sessions.drop_last(), now) + (if will_deadline_passed(sessions.last().1, now)
            && sessions.last().1.last_will is Some {
            seq![(sessions.last().0, sessions.last().1.last_will->Some_0)]
        } else {
            Seq::empty()
        })
    }
}

/// The will messages built from the collected wills at time `now`.
pub open spec fn will_msgs(wd: Seq<(Seq<u8>, LastWillView)>, now: u64) -> Seq<MessageView> {
    wd.map_values(|p: (Seq<u8>, LastWillView)| crate::message::from_last_will_view(p.1, now))
}

/// The keys of the sessions whose expiry timer has fired, in table order.
pub open spec fn expired_cids(sessions: Seq<(Seq<u8>, SessionView)>, now: u64) -> Seq<Seq<u8>>
    decreases sessions.len(),
{
    if sessions.len() == 0 {
        Seq::empty()
    } else {
        expired_cids(sessions.drop_last(), now) + (if session_expired(sessions.last().1, now) {
            seq![sessions.last().0]
        } else {
            Seq::empty()
        })
    }
}

/// The session table with all the given keys removed, in order.
pub open spec fn remove_all(sessions: Seq<(Seq<u8>, SessionView)>, cids: Seq<Seq<u8>>) -> Seq<(
    Seq<u8>,
    SessionView,
)>
    decreases cids.len(),
{
    if cids.len() == 0 {
        sessions
    } else {
        assoc_remove(remove_all(sessions, cids.drop_last()), cids.last())
    }
}

/// The share table with all the given clients removed, in order.
pub open spec fn shares_without_clients(shares: SharesView, cids: Seq<Seq<u8>>) -> SharesView
    decreases cids.len(),
{
    if cids.len() == 0 {
        shares
    } else {
        shares_without_client(shares_without_clients(shares, cids.drop_last()), cids.last())
    }
}

/// What one timer tick does to the store, wills aside: fired wills are
/// taken out of their sessions, expired sessions are dropped together with
/// their share memberships, and the expired-clients counter grows by their
/// number.
pub open spec fn ticked(v: StorageView, now: u64) -> StorageView {
    let sessions_w = after_wills(v.sessions, now);
    let dead = expired_cids(sessions_w, now);
    StorageView {
        retained: v.retained,
        sessions: remove_all(sessions_w, dead),
        shares: shares_without_clients(v.shares, dead),
        clients_expired: spec_add_sat(v.clients_expired, dead.len() as u64),
    }
}

/// The messages enqueued when a subscription replays retained messages:
/// every stored retained message, in table order, run through the (new)
/// filter table of the session.
pub open spec fn retained_replay(
    retained: Seq<(Seq<u8>, MessageView)>,
    filters: Seq<(Seq<u8>, FilterItemView)>,
    cid: Seq<u8>,
    now: u64,
) -> Seq<MessageView>
    decreases retained.len(),
{
    if retained.len() == 0 {
        Seq::empty()
    } else {
        retained_replay(retained.drop_last(), filters, cid, now) + (match filter_msg_spec(
            filters,
            cid,
            retained.last().1,
            now,
        ) {
            Some(d) => seq![d],
            None => Seq::empty(),
        })
    }
}

/// `x` capped at the largest `usize`.
pub open spec fn sat_usize(x: int) -> int {
    if x <= usize::MAX as int {
        x
    } else {
        usize::MAX as int
    }
}

fn usize_add_sat(a: usize, b: usize) -> (r: usize)
    ensures
        r as int == sat_usize(a + b),
{
    if a <= usize::MAX - b {
        a + b
    } else {
        usize::MAX
    }
}

pub open spec fn sum_inflight(s: Seq<(Seq<u8>, SessionView)>) -> int
    decreases s.len(),
{
    if s.len() == 0 {
        0
    } else {
        sum_inflight(s.drop_last()) + s.last().1.inflight.len()
    }
}

pub open spec fn sum_queued(s: Seq<(Seq<u8>, SessionView)>) -> int
    decreases s.len(),
{
    if s.len() == 0 {
        0
    } else {
        sum_queued(s.drop_last()) + s.last().1.queue.len()
    }
}

pub open spec fn sum_payload(q: Seq<MessageView>) -> int
    decreases q.len(),
{
    if q.len() == 0 {
        0
    } else {
        sum_payload(q.drop_last()) + q.last().payload.len()
    }
}

pub open spec fn sum_queue_bytes(s: Seq<(Seq<u8>, SessionView)>) -> int
    decreases s.len(),
{
    if s.len() == 0 {
        0
    } else {
        sum_queue_bytes(s.drop_last()) + sum_payload(s.last().1.queue)
    }
}

pub open spec fn sum_filters(s: Seq<(Seq<u8>, SessionView)>) -> int
    decreases s.len(),
{
    if s.len() == 0 {
        0
    } else {
        sum_filters(s.drop_last()) + s.last().1.filters.len()
    }
}

pub open spec fn sum_retained_bytes(r: Seq<(Seq<u8>, MessageView)>) -> int
    decreases r.len(),
{
    if r.len() == 0 {
        0
    } else {
        sum_retained_bytes(r.drop_last()) + r.last().1.payload.len()
    }
}

pub open spec fn sum_clients_filters(c: ClientsView) -> int
    decreases c.len(),
{
    if c.len() == 0 {
        0
    } else {
        sum_clients_filters(c.drop_last()) + c.last().1.len()
    }
}

pub open spec fn sum_share_filters(sh: SharesView) -> int
    decreases sh.len(),
{
    if sh.len() == 0 {
        0
    } else {
        sum_share_filters(sh.drop_last()) + sum_clients_filters(sh.last().1)
    }
}

/// Relies on fastrand::usize over `0..n`: returns a uniformly random index
/// below `n`; it panics only on an empty range, which the precondition
/// rules out.
#[verifier::external_body]
fn pick_index(n: usize) -> (r: usize)
    requires
        n >= 1,
    ensures
        r < n,
{
    fastrand::usize(0..n)
}

impl Storage {
    pub open spec fn wf(&self) -> bool {
        storage_wf(self@)
    }

    pub fn new() -> (r: Storage)
        ensures
            r.wf(),
            r@.retained == Seq::<(Seq<u8>, MessageView)>::empty(),
            r@.sessions == Seq::<(Seq<u8>, SessionView)>::empty(),
            r@.shares.len() == 0,
            r@.clients_expired == 0,
    {
        Storage {
            retained: BMap::new(),
            sessions: BMap::new(),
            shares: BMap::new(),
            clients_expired: 0,
        }
    }

    /// An empty payload deletes the retained message for the topic;
    /// anything else inserts or replaces it.
    pub fn update_retained_message(&mut self, topic: &[u8], msg: Message)
        requires
            old(self).wf(),
        ensures
            final(self).wf(),
            final(self)@ == (StorageView {
                retained: if msg@.payload.len() == 0 {
                    assoc_remove(old(self)@.retained, topic@)
                } else {
                    assoc_insert(old(self)@.retained, topic@, msg@)
                },
                ..old(self)@
            }),
    {
        let ghost old_retained = self@.retained;
        if msg.is_empty() {
            self.retained.remove(topic);
            proof {
                lemma_remove_wf(old_retained, topic@);
            }
        } else {
            let key = crate::bytes_util::clone_bytes_slice(topic);
            self.retained.insert(key, msg);
            proof {
                lemma_insert_wf(old_retained, topic@, msg@);
            }
        }
    }

    /// Up to `limit` messages from the front of the session's queue,
    /// without removing them.
    pub fn next_messages(&self, client_id: &[u8], limit: Option<usize>) -> (r: Vec<Message>)
        requires
            self.wf(),
            assoc_contains(self@.sessions, client_id@),
        ensures
            ({
                let q = session_of(self@, client_id@).queue;
                let lim = match limit {
                    Some(l) => l as int,
                    None => q.len() as int,
                };
                let n = if lim <= q.len() {
                    lim
                } else {
                    q.len() as int
                };
                msg_views(r@) == q.take(n)
            }),
    {
        let i = match self.sessions.find_idx(client_id) {
            Some(i) => i,
            None => {
                proof {
                    assert(false);
                }
                0
            },
        };
        let session = self.sessions.value_at(i);
        let ghost q = session_of(self@, client_id@).queue;
        proof {
            assert(session@ == session_of(self@, client_id@));
        }
        let qlen = session.queue.len();
        let n = match limit {
            Some(l) =>
                if l <= qlen {
                    l
                } else {
                    qlen
                },
            None => qlen,
        };
        let mut r: Vec<Message> = Vec::new();
        let mut j: usize = 0;
        while j < n
            invariant
                j <= n <= session.queue@.len(),
                q == msg_views(session.queue@),
                r@.len() == j,
                forall|x: int| 0 <= x < j ==> r@[x]@ == q[x],
            decreases n - j,
        {
            r.push(session.queue[j].duplicate());
            j += 1;
        }
        proof {
            assert(msg_views(r@) =~= q.take(n as int));
        }
        r
    }

    /// Pop `count` messages (or as many as there are) from the front of the
    /// session's queue.
    pub fn consume_messages(&mut self, client_id: &[u8], count: usize)
        requires
            old(self).wf(),
            assoc_contains(old(self)@.sessions, client_id@),
        ensures
            final(self).wf(),
            ({
                let q = session_of(old(self)@, client_id@).queue;
                let n = if count as int <= q.len() {
                    count as int
                } else {
                    q.len() as int
                };
                final(self)@ == with_session(
                    old(self)@,
                    client_id@,
                    SessionView { queue: q.skip(n), ..session_of(old(self)@, client_id@) },
                )
            }),
    {
        let i = match self.sessions.find_idx(client_id) {
            Some(i) => i,
            None => {
                proof {
                    assert(false);
                }
                0
            },
        };
        let ghost old_view = self@;
        let ghost old_sessions = self@.sessions;
        let (key, mut session) = self.sessions.take_at(i);
        let ghost s0 = session@;
        let mut c: usize = 0;
        proof {
            assert(s0.queue.skip(0) =~= s0.queue);
            assert(session@ =~= (SessionView { queue: s0.queue.skip(0), ..s0 }));
        }
        while c < count && session.queue.len() > 0
            invariant
                c <= count,
                c as int <= s0.queue.len(),
                session@ == (SessionView { queue: s0.queue.skip(c as int), ..s0 }),
            decreases count - c,
        {
            proof {
                assert(msg_views(session.queue@).len() == session.queue@.len());
                assert(c < s0.queue.len());
            }
            let ghost qpre = session.queue@;
            session.queue.remove(0);
            proof {
                assert(msg_views(qpre) == s0.queue.skip(c as int));
                assert forall|x: int| 0 <= x < session.queue@.len() implies msg_views(
                    session.queue@,
                )[x] == s0.queue.skip(c + 1)[x] by {
                    assert(session.queue@[x] == qpre[x + 1]);
                    assert(msg_views(qpre)[x + 1] == qpre[x + 1]@);
                }
                assert(msg_views(session.queue@).len() == s0.queue.skip(c + 1).len());
                assert(msg_views(session.queue@) =~= s0.queue.skip(c + 1));
                assert(session@ =~= (SessionView { queue: s0.queue.skip(c + 1), ..s0 }));
            }
            c += 1;
        }
        proof {
            let n = if count as int <= s0.queue.len() {
                count as int
            } else {
                s0.queue.len() as int
            };
            if c < count {
                assert(session.queue@.len() == 0);
                assert(msg_views(session.queue@).len() == 0);
                assert(s0.queue.skip(c as int).len() == 0);
            }
            assert(c == n);
        }
        let ghost s2 = session@;
        self.sessions.put_at(i, key, session);
        proof {
            assert(old_sessions.remove(i as int).insert(i as int, (client_id@, s2))
                =~= old_sessions.update(i as int, (client_id@, s2)));
            lemma_insert_at_first_index(old_sessions, client_id@, s2, i as int);
            assert(self@ =~= with_session(old_view, client_id@, s2));
            lemma_with_session_wf(old_view, client_id@, s2);
        }
    }

    /// Append an outbound in-flight publish to the session's deque.
    pub fn add_inflight_pub_packet(&mut self, client_id: &[u8], publish: Publish)
        requires
            old(self).wf(),
            assoc_contains(old(self)@.sessions, client_id@),
        ensures
            final(self).wf(),
            final(self)@ == with_session(
                old(self)@,
                client_id@,
                SessionView {
                    inflight: session_of(old(self)@, client_id@).inflight.push(publish@),
                    ..session_of(old(self)@, client_id@)
                },
            ),
    {
        let i = match self.sessions.find_idx(client_id) {
            Some(i) => i,
            None => {
                proof {
                    assert(false);
                }
                0
            },
        };
        let ghost old_view = self@;
        let ghost old_sessions = self@.sessions;
        let (key, mut session) = self.sessions.take_at(i);
        let ghost s0 = session@;
        session.inflight_pub_packets.push(publish);
        proof {
            assert(pub_views(session.inflight_pub_packets@) =~= s0.inflight.push(publish@));
        }
        let ghost s2 = session@;
        self.sessions.put_at(i, key, session);
        proof {
            assert(old_sessions.remove(i as int).insert(i as int, (client_id@, s2))
                =~= old_sessions.update(i as int, (client_id@, s2)));
            lemma_insert_at_first_index(old_sessions, client_id@, s2, i as int);
            assert(self@ =~= with_session(old_view, client_id@, s2));
            lemma_with_session_wf(old_view, client_id@, s2);
        }
    }

    /// Match the front of the in-flight deque against `packet_id`; return
    /// it (popping it when `remove` is set). Acknowledgments must arrive in
    /// transmission order: anything but the front is not matched.
    pub fn get_inflight_pub_packets(
        &mut self,
        client_id: &[u8],
        packet_id: u16,
        remove: bool,
    ) -> (r: Option<Publish>)
        requires
            old(self).wf(),
            assoc_contains(old(self)@.sessions, client_id@),
        ensures
            final(self).wf(),
            ({
                let s = session_of(old(self)@, client_id@);
                let front_matches = s.inflight.len() > 0 && s.inflight[0].packet_id == Some(
                    packet_id,
                );
                match r {
                    Some(p) => {
                        &&& front_matches
                        &&& p@ == s.inflight[0]
                        &&& final(self)@ == if remove {
                            with_session(
                                old(self)@,
                                client_id@,
                                SessionView { inflight: s.inflight.drop_first(), ..s },
                            )
                        } else {
                            with_session(old(self)@, client_id@, s)
                        }
                    },
                    None => {
                        &&& !front_matches
                        &&& final(self)@ == with_session(old(self)@, client_id@, s)
                    },
                }
            }),
    {
        let i = match self.sessions.find_idx(client_id) {
            Some(i) => i,
            None => {
                proof {
                    assert(false);
                }
                0
            },
        };
        let ghost old_view = self@;
        let ghost old_sessions = self@.sessions;
        let (key, mut session) = self.sessions.take_at(i);
        let ghost s0 = session@;
        let front_matches = if session.inflight_pub_packets.len() > 0 {
            match session.inflight_pub_packets[0].packet_id {
                Some(x) => x == packet_id,
                None => false,
            }
        } else {
            false
        };
        let r: Option<Publish> = if front_matches {
            if remove {
                let p = session.inflight_pub_packets.remove(0);
                proof {
                    assert(pub_views(session.inflight_pub_packets@) =~= s0.inflight.drop_first());
                }
                Some(p)
            } else {
                Some(session.inflight_pub_packets[0].duplicate())
            }
        } else {
            None
        };
        let ghost s2 = session@;
        self.sessions.put_at(i, key, session);
        proof {
            assert(old_sessions.remove(i as int).insert(i as int, (client_id@, s2))
                =~= old_sessions.update(i as int, (client_id@, s2)));
            lemma_insert_at_first_index(old_sessions, client_id@, s2, i as int);
            assert(self@ =~= with_session(old_view, client_id@, s2));
            lemma_with_session_wf(old_view, client_id@, s2);
            if !front_matches || !remove {
                assert(s2 =~= s0);
            }
        }
        r
    }

    /// Copies of all in-flight publishes, for replay on reconnect.
    pub fn get_all_inflight_pub_packets(&self, client_id: &[u8]) -> (r: Vec<Publish>)
        requires
            self.wf(),
            assoc_contains(self@.sessions, client_id@),
        ensures
            pub_views(r@) == session_of(self@, client_id@).inflight,
    {
        let i = match self.sessions.find_idx(client_id) {
            Some(i) => i,
            None => {
                proof {
                    assert(false);
                }
                0
            },
        };
        let session = self.sessions.value_at(i);
        proof {
            assert(session@ == session_of(self@, client_id@));
        }
        let mut r: Vec<Publish> = Vec::new();
        let mut j: usize = 0;
        while j < session.inflight_pub_packets.len()
            invariant
                j <= session.inflight_pub_packets@.len(),
                r@.len() == j,
                forall|x: int|
                    0 <= x < j ==> r@[x]@ == pub_views(session.inflight_pub_packets@)[x],
            decreases session.inflight_pub_packets.len() - j,
        {
            r.push(session.inflight_pub_packets[j].duplicate());
            j += 1;
        }
        proof {
            assert(pub_views(r@) =~= pub_views(session.inflight_pub_packets@));
        }
        r
    }

    /// Record an inbound QoS 2 message under its packet identifier; refused
    /// (returning `false`) while the identifier is still in use.
    pub fn add_uncompleted_message(&mut self, client_id: &[u8], packet_id: u16, msg: Message)
        -> (r: bool)
        requires
            old(self).wf(),
            assoc_contains(old(self)@.sessions, client_id@),
        ensures
            final(self).wf(),
            ({
                let s = session_of(old(self)@, client_id@);
                if assoc_contains(s.uncompleted, packet_id) {
                    r == false && final(self)@ == with_session(old(self)@, client_id@, s)
                } else {
                    r == true && final(self)@ == with_session(
                        old(self)@,
                        client_id@,
                        SessionView {
                            uncompleted: assoc_insert(s.uncompleted, packet_id, msg@),
                            ..s
                        },
                    )
                }
            }),
    {
        let i = match self.sessions.find_idx(client_id) {
            Some(i) => i,
            None => {
                proof {
                    assert(false);
                }
                0
            },
        };
        let ghost old_view = self@;
        let ghost old_sessions = self@.sessions;
        let (key, mut session) = self.sessions.take_at(i);
        let ghost s0 = session@;
        let r = if session.uncompleted_messages.contains_key(packet_id) {
            false
        } else {
            session.uncompleted_messages.insert(packet_id, msg);
            true
        };
        let ghost s2 = session@;
        self.sessions.put_at(i, key, session);
        proof {
            assert(old_sessions.remove(i as int).insert(i as int, (client_id@, s2))
                =~= old_sessions.update(i as int, (client_id@, s2)));
            lemma_insert_at_first_index(old_sessions, client_id@, s2, i as int);
            assert(self@ =~= with_session(old_view, client_id@, s2));
            if !r {
                assert(s2 =~= s0);
            } else {
                lemma_insert_wf(s0.uncompleted, packet_id, msg@);
            }
            lemma_with_session_wf(old_view, client_id@, s2);
        }
        r
    }

    /// Take the inbound QoS 2 message stored under `packet_id`, if any.
    pub fn remove_uncompleted_message(&mut self, client_id: &[u8], packet_id: u16) -> (r: Option<
        Message,
    >)
        requires
            old(self).wf(),
            assoc_contains(old(self)@.sessions, client_id@),
        ensures
            final(self).wf(),
            ({
                let s = session_of(old(self)@, client_id@);
                &&& final(self)@ == with_session(
                    old(self)@,
                    client_id@,
                    SessionView { uncompleted: assoc_remove(s.uncompleted, packet_id), ..s },
                )
                &&& match r {
                    Some(m) => assoc_get(s.uncompleted, packet_id) == Some(m@),
                    None => assoc_get(s.uncompleted, packet_id) is None,
                }
            }),
    {
        let i = match self.sessions.find_idx(client_id) {
            Some(i) => i,
            None => {
                proof {
                    assert(false);
                }
                0
            },
        };
        let ghost old_view = self@;
        let ghost old_sessions = self@.sessions;
        let (key, mut session) = self.sessions.take_at(i);
        let ghost s0 = session@;
        let r = session.uncompleted_messages.remove(packet_id);
        let ghost s2 = session@;
        self.sessions.put_at(i, key, session);
        proof {
            assert(old_sessions.remove(i as int).insert(i as int, (client_id@, s2))
                =~= old_sessions.update(i as int, (client_id@, s2)));
            lemma_insert_at_first_index(old_sessions, client_id@, s2, i as int);
            assert(self@ =~= with_session(old_view, client_id@, s2));
            lemma_remove_wf(s0.uncompleted, packet_id);
            lemma_with_session_wf(old_view, client_id@, s2);
        }
        r
    }

    fn shares_len(&self) -> (r: usize)
        ensures
            r == self@.shares.len(),
    {
        self.shares.len()
    }

    /// Drop the session of `client_id` and its membership in every share
    /// group.
    fn remove_session(&mut self, client_id: &[u8])
        requires
            old(self).wf(),
        ensures
            final(self).wf(),
            final(self)@ == (StorageView {
                sessions: assoc_remove(old(self)@.sessions, client_id@),
                shares: shares_without_client(old(self)@.shares, client_id@),
                ..old(self)@
            }),
    {
        let ghost old_view = self@;
        self.sessions.remove(client_id);
        proof {
            lemma_remove_wf(old_view.sessions, client_id@);
            assert forall|i: int| 0 <= i < self@.sessions.len() implies session_view_wf(
                (#[trigger] self@.sessions[i]).1,
            ) by {
                let j = choose|j: int|
                    0 <= j < old_view.sessions.len() && old_view.sessions[j]
                        == self@.sessions[i];
                assert(session_view_wf(old_view.sessions[j].1));
            }
        }
        let ghost mid_shares = self@.shares;
        let ghost mid_sessions = self@.sessions;
        let mut g: usize = 0;
        while g < self.shares_len()
            invariant
                g <= mid_shares.len(),
                mid_shares == old_view.shares,
                mid_sessions == assoc_remove(old_view.sessions, client_id@),
                self@.sessions == mid_sessions,
                self@.retained == old_view.retained,
                self@.clients_expired == old_view.clients_expired,
                self.shares@.len() == mid_shares.len(),
                forall|i: int|
                    0 <= i < g ==> #[trigger] self.shares@[i] == (
                        mid_shares[i].0,
                        assoc_remove(mid_shares[i].1, client_id@),
                    ),
                forall|i: int| g <= i < mid_shares.len() ==> #[trigger] self.shares@[i]
                    == mid_shares[i],
                forall|i: int| 0 <= i < mid_shares.len() ==> clients_wf(
                    (#[trigger] mid_shares[i]).1,
                ),
                assoc_wf(mid_shares),
            decreases mid_shares.len() - g,
        {
            let ghost pre_shares = self.shares@;
            let (gk, mut clients) = self.shares.take_at(g);
            clients.remove(client_id);
            proof {
                lemma_remove_wf(pre_shares[g as int].1, client_id@);
            }
            self.shares.put_at(g, gk, clients);
            proof {
                assert(self.shares@ =~= pre_shares.update(
                    g as int,
                    (mid_shares[g as int].0, assoc_remove(mid_shares[g as int].1, client_id@)),
                ));
            }
            g += 1;
        }
        proof {
            assert(self.shares@ =~= shares_without_client(mid_shares, client_id@));
            assert(self@ =~= (StorageView {
                sessions: assoc_remove(old_view.sessions, client_id@),
                shares: shares_without_client(old_view.shares, client_id@),
                ..old_view
            }));
            assert forall|i: int| 0 <= i < self@.shares.len() implies clients_wf(
                (#[trigger] self@.shares[i]).1,
            ) by {
                lemma_remove_wf(mid_shares[i].1, client_id@);
                let r = assoc_remove(mid_shares[i].1, client_id@);
                assert forall|x: int| 0 <= x < r.len() implies filters_entries_wf(
                    (#[trigger] r[x]).1,
                ) by {
                    let j = choose|j: int|
                        0 <= j < mid_shares[i].1.len() && mid_shares[i].1[j] == r[x];
                    assert(filters_entries_wf(mid_shares[i].1[j].1));
                }
            }
            assert(assoc_wf(self@.shares)) by {
                assert(forall|i: int| 0 <= i < self@.shares.len() ==> (
                #[trigger] self@.shares[i]).0 == mid_shares[i].0);
            }
        }
    }

    /// Create or resume the session of `client_id`.
    ///
    /// With `clean_start` the old session (and its share memberships) is
    /// dropped and a fresh one stored. Without it, an existing session is
    /// kept: its will is replaced and its pending will/expiry deadlines are
    /// cleared (the client is back); `true` is returned exactly then.
    pub fn create_session(
        &mut self,
        client_id: &[u8],
        clean_start: bool,
        last_will: Option<LastWill>,
    ) -> (session_present: bool)
        requires
            old(self).wf(),
        ensures
            final(self).wf(),
            session_present == (!clean_start && assoc_contains(
                old(self)@.sessions,
                client_id@,
            )),
            final(self)@ == ({
                let lwv = opt_will_view(last_will);
                if clean_start {
                    StorageView {
                        sessions: assoc_insert(
                            assoc_remove(old(self)@.sessions, client_id@),
                            client_id@,
                            fresh_session_view(lwv),
                        ),
                        shares: shares_without_client(old(self)@.shares, client_id@),
                        ..old(self)@
                    }
                } else if assoc_contains(old(self)@.sessions, client_id@) {
                    with_session(
                        old(self)@,
                        client_id@,
                        SessionView {
                            last_will: lwv,
                            last_will_deadline: None,
                            remove_deadline: None,
                            ..session_of(old(self)@, client_id@)
                        },
                    )
                } else {
                    with_session(old(self)@, client_id@, fresh_session_view(lwv))
                }
            }),
    {
        let ghost old_view = self@;
        if clean_start {
            self.remove_session(client_id);
            let ghost mid = self@;
            let fresh = Session::fresh(last_will);
            let ghost fv = fresh@;
            self.sessions.insert(crate::bytes_util::clone_bytes_slice(client_id), fresh);
            proof {
                lemma_insert_wf(mid.sessions, client_id@, fv);
                assert forall|i: int| 0 <= i < self@.sessions.len() implies session_view_wf(
                    (#[trigger] self@.sessions[i]).1,
                ) by {
                    if self@.sessions[i] == (client_id@, fv) {
                    } else {
                        let j = choose|j: int|
                            0 <= j < mid.sessions.len() && mid.sessions[j] == self@.sessions[i];
                        assert(session_view_wf(mid.sessions[j].1));
                    }
                }
            }
            false
        } else {
            match self.sessions.find_idx(client_id) {
                Some(i) => {
                    let ghost old_sessions = self@.sessions;
                    let (key, mut session) = self.sessions.take_at(i);
                    session.last_will = last_will;
                    session.last_will_deadline = None;
                    session.remove_deadline = None;
                    let ghost s2 = session@;
                    self.sessions.put_at(i, key, session);
                    proof {
                        assert(old_sessions.remove(i as int).insert(i as int, (client_id@, s2))
                            =~= old_sessions.update(i as int, (client_id@, s2)));
                        lemma_insert_at_first_index(old_sessions, client_id@, s2, i as int);
                        assert(self@ =~= with_session(old_view, client_id@, s2));
                        lemma_with_session_wf(old_view, client_id@, s2);
                    }
                    true
                },
                None => {
                    let fresh = Session::fresh(last_will);
                    let ghost fv = fresh@;
                    self.sessions.insert(crate::bytes_util::clone_bytes_slice(client_id), fresh);
                    proof {
                        assert(self@ =~= with_session(old_view, client_id@, fv));
                        lemma_with_session_wf(old_view, client_id@, fv);
                    }
                    false
                },
            }
        }
    }

    /// Install the will-delivery and session-expiry deadlines when the
    /// connection owning `client_id` goes away. The will fires after
    /// min(will-delay, session-expiry); the session is dropped after
    /// session-expiry.
    pub fn disconnect_session(&mut self, client_id: &[u8], session_expiry_interval: u32, now: u64)
        requires
            old(self).wf(),
        ensures
            final(self).wf(),
            final(self)@ == if assoc_contains(old(self)@.sessions, client_id@) {
                with_session(
                    old(self)@,
                    client_id@,
                    disconnected_session(
                        session_of(old(self)@, client_id@),
                        session_expiry_interval,
                        now,
                    ),
                )
            } else {
                old(self)@
            },
    {
        let ghost old_view = self@;
        match self.sessions.find_idx(client_id) {
            Some(i) => {
                let ghost old_sessions = self@.sessions;
                let (key, mut session) = self.sessions.take_at(i);
                if let Some(lw) = &session.last_will {
                    let delay = match lw.properties.delay_interval {
                        Some(d) => d,
                        None => 0,
                    };
                    let capped = if delay <= session_expiry_interval {
                        delay
                    } else {
                        session_expiry_interval
                    };
                    session.last_will_deadline = Some(add_sat(now, capped as u64));
                }
                session.remove_deadline = Some(add_sat(now, session_expiry_interval as u64));
                let ghost s2 = session@;
                self.sessions.put_at(i, key, session);
                proof {
                    assert(s2 =~= disconnected_session(
                        old_sessions[i as int].1,
                        session_expiry_interval,
                        now,
                    ));
                    assert(old_sessions.remove(i as int).insert(i as int, (client_id@, s2))
                        =~= old_sessions.update(i as int, (client_id@, s2)));
                    lemma_insert_at_first_index(old_sessions, client_id@, s2, i as int);
                    assert(self@ =~= with_session(old_view, client_id@, s2));
                    lemma_with_session_wf(old_view, client_id@, s2);
                }
            },
            None => {
            },
        }
    }

    /// Register a subscription. A shared filter goes to its share group
    /// (creating group and client entries as needed); a non-shared filter
    /// goes to the session's own table and, per its retain-handling,
    /// replays matching retained messages into the session's queue.
    pub fn subscribe(&mut self, client_id: &[u8], item: FilterItem, now: u64)
        requires
            old(self).wf(),
            crate::topic::filter_view_wf(item@.topic_filter),
            item@.topic_filter.share is None ==> assoc_contains(
                old(self)@.sessions,
                client_id@,
            ),
        ensures
            final(self).wf(),
            final(self)@ == match item@.topic_filter.share {
                Some(g) => StorageView {
                    shares: share_subscribed(old(self)@.shares, g, client_id@, item@),
                    ..old(self)@
                },
                None => ({
                    let s = session_of(old(self)@, client_id@);
                    let f2 = assoc_insert(s.filters, item@.topic_filter.path, item@);
                    let is_new = !assoc_contains(s.filters, item@.topic_filter.path);
                    let replay = item@.retain_handling == RetainHandling::OnEverySubscribe || (
                    item@.retain_handling == RetainHandling::OnNewSubscribe && is_new);
                    with_session(
                        old(self)@,
                        client_id@,
                        SessionView {
                            filters: f2,
                            queue: s.queue + if replay {
                                retained_replay(old(self)@.retained, f2, client_id@, now)
                            } else {
                                Seq::empty()
                            },
                            ..s
                        },
                    )
                }),
            },
    {
        let ghost old_view = self@;
        let ghost iv = item@;
        let group: Option<Vec<u8>> = match item.topic_filter.share_name() {
            Some(g) => Some(crate::bytes_util::clone_bytes(g)),
            None => None,
        };
        match group {
            Some(gname) => {
                let ghost gv = gname@;
                match self.shares.find_idx(gname.as_slice()) {
                    Some(gi) => {
                        let ghost old_shares = self@.shares;
                        let (gk, mut clients) = self.shares.take_at(gi);
                        let ghost cv0 = clients@;
                        proof {
                            assert(clients_wf(cv0));
                        }
                        match clients.find_idx(client_id) {
                            Some(ci) => {
                                let (ck, mut fl) = clients.take_at(ci);
                                proof {
                                    assert(filters_entries_wf(fl@));
                                }
                                let ghost fl0 = fl@;
                                fl.insert(item);
                                let ghost fl2 = fl@;
                                clients.put_at(ci, ck, fl);
                                proof {
                                    assert(clients@ =~= cv0.update(ci as int, (client_id@, fl2)));
                                    lemma_insert_at_first_index(cv0, client_id@, fl2, ci as int);
                                    assert(clients@ == assoc_insert(cv0, client_id@, fl2));
                                    lemma_clients_wf_insert(cv0, client_id@, fl2);
                                }
                                let ghost cl2 = clients@;
                                self.shares.put_at(gi, gk, clients);
                                proof {
                                    assert(self@.shares =~= old_shares.update(
                                        gi as int,
                                        (gv, cl2),
                                    ));
                                    lemma_insert_at_first_index(old_shares, gv, cl2, gi as int);
                                    assert(self@.shares == assoc_insert(old_shares, gv, cl2));
                                    lemma_shares_wf_insert(old_shares, gv, cl2);
                                    assert(self@ =~= (StorageView {
                                        shares: share_subscribed(old_shares, gv, client_id@, iv),
                                        ..old_view
                                    }));
                                }
                            },
                            None => {
                                let mut fl = Filters::new();
                                fl.insert(item);
                                let ghost fl2 = fl@;
                                clients.insert(
                                    crate::bytes_util::clone_bytes_slice(client_id),
                                    fl,
                                );
                                proof {
                                    assert(fl2 == assoc_insert(
                                        Seq::<(Seq<u8>, FilterItemView)>::empty(),
                                        iv.topic_filter.path,
                                        iv,
                                    ));
                                    lemma_clients_wf_insert(cv0, client_id@, fl2);
                                }
                                let ghost cl2 = clients@;
                                self.shares.put_at(gi, gk, clients);
                                proof {
                                    assert(self@.shares =~= old_shares.update(
                                        gi as int,
                                        (gv, cl2),
                                    ));
                                    lemma_insert_at_first_index(old_shares, gv, cl2, gi as int);
                                    lemma_shares_wf_insert(old_shares, gv, cl2);
                                    assert(self@ =~= (StorageView {
                                        shares: share_subscribed(old_shares, gv, client_id@, iv),
                                        ..old_view
                                    }));
                                }
                            },
                        }
                    },
                    None => {
                        let mut fl = Filters::new();
                        fl.insert(item);
                        let ghost fl2 = fl@;
                        let mut clients: BMap<Filters> = BMap::new();
                        clients.insert(crate::bytes_util::clone_bytes_slice(client_id), fl);
                        let ghost cl2 = clients@;
                        let ghost old_shares = self@.shares;
                        self.shares.insert(gname, clients);
                        proof {
                            assert(fl2 == assoc_insert(
                                Seq::<(Seq<u8>, FilterItemView)>::empty(),
                                iv.topic_filter.path,
                                iv,
                            ));
                            assert(cl2 == assoc_insert(
                                Seq::<(Seq<u8>, Seq<(Seq<u8>, FilterItemView)>)>::empty(),
                                client_id@,
                                fl2,
                            ));
                            lemma_clients_wf_insert(Seq::empty(), client_id@, fl2);
                            lemma_shares_wf_insert(old_shares, gv, cl2);
                            assert(self@ =~= (StorageView {
                                shares: share_subscribed(old_shares, gv, client_id@, iv),
                                ..old_view
                            }));
                        }
                    },
                }
            },
            None => {
                let i = match self.sessions.find_idx(client_id) {
                    Some(i) => i,
                    None => {
                        proof {
                            assert(false);
                        }
                        0
                    },
                };
                let ghost old_sessions = self@.sessions;
                let (key, mut session) = self.sessions.take_at(i);
                let ghost s0 = session@;
                proof {
                    assert(session_view_wf(s0));
                }
                let is_new = !session.subscription_filters.contains_path(
                    item.topic_filter.path().as_slice(),
                );
                let rh = item.retain_handling;
                session.subscription_filters.insert(item);
                let ghost f2 = session.subscription_filters@;
                let publish_retain = match rh {
                    RetainHandling::OnEverySubscribe => true,
                    RetainHandling::OnNewSubscribe => is_new,
                    RetainHandling::Never => false,
                };
                if publish_retain {
                    let ghost rt = self@.retained;
                    let mut j: usize = 0;
                    proof {
                        assert(rt.take(0) =~= Seq::<(Seq<u8>, MessageView)>::empty());
                        assert(msg_views(session.queue@) + retained_replay(
                            rt.take(0),
                            f2,
                            client_id@,
                            now,
                        ) =~= s0.queue);
                    }
                    while j < self.retained.len()
                        invariant
                            j <= rt.len(),
                            rt == self@.retained,
                            self.retained@ == rt,
                            session.subscription_filters@ == f2,
                            session.subscription_filters.wf(),
                            session@ == (SessionView {
                                filters: f2,
                                queue: s0.queue + retained_replay(
                                    rt.take(j as int),
                                    f2,
                                    client_id@,
                                    now,
                                ),
                                ..s0
                            }),
                        decreases rt.len() - j,
                    {
                        let m = self.retained.value_at(j);
                        let ghost qpre = msg_views(session.queue@);
                        match session.subscription_filters.filter_message(client_id, m, now) {
                            Some(out) => {
                                session.queue.push(out);
                                proof {
                                    assert(msg_views(session.queue@) =~= qpre.push(out@));
                                }
                            },
                            None => {
                            },
                        }
                        proof {
                            assert(rt.take(j + 1).drop_last() =~= rt.take(j as int));
                            assert(rt.take(j + 1).last() == rt[j as int]);
                            assert(msg_views(session.queue@) =~= s0.queue + retained_replay(
                                rt.take(j + 1),
                                f2,
                                client_id@,
                                now,
                            ));
                            assert(session@ =~= (SessionView {
                                filters: f2,
                                queue: s0.queue + retained_replay(
                                    rt.take(j + 1),
                                    f2,
                                    client_id@,
                                    now,
                                ),
                                ..s0
                            }));
                        }
                        j += 1;
                    }
                    proof {
                        assert(rt.take(rt.len() as int) =~= rt);
                    }
                } else {
                    proof {
                        assert(s0.queue + Seq::<MessageView>::empty() =~= s0.queue);
                    }
                }
                let ghost s2 = session@;
                self.sessions.put_at(i, key, session);
                proof {
                    assert(old_sessions.remove(i as int).insert(i as int, (client_id@, s2))
                        =~= old_sessions.update(i as int, (client_id@, s2)));
                    lemma_insert_at_first_index(old_sessions, client_id@, s2, i as int);
                    assert(self@ =~= with_session(old_view, client_id@, s2));
                    lemma_with_session_wf(old_view, client_id@, s2);
                }
            },
        }
    }

    /// Drop a subscription; `true` exactly when an entry was removed. A
    /// shared unsubscribe cleans up emptied client and group entries.
    pub fn unsubscribe(&mut self, client_id: &[u8], filter: &TopicFilter) -> (found: bool)
        requires
            old(self).wf(),
            filter@.share is None ==> assoc_contains(old(self)@.sessions, client_id@),
        ensures
            final(self).wf(),
            match filter@.share {
                Some(g) => {
                    &&& found == share_contains(old(self)@.shares, g, client_id@, filter@.path)
                    &&& final(self)@ == (StorageView {
                        shares: share_unsubscribed(old(self)@.shares, g, client_id@, filter@.path),
                        ..old(self)@
                    })
                },
                None => ({
                    let s = session_of(old(self)@, client_id@);
                    &&& found == assoc_contains(s.filters, filter@.path)
                    &&& final(self)@ == with_session(
                        old(self)@,
                        client_id@,
                        SessionView { filters: assoc_remove(s.filters, filter@.path), ..s },
                    )
                }),
            },
    {
        let ghost old_view = self@;
        match &filter.share {
            Some(g) => {
                let ghost gv = g@;
                let ghost old_shares = self@.shares;
                match self.shares.find_idx(g.as_slice()) {
                    Some(gi) => {
                        let (gk, mut clients) = self.shares.take_at(gi);
                        let ghost cv0 = clients@;
                        proof {
                            assert(clients_wf(cv0));
                        }
                        let mut found = false;
                        match clients.find_idx(client_id) {
                            Some(ci) => {
                                let (ck, mut fl) = clients.take_at(ci);
                                proof {
                                    assert(filters_entries_wf(fl@));
                                }
                                let ghost fl0 = fl@;
                                found = fl.remove(filter.path().as_slice()).is_some();
                                let ghost fl2 = fl@;
                                proof {
                                    lemma_get_some_iff_contains(fl0, filter@.path);
                                }
                                if fl.is_empty() {
                                    proof {
                                        crate::assoc::lemma_remove_at_first_index(cv0, client_id@, ci as int);
                                        assert(clients@ =~= assoc_remove(cv0, client_id@));
                                        lemma_clients_wf_remove(cv0, client_id@);
                                    }
                                } else {
                                    clients.put_at(ci, ck, fl);
                                    proof {
                                        assert(clients@ =~= cv0.update(
                                            ci as int,
                                            (client_id@, fl2),
                                        ));
                                        lemma_insert_at_first_index(
                                            cv0,
                                            client_id@,
                                            fl2,
                                            ci as int,
                                        );
                                        lemma_clients_wf_insert(cv0, client_id@, fl2);
                                    }
                                }
                            },
                            None => {
                                proof {
                                    lemma_get_some_iff_contains(cv0, client_id@);
                                }
                            },
                        }
                        let ghost cl2 = clients@;
                        if clients.len() == 0 {
                            proof {
                                crate::assoc::lemma_remove_at_first_index(old_shares, gv, gi as int);
                                assert(self@.shares =~= assoc_remove(old_shares, gv));
                                lemma_shares_wf_remove(old_shares, gv);
                                assert(self@ =~= (StorageView {
                                    shares: share_unsubscribed(old_shares, gv, client_id@,
                                    filter@.path),
                                    ..old_view
                                }));
                            }
                        } else {
                            self.shares.put_at(gi, gk, clients);
                            proof {
                                assert(self@.shares =~= old_shares.update(gi as int, (gv, cl2)));
                                lemma_insert_at_first_index(old_shares, gv, cl2, gi as int);
                                lemma_shares_wf_insert(old_shares, gv, cl2);
                                assert(self@ =~= (StorageView {
                                    shares: share_unsubscribed(old_shares, gv, client_id@,
                                    filter@.path),
                                    ..old_view
                                }));
                            }
                        }
                        found
                    },
                    None => {
                        proof {
                            lemma_get_some_iff_contains(old_shares, gv);
                        }
                        false
                    },
                }
            },
            None => {
                let i = match self.sessions.find_idx(client_id) {
                    Some(i) => i,
                    None => {
                        proof {
                            assert(false);
                        }
                        0
                    },
                };
                let ghost old_sessions = self@.sessions;
                let (key, mut session) = self.sessions.take_at(i);
                let ghost s0 = session@;
                proof {
                    assert(session_view_wf(s0));
                }
                let found = session.subscription_filters.remove(
                    filter.path().as_slice(),
                ).is_some();
                proof {
                    lemma_get_some_iff_contains(s0.filters, filter@.path);
                }
                let ghost s2 = session@;
                self.sessions.put_at(i, key, session);
                proof {
                    assert(old_sessions.remove(i as int).insert(i as int, (client_id@, s2))
                        =~= old_sessions.update(i as int, (client_id@, s2)));
                    lemma_insert_at_first_index(old_sessions, client_id@, s2, i as int);
                    assert(self@ =~= with_session(old_view, client_id@, s2));
                    lemma_with_session_wf(old_view, client_id@, s2);
                }
                found
            },
        }
    }

    fn sessions_len(&self) -> (r: usize)
        ensures
            r == self@.sessions.len(),
    {
        self.sessions.len()
    }

    /// Route one message: enqueue it to every session with a matching
    /// non-shared filter, and for every share group with a matching member
    /// to one randomly chosen such member.
    pub fn publish_one(&mut self, msg: &Message, now: u64)
        requires
            old(self).wf(),
        ensures
            final(self).wf(),
            publish_rel(old(self)@, final(self)@, msg@, now),
    {
        let ghost old_view = self@;
        let ghost m = msg@;
        // non-shared phase: every session gets its own delivery
        let n = self.sessions_len();
        let mut i: usize = 0;
        while i < n
            invariant
                i <= n,
                n == old_view.sessions.len(),
                storage_wf(old_view),
                m == msg@,
                self@.retained == old_view.retained,
                self@.shares == old_view.shares,
                self@.clients_expired == old_view.clients_expired,
                self@.sessions.len() == old_view.sessions.len(),
                forall|x: int| 0 <= x < i ==> #[trigger] self@.sessions[x] == (
                    old_view.sessions[x].0,
                    SessionView {
                        queue: old_view.sessions[x].1.queue + own_delivery(
                            old_view.sessions[x].1,
                            old_view.sessions[x].0,
                            m,
                            now,
                        ),
                        ..old_view.sessions[x].1
                    },
                ),
                forall|x: int| i <= x < old_view.sessions.len() ==> #[trigger] self@.sessions[x]
                    == old_view.sessions[x],
            decreases n - i,
        {
            let ghost pre_sessions = self@.sessions;
            let (cid, mut session) = self.sessions.take_at(i);
            proof {
                assert(session_view_wf(old_view.sessions[i as int].1));
            }
            let ghost s0 = session@;
            match session.subscription_filters.filter_message(cid.as_slice(), msg, now) {
                Some(out) => {
                    let ghost ov = out@;
                    session.queue.push(out);
                    proof {
                        assert(msg_views(session.queue@) =~= s0.queue.push(ov));
                        assert(s0.queue + own_delivery(s0, cid@, m, now) =~= s0.queue.push(ov));
                    }
                },
                None => {
                    proof {
                        assert(s0.queue + own_delivery(s0, cid@, m, now) =~= s0.queue);
                    }
                },
            }
            let ghost s2 = session@;
            self.sessions.put_at(i, cid, session);
            proof {
                assert(self@.sessions =~= pre_sessions.update(
                    i as int,
                    (old_view.sessions[i as int].0, s2),
                ));
                assert(s2 =~= (SessionView {
                    queue: old_view.sessions[i as int].1.queue + own_delivery(
                        old_view.sessions[i as int].1,
                        old_view.sessions[i as int].0,
                        m,
                        now,
                    ),
                    ..old_view.sessions[i as int].1
                }));
            }
            i += 1;
        }
        // shared phase: one winner per matching group
        let gn = self.shares_len();
        let mut g: usize = 0;
        let ghost mut picks: Seq<Option<int>> = Seq::empty();
        proof {
            assert(old_view.shares.take(0) =~= Seq::<(
                Seq<u8>,
                Seq<(Seq<u8>, Seq<(Seq<u8>, FilterItemView)>)>,
            )>::empty());
            assert(valid_picks(old_view.shares.take(0), picks, m, now));
            assert forall|x: int| 0 <= x < old_view.sessions.len() implies #[trigger] self@
                .sessions[x] == (
                old_view.sessions[x].0,
                SessionView {
                    queue: old_view.sessions[x].1.queue + own_delivery(
                        old_view.sessions[x].1,
                        old_view.sessions[x].0,
                        m,
                        now,
                    ) + share_deliveries(
                        old_view.shares.take(0),
                        picks,
                        old_view.sessions[x].0,
                        m,
                        now,
                    ),
                    ..old_view.sessions[x].1
                },
            ) by {
                let q = old_view.sessions[x].1.queue + own_delivery(
                    old_view.sessions[x].1,
                    old_view.sessions[x].0,
                    m,
                    now,
                );
                assert(share_deliveries(
                    old_view.shares.take(0),
                    picks,
                    old_view.sessions[x].0,
                    m,
                    now,
                ) =~= Seq::<MessageView>::empty());
                assert(q + Seq::<MessageView>::empty() =~= q);
            }
        }
        while g < gn
            invariant
                g <= gn,
                gn == old_view.shares.len(),
                storage_wf(old_view),
                m == msg@,
                self@.retained == old_view.retained,
                self@.shares == old_view.shares,
                self@.clients_expired == old_view.clients_expired,
                self@.sessions.len() == old_view.sessions.len(),
                picks.len() == g,
                valid_picks(old_view.shares.take(g as int), picks, m, now),
                forall|x: int| 0 <= x < old_view.sessions.len() ==> #[trigger] self@.sessions[x]
                    == (
                    old_view.sessions[x].0,
                    SessionView {
                        queue: old_view.sessions[x].1.queue + own_delivery(
                            old_view.sessions[x].1,
                            old_view.sessions[x].0,
                            m,
                            now,
                        ) + share_deliveries(
                            old_view.shares.take(g as int),
                            picks,
                            old_view.sessions[x].0,
                            m,
                            now,
                        ),
                        ..old_view.sessions[x].1
                    },
                ),
            decreases gn - g,
        {
            let ghost gview = old_view.shares[g as int];
            let ghost old_picks = picks;
            let clients = self.shares.value_at(g);
            proof {
                assert(clients@ == gview.1);
                assert(clients_wf(gview.1));
            }
            let mut candidates: Vec<(Vec<u8>, Message)> = Vec::new();
            let ghost mut srcs: Seq<int> = Seq::empty();
            let cn = clients.len();
            let mut j: usize = 0;
            while j < cn
                invariant
                    j <= cn,
                    cn == gview.1.len(),
                    clients@ == gview.1,
                    clients_wf(gview.1),
                    m == msg@,
                    candidates@.len() == srcs.len(),
                    forall|c: int| 0 <= c < srcs.len() ==> 0 <= #[trigger] srcs[c] < j
                        && gview.1[srcs[c]].0 == candidates@[c].0@ && filter_msg_spec(
                        gview.1[srcs[c]].1,
                        gview.1[srcs[c]].0,
                        m,
                        now,
                    ) == Some(candidates@[c].1@),
                    candidates@.len() == 0 ==> forall|jj: int| 0 <= jj < j ==> filter_msg_spec(
                        (#[trigger] gview.1[jj]).1,
                        gview.1[jj].0,
                        m,
                        now,
                    ) is None,
                decreases cn - j,
            {
                let ckey = clients.key_at(j);
                let fl = clients.value_at(j);
                proof {
                    assert(fl@ == gview.1[j as int].1);
                    assert(filters_entries_wf(fl@));
                }
                match fl.filter_message(ckey.as_slice(), msg, now) {
                    Some(out) => {
                        candidates.push((crate::bytes_util::clone_bytes(ckey), out));
                        proof {
                            srcs = srcs.push(j as int);
                        }
                    },
                    None => {
                    },
                }
                j += 1;
            }
            if candidates.len() == 0 {
                proof {
                    picks = picks.push(None);
                    assert(old_view.shares.take(g + 1).drop_last() =~= old_view.shares.take(
                        g as int,
                    ));
                    assert(old_view.shares.take(g + 1).last() == gview);
                    assert(picks.drop_last() =~= old_picks);
                    assert(valid_picks(old_view.shares.take(g + 1), picks, m, now)) by {
                        assert forall|gg: int| 0 <= gg < g + 1 implies group_pick_ok(
                            (#[trigger] old_view.shares.take(g + 1)[gg]).1,
                            picks[gg],
                            m,
                            now,
                        ) by {
                            if gg < g {
                                assert(picks[gg] == old_picks[gg]);
                                assert(old_view.shares.take(g + 1)[gg] == old_view.shares.take(
                                    g as int,
                                )[gg]);
                                assert(group_pick_ok(
                                    old_view.shares.take(g as int)[gg].1,
                                    old_picks[gg],
                                    m,
                                    now,
                                ));
                            } else {
                                assert(picks[gg] is None);
                                assert(old_view.shares.take(g + 1)[gg] == gview);
                            }
                        }
                    }
                    assert forall|x: int| 0 <= x < old_view.sessions.len() implies #[trigger] self@
                        .sessions[x] == (
                        old_view.sessions[x].0,
                        SessionView {
                            queue: old_view.sessions[x].1.queue + own_delivery(
                                old_view.sessions[x].1,
                                old_view.sessions[x].0,
                                m,
                                now,
                            ) + share_deliveries(
                                old_view.shares.take(g + 1),
                                picks,
                                old_view.sessions[x].0,
                                m,
                                now,
                            ),
                            ..old_view.sessions[x].1
                        },
                    ) by {
                        let cid = old_view.sessions[x].0;
                        assert(share_deliveries(old_view.shares.take(g + 1), picks, cid, m, now)
                            =~= share_deliveries(
                            old_view.shares.take(g as int),
                            old_picks,
                            cid,
                            m,
                            now,
                        ));
                    }
                }
            } else {
                let idx = pick_index(candidates.len());
                let ghost jpick = srcs[idx as int];
                let pair = candidates.remove(idx);
                let ghost winner = pair.0@;
                let ghost wmsg = pair.1@;
                proof {
                    picks = picks.push(Some(jpick));
                    assert(gview.1[jpick].0 == winner);
                    assert(filter_msg_spec(gview.1[jpick].1, winner, m, now) == Some(wmsg));
                    assert(old_view.shares.take(g + 1).drop_last() =~= old_view.shares.take(
                        g as int,
                    ));
                    assert(old_view.shares.take(g + 1).last() == gview);
                    assert(picks.drop_last() =~= old_picks);
                    assert(valid_picks(old_view.shares.take(g + 1), picks, m, now)) by {
                        assert forall|gg: int| 0 <= gg < g + 1 implies group_pick_ok(
                            (#[trigger] old_view.shares.take(g + 1)[gg]).1,
                            picks[gg],
                            m,
                            now,
                        ) by {
                            if gg < g {
                                assert(picks[gg] == old_picks[gg]);
                                assert(old_view.shares.take(g + 1)[gg] == old_view.shares.take(
                                    g as int,
                                )[gg]);
                                assert(group_pick_ok(
                                    old_view.shares.take(g as int)[gg].1,
                                    old_picks[gg],
                                    m,
                                    now,
                                ));
                            } else {
                                assert(picks[gg] == Some(jpick));
                                assert(old_view.shares.take(g + 1)[gg] == gview);
                            }
                        }
                    }
                }
                let ghost pre_sessions = self@.sessions;
                match self.sessions.find_idx(pair.0.as_slice()) {
                    Some(si) => {
                        let (skey, mut session) = self.sessions.take_at(si);
                        let ghost sq0 = session@;
                        session.queue.push(pair.1);
                        let ghost s2 = session@;
                        proof {
                            assert(msg_views(session.queue@) =~= sq0.queue.push(wmsg));
                        }
                        self.sessions.put_at(si, skey, session);
                        proof {
                            assert(self@.sessions =~= pre_sessions.update(
                                si as int,
                                (pre_sessions[si as int].0, s2),
                            ));
                            assert forall|x: int| 0 <= x < old_view.sessions.len() implies
                                #[trigger] self@.sessions[x] == (
                                old_view.sessions[x].0,
                                SessionView {
                                    queue: old_view.sessions[x].1.queue + own_delivery(
                                        old_view.sessions[x].1,
                                        old_view.sessions[x].0,
                                        m,
                                        now,
                                    ) + share_deliveries(
                                        old_view.shares.take(g + 1),
                                        picks,
                                        old_view.sessions[x].0,
                                        m,
                                        now,
                                    ),
                                    ..old_view.sessions[x].1
                                },
                            ) by {
                                let cid = old_view.sessions[x].0;
                                if x == si {
                                    assert(cid == winner);
                                    assert(share_deliveries(
                                        old_view.shares.take(g + 1),
                                        picks,
                                        cid,
                                        m,
                                        now,
                                    ) =~= share_deliveries(
                                        old_view.shares.take(g as int),
                                        old_picks,
                                        cid,
                                        m,
                                        now,
                                    ).push(wmsg));
                                } else {
                                    // distinct keys: this session is not the winner
                                    assert(cid != winner) by {
                                        assert(pre_sessions[x].0 == cid);
                                        assert(pre_sessions[si as int].0 == winner);
                                    }
                                    assert(share_deliveries(
                                        old_view.shares.take(g + 1),
                                        picks,
                                        cid,
                                        m,
                                        now,
                                    ) =~= share_deliveries(
                                        old_view.shares.take(g as int),
                                        old_picks,
                                        cid,
                                        m,
                                        now,
                                    ));
                                    assert(self@.sessions[x] == pre_sessions[x]);
                                }
                            }
                        }
                    },
                    None => {
                        proof {
                            assert forall|x: int| 0 <= x < old_view.sessions.len() implies
                                #[trigger] self@.sessions[x] == (
                                old_view.sessions[x].0,
                                SessionView {
                                    queue: old_view.sessions[x].1.queue + own_delivery(
                                        old_view.sessions[x].1,
                                        old_view.sessions[x].0,
                                        m,
                                        now,
                                    ) + share_deliveries(
                                        old_view.shares.take(g + 1),
                                        picks,
                                        old_view.sessions[x].0,
                                        m,
                                        now,
                                    ),
                                    ..old_view.sessions[x].1
                                },
                            ) by {
                                let cid = old_view.sessions[x].0;
                                assert(self@.sessions[x].0 == cid);
                                assert(cid != winner);
                                assert(share_deliveries(
                                    old_view.shares.take(g + 1),
                                    picks,
                                    cid,
                                    m,
                                    now,
                                ) =~= share_deliveries(
                                    old_view.shares.take(g as int),
                                    old_picks,
                                    cid,
                                    m,
                                    now,
                                ));
                            }
                        }
                    },
                }
            }
            g += 1;
        }
        proof {
            assert(old_view.shares.take(gn as int) =~= old_view.shares);
            assert(valid_picks(old_view.shares, picks, m, now));
            assert(publish_rel(old_view, self@, m, now)) by {
                assert(valid_picks(old_view.shares, picks, m, now) && (forall|x: int|
                    0 <= x < old_view.sessions.len() ==> #[trigger] self@.sessions[x] == (
                        old_view.sessions[x].0,
                        SessionView {
                            queue: old_view.sessions[x].1.queue + own_delivery(
                                old_view.sessions[x].1,
                                old_view.sessions[x].0,
                                m,
                                now,
                            ) + share_deliveries(
                                old_view.shares,
                                picks,
                                old_view.sessions[x].0,
                                m,
                                now,
                            ),
                            ..old_view.sessions[x].1
                        },
                    )));
            }
            assert(storage_wf(self@)) by {
                assert(assoc_wf(self@.sessions)) by {
                    assert(forall|x: int| 0 <= x < self@.sessions.len() ==> (
                    #[trigger] self@.sessions[x]).0 == old_view.sessions[x].0);
                }
                assert forall|x: int| 0 <= x < self@.sessions.len() implies session_view_wf(
                    (#[trigger] self@.sessions[x]).1,
                ) by {
                    assert(session_view_wf(old_view.sessions[x].1));
                }
            }
        }
    }

    /// Route a batch of messages, in order.
    pub fn publish(&mut self, msgs: Vec<Message>, now: u64)
        requires
            old(self).wf(),
        ensures
            final(self).wf(),
            publish_list_rel(old(self)@, final(self)@, msg_views(msgs@), now),
    {
        let ghost old_view = self@;
        let ghost mv = msg_views(msgs@);
        let ghost mut states: Seq<StorageView> = seq![self@];
        let mut i: usize = 0;
        while i < msgs.len()
            invariant
                i <= msgs@.len(),
                mv == msg_views(msgs@),
                self.wf(),
                states.len() == i + 1,
                states[0] == old_view,
                states[i as int] == self@,
                forall|x: int| 0 <= x < i ==> #[trigger] publish_rel(
                    states[x],
                    states[x + 1],
                    mv[x],
                    now,
                ),
            decreases msgs@.len() - i,
        {
            let ghost pre = self@;
            self.publish_one(&msgs[i], now);
            proof {
                assert(msgs@[i as int]@ == mv[i as int]);
                states = states.push(self@);
                assert(publish_rel(states[i as int], states[i + 1], mv[i as int], now));
            }
            i += 1;
        }
        proof {
            assert(states.len() == mv.len() + 1);
            assert(states[mv.len() as int] == self@);
            assert(publish_list_rel(old_view, self@, mv, now)) by {
                assert({
                    &&& states.len() == mv.len() + 1
                    &&& states[0] == old_view
                    &&& states[mv.len() as int] == self@
                    &&& forall|x: int| 0 <= x < mv.len() ==> #[trigger] publish_rel(
                        states[x],
                        states[x + 1],
                        mv[x],
                        now,
                    )
                });
            }
        }
    }

    /// Drain both timer sets at time `now`: fired wills are taken out of
    /// their sessions and returned as messages; expired sessions are
    /// dropped (with their share memberships) and counted.
    pub fn collect_timeouts(&mut self, now: u64) -> (wills: Vec<Message>)
        requires
            old(self).wf(),
        ensures
            final(self).wf(),
            final(self)@ == ticked(old(self)@, now),
            msg_views(wills@) == will_msgs(wills_due(old(self)@.sessions, now), now),
    {
        let ghost old_view = self@;
        let mut wills: Vec<Message> = Vec::new();
        // wills whose deadline passed
        let n = self.sessions_len();
        let mut i: usize = 0;
        proof {
            assert(old_view.sessions.take(0) =~= Seq::<(Seq<u8>, SessionView)>::empty());
            assert(wills_due(old_view.sessions.take(0), now) =~= Seq::<(
                Seq<u8>,
                LastWillView,
            )>::empty());
            assert(msg_views(wills@) =~= will_msgs(
                wills_due(old_view.sessions.take(0), now),
                now,
            ));
        }
        while i < n
            invariant
                i <= n,
                n == old_view.sessions.len(),
                storage_wf(old_view),
                self@.retained == old_view.retained,
                self@.shares == old_view.shares,
                self@.clients_expired == old_view.clients_expired,
                self@.sessions.len() == old_view.sessions.len(),
                forall|x: int| 0 <= x < i ==> #[trigger] self@.sessions[x] == after_wills(
                    old_view.sessions,
                    now,
                )[x],
                forall|x: int| i <= x < n ==> #[trigger] self@.sessions[x]
                    == old_view.sessions[x],
                msg_views(wills@) == will_msgs(
                    wills_due(old_view.sessions.take(i as int), now),
                    now,
                ),
            decreases n - i,
        {
            let ghost pre_sessions = self@.sessions;
            let ghost wpre = msg_views(wills@);
            let ghost s0 = old_view.sessions[i as int].1;
            let fired = match self.sessions.value_at(i).last_will_deadline {
                Some(t) => t < now,
                None => false,
            };
            proof {
                assert(old_view.sessions.take(i + 1).drop_last() =~= old_view.sessions.take(
                    i as int,
                ));
                assert(old_view.sessions.take(i + 1).last() == old_view.sessions[i as int]);
            }
            if fired {
                let (key, mut session) = self.sessions.take_at(i);
                let lw = session.last_will;
                session.last_will = None;
                session.last_will_deadline = None;
                match &lw {
                    Some(w) => {
                        wills.push(Message::from_last_will(w, now));
                        proof {
                            assert(msg_views(wills@) =~= wpre.push(
                                crate::message::from_last_will_view(w@, now),
                            ));
                            assert(wills_due(old_view.sessions.take(i + 1), now) =~= wills_due(
                                old_view.sessions.take(i as int),
                                now,
                            ).push((old_view.sessions[i as int].0, w@)));
                            assert(msg_views(wills@) =~= will_msgs(
                                wills_due(old_view.sessions.take(i + 1), now),
                                now,
                            ));
                        }
                    },
                    None => {
                        proof {
                            assert(wills_due(old_view.sessions.take(i + 1), now) =~= wills_due(
                                old_view.sessions.take(i as int),
                                now,
                            ));
                        }
                    },
                }
                let ghost s2 = session@;
                self.sessions.put_at(i, key, session);
                proof {
                    assert(s2 =~= (SessionView {
                        last_will: None,
                        last_will_deadline: None,
                        ..s0
                    }));
                    assert(self@.sessions =~= pre_sessions.update(
                        i as int,
                        (old_view.sessions[i as int].0, s2),
                    ));
                    assert(self@.sessions[i as int] == after_wills(old_view.sessions, now)[
                    i as int]);
                }
            } else {
                proof {
                    assert(self@.sessions[i as int] == after_wills(old_view.sessions, now)[
                    i as int]);
                    assert(wills_due(old_view.sessions.take(i + 1), now) =~= wills_due(
                        old_view.sessions.take(i as int),
                        now,
                    ));
                }
            }
            i += 1;
        }
        proof {
            assert(old_view.sessions.take(n as int) =~= old_view.sessions);
            assert(self@.sessions =~= after_wills(old_view.sessions, now));
            assert(storage_wf(self@)) by {
                assert(assoc_wf(self@.sessions)) by {
                    assert(forall|x: int| 0 <= x < self@.sessions.len() ==> (
                    #[trigger] self@.sessions[x]).0 == old_view.sessions[x].0);
                }
                assert forall|x: int| 0 <= x < self@.sessions.len() implies session_view_wf(
                    (#[trigger] self@.sessions[x]).1,
                ) by {
                    assert(session_view_wf(old_view.sessions[x].1));
                }
            }
        }
        // expired sessions
        let ghost sw = after_wills(old_view.sessions, now);
        let mut dead: Vec<Vec<u8>> = Vec::new();
        let mut j: usize = 0;
        proof {
            assert(sw.take(0) =~= Seq::<(Seq<u8>, SessionView)>::empty());
            assert(crate::bytes_util::bytes_views(dead@) =~= expired_cids(sw.take(0), now));
        }
        while j < n
            invariant
                j <= n,
                n == sw.len(),
                self@.sessions == sw,
                crate::bytes_util::bytes_views(dead@) == expired_cids(sw.take(j as int), now),
            decreases n - j,
        {
            let ghost dpre = crate::bytes_util::bytes_views(dead@);
            let expired = match self.sessions.value_at(j).remove_deadline {
                Some(t) => t < now,
                None => false,
            };
            proof {
                assert(sw.take(j + 1).drop_last() =~= sw.take(j as int));
                assert(sw.take(j + 1).last() == sw[j as int]);
            }
            if expired {
                dead.push(crate::bytes_util::clone_bytes(self.sessions.key_at(j)));
                proof {
                    assert(crate::bytes_util::bytes_views(dead@) =~= dpre.push(sw[j as int].0));
                    assert(crate::bytes_util::bytes_views(dead@) =~= expired_cids(
                        sw.take(j + 1),
                        now,
                    ));
                }
            } else {
                proof {
                    assert(crate::bytes_util::bytes_views(dead@) =~= expired_cids(
                        sw.take(j + 1),
                        now,
                    ));
                }
            }
            j += 1;
        }
        proof {
            assert(sw.take(n as int) =~= sw);
        }
        // drop them
        let ghost dv = crate::bytes_util::bytes_views(dead@);
        let ghost mid_view = self@;
        let mut k: usize = 0;
        proof {
            assert(dv.take(0) =~= Seq::<Seq<u8>>::empty());
            assert(remove_all(sw, dv.take(0)) == sw);
            assert(shares_without_clients(old_view.shares, dv.take(0)) == old_view.shares);
        }
        while k < dead.len()
            invariant
                k <= dead@.len(),
                dv == crate::bytes_util::bytes_views(dead@),
                dv.len() == dead@.len(),
                dv == expired_cids(sw, now),
                sw == after_wills(old_view.sessions, now),
                self.wf(),
                self@.retained == old_view.retained,
                self@.sessions == remove_all(sw, dv.take(k as int)),
                self@.shares == shares_without_clients(old_view.shares, dv.take(k as int)),
                self@.clients_expired == spec_add_sat(old_view.clients_expired, k as u64),
            decreases dead@.len() - k,
        {
            self.remove_session(dead[k].as_slice());
            self.clients_expired = if self.clients_expired < 0xffff_ffff_ffff_ffff {
                self.clients_expired + 1
            } else {
                self.clients_expired
            };
            proof {
                assert(dv.take(k + 1).drop_last() =~= dv.take(k as int));
                assert(dv.take(k + 1).last() == dv[k as int]);
                assert(self@.sessions == remove_all(sw, dv.take(k + 1)));
                assert(self@.shares == shares_without_clients(old_view.shares, dv.take(k + 1)));
            }
            k += 1;
        }
        proof {
            assert(dv.take(dead@.len() as int) =~= dv);
            assert(self@ =~= ticked(old_view, now));
            assert(msg_views(wills@) == will_msgs(wills_due(old_view.sessions, now), now));
        }
        wills
    }

    /// One periodic timer tick: drain the timers, then route the wills
    /// that fired.
    pub fn update_sessions(&mut self, now: u64)
        requires
            old(self).wf(),
        ensures
            final(self).wf(),
            publish_list_rel(
                ticked(old(self)@, now),
                final(self)@,
                will_msgs(wills_due(old(self)@.sessions, now), now),
                now,
            ),
    {
        let wills = self.collect_timeouts(now);
        self.publish(wills, now);
    }

    /// A snapshot of the store's counters; sums saturate at the largest
    /// `usize`.
    pub fn metrics(&self) -> (r: StorageMetrics)
        ensures
            r.session_count == self@.sessions.len(),
            r.retained_messages_count == self@.retained.len(),
            r.inflight_messages_count as int == sat_usize(sum_inflight(self@.sessions)),
            r.messages_count as int == sat_usize(
                self@.retained.len() + sum_queued(self@.sessions),
            ),
            r.messages_bytes as int == sat_usize(
                sum_retained_bytes(self@.retained) + sum_queue_bytes(self@.sessions),
            ),
            r.subscriptions_count as int == sat_usize(
                sum_share_filters(self@.shares) + sum_filters(self@.sessions),
            ),
            r.clients_expired as int == sat_usize(self@.clients_expired as int),
    {
        let ghost sv = self@.sessions;
        let n = self.sessions_len();
        let mut inflight_acc: usize = 0;
        let mut queued_acc: usize = 0;
        let mut qbytes_acc: usize = 0;
        let mut subs_acc: usize = 0;
        let mut i: usize = 0;
        proof {
            assert(sv.take(0) =~= Seq::<(Seq<u8>, SessionView)>::empty());
        }
        while i < n
            invariant
                i <= n,
                n == sv.len(),
                sv == self@.sessions,
                inflight_acc as int == sat_usize(sum_inflight(sv.take(i as int))),
                queued_acc as int == sat_usize(sum_queued(sv.take(i as int))),
                qbytes_acc as int == sat_usize(sum_queue_bytes(sv.take(i as int))),
                subs_acc as int == sat_usize(sum_filters(sv.take(i as int))),
            decreases n - i,
        {
            let s = self.sessions.value_at(i);
            proof {
                assert(s@ == sv[i as int].1);
                assert(sv.take(i + 1).drop_last() =~= sv.take(i as int));
                assert(sv.take(i + 1).last() == sv[i as int]);
            }
            inflight_acc = usize_add_sat(inflight_acc, s.inflight_pub_packets.len());
            queued_acc = usize_add_sat(queued_acc, s.queue.len());
            subs_acc = usize_add_sat(subs_acc, s.subscription_filters.len());
            let ghost qv = sv[i as int].1.queue;
            let mut q: usize = 0;
            proof {
                assert(qv.take(0) =~= Seq::<MessageView>::empty());
            }
            while q < s.queue.len()
                invariant
                    q <= s.queue@.len(),
                    qv == msg_views(s.queue@),
                    qbytes_acc as int == sat_usize(
                        sum_queue_bytes(sv.take(i as int)) + sum_payload(qv.take(q as int)),
                    ),
                decreases s.queue@.len() - q,
            {
                proof {
                    assert(qv.take(q + 1).drop_last() =~= qv.take(q as int));
                    assert(qv.take(q + 1).last() == qv[q as int]);
                    assert(qv[q as int].payload == s.queue@[q as int]@.payload);
                }
                qbytes_acc = usize_add_sat(qbytes_acc, s.queue[q].payload.len());
                q += 1;
            }
            proof {
                assert(qv.take(s.queue@.len() as int) =~= qv);
            }
            i += 1;
        }
        proof {
            assert(sv.take(n as int) =~= sv);
        }
        let ghost rv = self@.retained;
        let rn = self.retained.len();
        let mut rbytes_acc: usize = 0;
        let mut j: usize = 0;
        proof {
            assert(rv.take(0) =~= Seq::<(Seq<u8>, MessageView)>::empty());
        }
        while j < rn
            invariant
                j <= rn,
                rn == rv.len(),
                rv == self@.retained,
                rbytes_acc as int == sat_usize(sum_retained_bytes(rv.take(j as int))),
            decreases rn - j,
        {
            let m = self.retained.value_at(j);
            proof {
                assert(m@ == rv[j as int].1);
                assert(rv.take(j + 1).drop_last() =~= rv.take(j as int));
                assert(rv.take(j + 1).last() == rv[j as int]);
            }
            rbytes_acc = usize_add_sat(rbytes_acc, m.payload.len());
            j += 1;
        }
        proof {
            assert(rv.take(rn as int) =~= rv);
        }
        let ghost shv = self@.shares;
        let gn = self.shares_len();
        let mut share_subs_acc: usize = 0;
        let mut g: usize = 0;
        proof {
            assert(shv.take(0) =~= Seq::<(
                Seq<u8>,
                Seq<(Seq<u8>, Seq<(Seq<u8>, FilterItemView)>)>,
            )>::empty());
        }
        while g < gn
            invariant
                g <= gn,
                gn == shv.len(),
                shv == self@.shares,
                share_subs_acc as int == sat_usize(sum_share_filters(shv.take(g as int))),
            decreases gn - g,
        {
            let clients = self.shares.value_at(g);
            proof {
                assert(clients@ == shv[g as int].1);
                assert(shv.take(g + 1).drop_last() =~= shv.take(g as int));
                assert(shv.take(g + 1).last() == shv[g as int]);
            }
            let ghost cv = shv[g as int].1;
            let cn = clients.len();
            let mut c: usize = 0;
            proof {
                assert(cv.take(0) =~= Seq::<(Seq<u8>, Seq<(Seq<u8>, FilterItemView)>)>::empty());
            }
            while c < cn
                invariant
                    c <= cn,
                    cn == cv.len(),
                    cv == clients@,
                    share_subs_acc as int == sat_usize(
                        sum_share_filters(shv.take(g as int)) + sum_clients_filters(
                            cv.take(c as int),
                        ),
                    ),
                decreases cn - c,
            {
                proof {
                    assert(cv.take(c + 1).drop_last() =~= cv.take(c as int));
                    assert(cv.take(c + 1).last() == cv[c as int]);
                }
                share_subs_acc = usize_add_sat(share_subs_acc, clients.value_at(c).len());
                c += 1;
            }
            proof {
                assert(cv.take(cn as int) =~= cv);
            }
            g += 1;
        }
        proof {
            assert(shv.take(gn as int) =~= shv);
        }
        let expired: usize = if self.clients_expired() <= usize::MAX as u64 {
            self.clients_expired() as usize
        } else {
            usize::MAX
        };
        StorageMetrics {
            session_count: self.sessions.len(),
            inflight_messages_count: inflight_acc,
            retained_messages_count: self.retained.len(),
            messages_count: usize_add_sat(self.retained.len(), queued_acc),
            messages_bytes: usize_add_sat(rbytes_acc, qbytes_acc),
            subscriptions_count: usize_add_sat(share_subs_acc, subs_acc),
            clients_expired: expired,
        }
    }

    fn clients_expired(&self) -> (r: u64)
        ensures
            r == self@.clients_expired,
    {
        self.clients_expired
    }

    /// A copy of the retained message stored for `topic`, if any.
    pub fn retained_message(&self, topic: &[u8]) -> (r: Option<Message>)
        ensures
            match r {
                Some(m) => assoc_get(self@.retained, topic@) == Some(m@),
                None => assoc_get(self@.retained, topic@) is None,
            },
    {
        match self.retained.get(topic) {
            Some(m) => Some(m.duplicate()),
            None => None,
        }
    }

    /// Whether a session exists for `client_id`.
    pub fn has_session(&self, client_id: &[u8]) -> (r: bool)
        ensures
            r == assoc_contains(self@.sessions, client_id@),
    {
        self.sessions.contains_key(client_id)
    }
}

} // verus!
