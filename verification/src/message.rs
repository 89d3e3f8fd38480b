//! Application messages and per-session subscription filters, including the
//! matching engine that computes the message a subscriber receives.

use vstd::prelude::*;

use crate::assoc::{assoc_contains, assoc_get, assoc_insert, assoc_remove, assoc_wf};
use crate::bytes_util::{bytes_eq, clone_bytes, clone_opt_bytes};
use crate::maps::BMap;
use crate::packets::{
    LastWill, Publish, PublishProperties, PublishPropertiesView, PublishView, Qos, RetainHandling,
    spec_qos_max, spec_qos_min,
};
use crate::topic::{TopicFilter, TopicFilterView, filter_matches_topic, filter_view_wf};

verus! {

/// Saturating addition on 64-bit deadlines.
pub open spec fn spec_add_sat(now: u64, secs: u64) -> u64 {
    if now + secs <= u64::MAX {
        (now + secs) as u64
    } else {
        u64::MAX
    }
}

pub fn add_sat(now: u64, secs: u64) -> (r: u64)
    ensures
        r == spec_add_sat(now, secs),
{
    if now <= u64::MAX - secs {
        now + secs
    } else {
        u64::MAX
    }
}

/// An application message queued for (or routed towards) subscribers.
pub struct Message {
    pub topic: Vec<u8>,
    pub qos: Qos,
    pub payload: Vec<u8>,
    pub retain: bool,
    pub properties: PublishProperties,
    pub from_client_id: Option<Vec<u8>>,
    pub from_uid: Option<Vec<u8>>,
    /// Absolute expiry deadline, in seconds, derived from the
    /// message-expiry-interval at ingest time.
    pub expire_at: Option<u64>,
}

#[verifier::ext_equal]
pub ghost struct MessageView {
    pub topic: Seq<u8>,
    pub qos: Qos,
    pub payload: Seq<u8>,
    pub retain: bool,
    pub properties: PublishPropertiesView,
    pub from_client_id: Option<Seq<u8>>,
    pub from_uid: Option<Seq<u8>>,
    pub expire_at: Option<u64>,
}

impl View for Message {
    type V = MessageView;

    open spec fn view(&self) -> MessageView {
        MessageView {
            topic: self.topic@,
            qos: self.qos,
            payload: self.payload@,
            retain: self.retain,
            properties: self.properties@,
            from_client_id: crate::bytes_util::opt_bytes_view(self.from_client_id),
            from_uid: crate::bytes_util::opt_bytes_view(self.from_uid),
            expire_at: self.expire_at,
        }
    }
}

/// A message is expired once its deadline has been reached.
pub open spec fn spec_msg_expired(m: MessageView, now: u64) -> bool {
    match m.expire_at {
        Some(t) => t <= now,
        None => false,
    }
}

/// The expiry deadline a message gets from an expiry interval at time `now`.
pub open spec fn spec_deadline(interval: Option<u32>, now: u64) -> Option<u64> {
    match interval {
        Some(secs) => Some(spec_add_sat(now, secs as u64)),
        None => None,
    }
}

/// The message a stored last will becomes when it is delivered at `now`.
pub open spec fn from_last_will_view(w: crate::packets::LastWillView, now: u64) -> MessageView {
    MessageView {
        topic: w.topic,
        qos: w.qos,
        payload: w.payload,
        retain: w.retain,
        properties: PublishPropertiesView {
            payload_format_indicator: w.properties.payload_format_indicator,
            message_expiry_interval: w.properties.message_expiry_interval,
            topic_alias: None,
            response_topic: w.properties.response_topic,
            correlation_data: w.properties.correlation_data,
            user_properties: w.properties.user_properties,
            subscription_identifiers: Seq::empty(),
            content_type: w.properties.content_type,
        },
        from_client_id: None,
        from_uid: None,
        expire_at: spec_deadline(w.properties.message_expiry_interval, now),
    }
}

impl Message {
    pub fn new(topic: Vec<u8>, qos: Qos, payload: Vec<u8>) -> (r: Message)
        ensures
            r@.topic == topic@,
            r@.qos == qos,
            r@.payload == payload@,
            r@.retain == false,
            r@.properties == PublishProperties::empty_view(),
            r@.from_client_id is None,
            r@.from_uid is None,
            r@.expire_at is None,
    {
        Message {
            topic,
            qos,
            payload,
            retain: false,
            properties: PublishProperties::empty(),
            from_client_id: None,
            from_uid: None,
            expire_at: None,
        }
    }

    /// Build the stored message for an accepted PUBLISH. The topic alias is
    /// dropped (it is meaningful only on the publisher's connection); the
    /// expiry deadline is stamped from the message-expiry-interval.
    pub fn from_publish(p: &Publish, now: u64) -> (r: Message)
        ensures
            r@.topic == p@.topic,
            r@.qos == p@.qos,
            r@.payload == p@.payload,
            r@.retain == p@.retain,
            r@.properties == (PublishPropertiesView { topic_alias: None, ..p@.properties }),
            r@.from_client_id is None,
            r@.from_uid is None,
            r@.expire_at == spec_deadline(p@.properties.message_expiry_interval, now),
    {
        let mut properties = p.properties.duplicate();
        properties.topic_alias = None;
        let expire_at = match p.properties.message_expiry_interval {
            Some(secs) => Some(add_sat(now, secs as u64)),
            None => None,
        };
        let r = Message {
            topic: clone_bytes(&p.topic),
            qos: p.qos,
            payload: clone_bytes(&p.payload),
            retain: p.retain,
            properties,
            from_client_id: None,
            from_uid: None,
            expire_at,
        };
        proof {
            assert(r@.properties =~= (PublishPropertiesView { topic_alias: None, ..p@.properties }));
        }
        r
    }

    /// Build the synthetic message for a stored last will.
    pub fn from_last_will(lw: &LastWill, now: u64) -> (r: Message)
        ensures
            r@ == from_last_will_view(lw@, now),
    {
        let expire_at = match lw.properties.message_expiry_interval {
            Some(secs) => Some(add_sat(now, secs as u64)),
            None => None,
        };
        let r = Message {
            topic: clone_bytes(&lw.topic),
            qos: lw.qos,
            payload: clone_bytes(&lw.payload),
            retain: lw.retain,
            properties: PublishProperties {
                payload_format_indicator: lw.properties.payload_format_indicator,
                message_expiry_interval: lw.properties.message_expiry_interval,
                topic_alias: None,
                response_topic: clone_opt_bytes(&lw.properties.response_topic),
                correlation_data: clone_opt_bytes(&lw.properties.correlation_data),
                user_properties: crate::bytes_util::clone_pairs(&lw.properties.user_properties),
                subscription_identifiers: Vec::new(),
                content_type: clone_opt_bytes(&lw.properties.content_type),
            },
            from_client_id: None,
            from_uid: None,
            expire_at,
        };
        proof {
            assert(r@.properties.subscription_identifiers =~= Seq::<u32>::empty());
            assert(r@ =~= from_last_will_view(lw@, now));
        }
        r
    }

    /// Record which client (and authenticated user) published this message.
    pub fn set_origin(&mut self, client_id: Vec<u8>, uid: Option<Vec<u8>>)
        ensures
            final(self)@ == (MessageView {
                from_client_id: Some(client_id@),
                from_uid: crate::bytes_util::opt_bytes_view(uid),
                ..old(self)@
            }),
    {
        self.from_client_id = Some(client_id);
        self.from_uid = uid;
    }

    pub fn is_expired(&self, now: u64) -> (r: bool)
        ensures
            r == spec_msg_expired(self@, now),
    {
        match self.expire_at {
            Some(t) => t <= now,
            None => false,
        }
    }

    /// An empty payload: a retained publish with one deletes the entry.
    pub fn is_empty(&self) -> (r: bool)
        ensures
            r == (self@.payload.len() == 0),
    {
        self.payload.len() == 0
    }

    pub fn duplicate(&self) -> (r: Message)
        ensures
            r@ == self@,
    {
        Message {
            topic: clone_bytes(&self.topic),
            qos: self.qos,
            payload: clone_bytes(&self.payload),
            retain: self.retain,
            properties: self.properties.duplicate(),
            from_client_id: clone_opt_bytes(&self.from_client_id),
            from_uid: clone_opt_bytes(&self.from_uid),
            expire_at: self.expire_at,
        }
    }

    /// The PUBLISH to send for this message, with the remaining seconds to
    /// expiry written back; `None` if the message has already expired.
    pub fn to_publish_and_update_expiry_interval(&self, now: u64) -> (r: Option<Publish>)
        ensures
            match r {
                Some(p) => {
                    &&& !spec_msg_expired(self@, now)
                    &&& p@ == spec_to_publish(self@, now)
                },
                None => spec_msg_expired(self@, now),
            },
    {
        let interval: Option<u32> = match self.expire_at {
            Some(t) => {
                if t <= now {
                    return None;
                }
                let remaining = t - now;
                if remaining >= 0xffff_ffff {
                    Some(0xffff_ffff)
                } else {
                    Some(remaining as u32)
                }
            },
            None => None,
        };
        let mut properties = self.properties.duplicate();
        properties.message_expiry_interval = interval;
        let p = Publish {
            dup: false,
            qos: self.qos,
            retain: self.retain,
            topic: clone_bytes(&self.topic),
            packet_id: None,
            properties,
            payload: clone_bytes(&self.payload),
        };
        proof {
            assert(p@ =~= spec_to_publish(self@, now));
        }
        Some(p)
    }
}

/// Remaining seconds to the deadline, capped at the 32-bit maximum.
pub open spec fn spec_remaining(t: u64, now: u64) -> u32 {
    if t - now >= 0xffff_ffffu32 {
        0xffff_ffffu32
    } else {
        (t - now) as u32
    }
}

/// The PUBLISH built from a non-expired message at time `now`.
pub open spec fn spec_to_publish(m: MessageView, now: u64) -> PublishView {
    PublishView {
        dup: false,
        qos: m.qos,
        retain: m.retain,
        topic: m.topic,
        packet_id: None,
        properties: PublishPropertiesView {
            message_expiry_interval: match m.expire_at {
                Some(t) => Some(spec_remaining(t, now)),
                None => None,
            },
            ..m.properties
        },
        payload: m.payload,
    }
}

/// One subscription entry of a session: the parsed filter and the
/// subscription options it was made with.
pub struct FilterItem {
    pub topic_filter: TopicFilter,
    pub qos: Qos,
    pub no_local: bool,
    pub retain_as_published: bool,
    pub retain_handling: RetainHandling,
    pub id: Option<u32>,
}

#[verifier::ext_equal]
pub ghost struct FilterItemView {
    pub topic_filter: TopicFilterView,
    pub qos: Qos,
    pub no_local: bool,
    pub retain_as_published: bool,
    pub retain_handling: RetainHandling,
    pub id: Option<u32>,
}

impl View for FilterItem {
    type V = FilterItemView;

    open spec fn view(&self) -> FilterItemView {
        FilterItemView {
            topic_filter: self.topic_filter@,
            qos: self.qos,
            no_local: self.no_local,
            retain_as_published: self.retain_as_published,
            retain_handling: self.retain_handling,
            id: self.id,
        }
    }
}

/// A stored entry is keyed by its filter path and holds a parsed filter.
pub open spec fn stored_filter_ok(e: (Seq<u8>, FilterItemView)) -> bool {
    &&& e.0 == e.1.topic_filter.path
    &&& filter_view_wf(e.1.topic_filter)
}

/// The subscription filters of one session, keyed by filter path.
pub struct Filters {
    map: BMap<FilterItem>,
}

impl View for Filters {
    type V = Seq<(Seq<u8>, FilterItemView)>;

    closed spec fn view(&self) -> Seq<(Seq<u8>, FilterItemView)> {
        self.map@
    }
}

/// Running aggregate of the matching filters seen so far.
#[verifier::ext_equal]
pub ghost struct FilterFold {
    pub matched: bool,
    pub max_qos: Qos,
    pub retain: bool,
    pub ids: Seq<u32>,
}

/// How one filter entry contributes to the delivery of message `m` to the
/// session of client `cid`.
pub open spec fn fold_step(acc: FilterFold, item: FilterItemView, cid: Seq<u8>, m: MessageView)
    -> FilterFold {
    if item.no_local && m.from_client_id == Some(cid) {
        acc
    } else if !filter_matches_topic(item.topic_filter.path, m.topic) {
        acc
    } else {
        FilterFold {
            matched: true,
            max_qos: spec_qos_max(acc.max_qos, item.qos),
            retain: acc.retain && item.retain_as_published,
            ids: match item.id {
                Some(id) => acc.ids.push(id),
                None => acc.ids,
            },
        }
    }
}

pub open spec fn fold_init(m: MessageView) -> FilterFold {
    FilterFold { matched: false, max_qos: Qos::AtMostOnce, retain: m.retain, ids: Seq::empty() }
}

/// The aggregate over all filter entries, in table order.
pub open spec fn filter_fold(
    filters: Seq<(Seq<u8>, FilterItemView)>,
    cid: Seq<u8>,
    m: MessageView,
) -> FilterFold
    decreases filters.len(),
{
    if filters.len() == 0 {
        fold_init(m)
    } else {
        fold_step(filter_fold(filters.drop_last(), cid, m), filters.last().1, cid, m)
    }
}

/// The message delivered for `m`, with capped QoS, recomputed retain flag
/// and the matching subscription identifiers.
pub open spec fn delivered_view(m: MessageView, f: FilterFold) -> MessageView {
    MessageView {
        qos: spec_qos_min(m.qos, f.max_qos),
        retain: f.retain,
        properties: PublishPropertiesView { subscription_identifiers: f.ids, ..m.properties },
        ..m
    }
}

/// What `Filters::filter_message` returns: `None` for an expired message or
/// when no filter matches; otherwise the effective message to enqueue.
pub open spec fn filter_msg_spec(
    filters: Seq<(Seq<u8>, FilterItemView)>,
    cid: Seq<u8>,
    m: MessageView,
    now: u64,
) -> Option<MessageView> {
    if spec_msg_expired(m, now) {
        None
    } else {
        let f = filter_fold(filters, cid, m);
        if f.matched {
            Some(delivered_view(m, f))
        } else {
            None
        }
    }
}

/// All keys distinct, every entry keyed by its own well-formed filter.
pub open spec fn filters_entries_wf(f: Seq<(Seq<u8>, FilterItemView)>) -> bool {
    &&& assoc_wf(f)
    &&& forall|i: int| 0 <= i < f.len() ==> stored_filter_ok(#[trigger] f[i])
}

impl Filters {
    pub open spec fn wf(&self) -> bool {
        filters_entries_wf(self@)
    }

    pub fn new() -> (r: Filters)
        ensures
            r@ == Seq::<(Seq<u8>, FilterItemView)>::empty(),
            r.wf(),
    {
        Filters { map: BMap::new() }
    }

    /// Insert or replace the entry for the item's filter path; returns the
    /// replaced item, if any.
    pub fn insert(&mut self, item: FilterItem) -> (prev: Option<FilterItem>)
        requires
            old(self).wf(),
            filter_view_wf(item@.topic_filter),
        ensures
            final(self)@ == assoc_insert(old(self)@, item@.topic_filter.path, item@),
            final(self).wf(),
            match prev {
                Some(p) => assoc_get(old(self)@, item@.topic_filter.path) == Some(p@),
                None => assoc_get(old(self)@, item@.topic_filter.path) is None,
            },
    {
        let key = clone_bytes(item.topic_filter.path());
        let ghost old_view = self@;
        let ghost item_view = item@;
        let prev = self.map.insert(key, item);
        proof {
            crate::assoc::lemma_insert_wf(old_view, item_view.topic_filter.path, item_view);
            assert forall|i: int| 0 <= i < self@.len() implies stored_filter_ok(
                #[trigger] self@[i],
            ) by {
                if self@[i] == (item_view.topic_filter.path, item_view) {
                } else {
                    let j = choose|j: int| 0 <= j < old_view.len() && old_view[j] == self@[i];
                    assert(stored_filter_ok(old_view[j]));
                }
            }
        }
        prev
    }

    /// Remove the entry for `path`; returns the removed item, if any.
    pub fn remove(&mut self, path: &[u8]) -> (prev: Option<FilterItem>)
        requires
            old(self).wf(),
        ensures
            final(self)@ == assoc_remove(old(self)@, path@),
            final(self).wf(),
            match prev {
                Some(p) => assoc_get(old(self)@, path@) == Some(p@),
                None => assoc_get(old(self)@, path@) is None,
            },
    {
        let ghost old_view = self@;
        let prev = self.map.remove(path);
        proof {
            crate::assoc::lemma_remove_wf(old_view, path@);
            assert forall|i: int| 0 <= i < self@.len() implies stored_filter_ok(
                #[trigger] self@[i],
            ) by {
                let j = choose|j: int| 0 <= j < old_view.len() && old_view[j] == self@[i];
                assert(stored_filter_ok(old_view[j]));
            }
        }
        prev
    }

    pub fn len(&self) -> (r: usize)
        ensures
            r == self@.len(),
    {
        self.map.len()
    }

    pub fn is_empty(&self) -> (r: bool)
        ensures
            r == (self@.len() == 0),
    {
        self.map.len() == 0
    }

    pub fn contains_path(&self, path: &[u8]) -> (r: bool)
        ensures
            r == assoc_contains(self@, path@),
    {
        self.map.contains_key(path)
    }

    /// The effective message to enqueue to this session for `msg`, if any:
    /// skips expired messages, `no_local` entries of the publisher itself,
    /// and non-matching filters; caps QoS, recomputes the retain flag and
    /// collects subscription identifiers in table order.
    pub fn filter_message(&self, client_id: &[u8], msg: &Message, now: u64) -> (r: Option<
        Message,
    >)
        requires
            self.wf(),
        ensures
            match r {
                Some(out) => filter_msg_spec(self@, client_id@, msg@, now) == Some(out@),
                None => filter_msg_spec(self@, client_id@, msg@, now) is None,
            },
    {
        if msg.is_expired(now) {
            return None;
        }
        let mut matched = false;
        let mut max_qos = Qos::AtMostOnce;
        let mut retain = msg.retain;
        let mut ids: Vec<u32> = Vec::new();
        let ghost fl = self@;
        proof {
            assert(fl.take(0) =~= Seq::<(Seq<u8>, FilterItemView)>::empty());
            assert(ids@ =~= Seq::<u32>::empty());
        }
        let mut i: usize = 0;
        while i < self.map.len()
            invariant
                i <= fl.len(),
                fl == self@,
                self.wf(),
                !spec_msg_expired(msg@, now),
                filter_fold(fl.take(i as int), client_id@, msg@) == (FilterFold {
                    matched,
                    max_qos,
                    retain,
                    ids: ids@,
                }),
            decreases fl.len() - i,
        {
            let item = self.map.value_at(i);
            assert(item@ == fl[i as int].1);
            assert(stored_filter_ok(fl[i as int]));
            let ghost prev_fold = filter_fold(fl.take(i as int), client_id@, msg@);
            let own = match &msg.from_client_id {
                Some(c) => item.no_local && bytes_eq(c.as_slice(), client_id),
                None => false,
            };
            if !own {
                if item.topic_filter.matches(msg.topic.as_slice()) {
                    matched = true;
                    max_qos = max_qos.max_with(item.qos);
                    if !item.retain_as_published {
                        retain = false;
                    }
                    if let Some(id) = item.id {
                        ids.push(id);
                    }
                    proof {
                        assert(retain == (prev_fold.retain && fl[i as int].1.retain_as_published));
                    }
                }
            }
            proof {
                assert(fl.take(i + 1).drop_last() =~= fl.take(i as int));
                assert(fl.take(i + 1).last() == fl[i as int]);
                assert(filter_fold(fl.take(i + 1), client_id@, msg@) == fold_step(
                    prev_fold,
                    fl[i as int].1,
                    client_id@,
                    msg@,
                ));
            }
            i += 1;
        }
        proof {
            assert(fl.take(fl.len() as int) =~= fl);
        }
        if matched {
            let mut properties = msg.properties.duplicate();
            properties.subscription_identifiers = ids;
            let out = Message {
                topic: clone_bytes(&msg.topic),
                qos: msg.qos.min_with(max_qos),
                payload: clone_bytes(&msg.payload),
                retain,
                properties,
                from_client_id: clone_opt_bytes(&msg.from_client_id),
                from_uid: clone_opt_bytes(&msg.from_uid),
                expire_at: msg.expire_at,
            };
            proof {
                assert(out@ =~= delivered_view(msg@, filter_fold(fl, client_id@, msg@)));
            }
            Some(out)
        } else {
            None
        }
    }
}

} // verus!
