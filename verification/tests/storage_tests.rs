//! The session and routing store: retained messages, subscriptions,
//! fan-out, timers.

use rsmqtt_core::message::{FilterItem, Message};
use rsmqtt_core::packets::{LastWill, Publish, PublishProperties, Qos, RetainHandling, WillProperties};
use rsmqtt_core::storage::Storage;
use rsmqtt_core::topic::TopicFilter;

fn filter_item(path: &str, qos: Qos, retain_handling: RetainHandling) -> FilterItem {
    FilterItem {
        topic_filter: TopicFilter::parse(path.as_bytes()).unwrap(),
        qos,
        no_local: false,
        retain_as_published: false,
        retain_handling,
        id: None,
    }
}

fn msg(topic: &str, qos: Qos, payload: &str) -> Message {
    Message::new(topic.as_bytes().to_vec(), qos, payload.as_bytes().to_vec())
}

#[test]
fn retained_update_and_empty_payload_delete() {
    let mut st = Storage::new();
    st.update_retained_message(b"cfg/x", msg("cfg/x", Qos::AtMostOnce, "v1"));
    assert_eq!(st.retained_message(b"cfg/x").unwrap().payload, b"v1".to_vec());
    st.update_retained_message(b"cfg/x", msg("cfg/x", Qos::AtMostOnce, "v2"));
    assert_eq!(st.retained_message(b"cfg/x").unwrap().payload, b"v2".to_vec());
    st.update_retained_message(b"cfg/x", msg("cfg/x", Qos::AtMostOnce, ""));
    assert!(st.retained_message(b"cfg/x").is_none());
}

#[test]
fn two_retained_updates_leave_only_the_second() {
    let mut st = Storage::new();
    st.update_retained_message(b"t", msg("t", Qos::AtMostOnce, "first"));
    st.update_retained_message(b"t", msg("t", Qos::AtMostOnce, "second"));
    assert_eq!(st.retained_message(b"t").unwrap().payload, b"second".to_vec());
}

#[test]
fn subscribe_then_unsubscribe_restores_the_filter_table() {
    let mut st = Storage::new();
    st.create_session(b"c1", true, None);
    st.subscribe(b"c1", filter_item("a/+", Qos::AtMostOnce, RetainHandling::Never), 0);
    let f = TopicFilter::parse(b"a/+").unwrap();
    assert!(st.unsubscribe(b"c1", &f));
    // absent now: a second unsubscribe finds nothing and is a no-op
    assert!(!st.unsubscribe(b"c1", &f));
}

#[test]
fn matching_message_is_enqueued_exactly_once() {
    let mut st = Storage::new();
    st.create_session(b"sub", true, None);
    st.subscribe(b"sub", filter_item("t/+", Qos::AtLeastOnce, RetainHandling::Never), 0);
    let mut m = msg("t/x", Qos::AtLeastOnce, "hello");
    m.set_origin(b"pub".to_vec(), None);
    st.publish_one(&m, 0);
    let q = st.next_messages(b"sub", None);
    assert_eq!(q.len(), 1);
    assert_eq!(q[0].payload, b"hello".to_vec());
    assert_eq!(q[0].topic, b"t/x".to_vec());
    st.consume_messages(b"sub", 1);
    assert!(st.next_messages(b"sub", None).is_empty());
}

#[test]
fn no_local_blocks_own_messages() {
    let mut st = Storage::new();
    st.create_session(b"me", true, None);
    let mut item = filter_item("t/#", Qos::AtMostOnce, RetainHandling::Never);
    item.no_local = true;
    st.subscribe(b"me", item, 0);
    let mut own = msg("t/x", Qos::AtMostOnce, "mine");
    own.set_origin(b"me".to_vec(), None);
    st.publish_one(&own, 0);
    assert!(st.next_messages(b"me", None).is_empty());
    let mut other = msg("t/x", Qos::AtMostOnce, "theirs");
    other.set_origin(b"you".to_vec(), None);
    st.publish_one(&other, 0);
    assert_eq!(st.next_messages(b"me", None).len(), 1);
}

#[test]
fn overlapping_filters_deliver_once_with_max_qos() {
    let mut st = Storage::new();
    st.create_session(b"s", true, None);
    st.subscribe(b"s", filter_item("a/#", Qos::AtMostOnce, RetainHandling::Never), 0);
    st.subscribe(b"s", filter_item("a/+", Qos::ExactlyOnce, RetainHandling::Never), 0);
    st.publish_one(&msg("a/b", Qos::ExactlyOnce, "x"), 0);
    let q = st.next_messages(b"s", None);
    assert_eq!(q.len(), 1);
    assert_eq!(q[0].qos, Qos::ExactlyOnce);
}

#[test]
fn shared_subscription_delivers_to_exactly_one_member() {
    let mut st = Storage::new();
    st.create_session(b"c1", true, None);
    st.create_session(b"c2", true, None);
    st.subscribe(b"c1", filter_item("$share/g/news/+", Qos::AtMostOnce, RetainHandling::Never), 0);
    st.subscribe(b"c2", filter_item("$share/g/news/+", Qos::AtMostOnce, RetainHandling::Never), 0);
    for i in 0..100u32 {
        let mut m = msg("news/a", Qos::AtMostOnce, &format!("m{}", i));
        m.set_origin(b"pub".to_vec(), None);
        st.publish_one(&m, 0);
    }
    let q1 = st.next_messages(b"c1", None).len();
    let q2 = st.next_messages(b"c2", None).len();
    assert_eq!(q1 + q2, 100);
}

#[test]
fn retained_replay_on_new_subscribe_only() {
    let mut st = Storage::new();
    st.update_retained_message(b"cfg/x", msg("cfg/x", Qos::AtMostOnce, "v1"));
    st.create_session(b"s", true, None);
    st.subscribe(b"s", filter_item("cfg/#", Qos::AtMostOnce, RetainHandling::OnNewSubscribe), 0);
    let q = st.next_messages(b"s", None);
    assert_eq!(q.len(), 1);
    assert_eq!(q[0].payload, b"v1".to_vec());
    st.consume_messages(b"s", 1);
    // the same subscription again is not new: nothing is replayed
    st.subscribe(b"s", filter_item("cfg/#", Qos::AtMostOnce, RetainHandling::OnNewSubscribe), 0);
    assert!(st.next_messages(b"s", None).is_empty());
    // but on-every-subscribe replays again
    st.subscribe(
        b"s",
        filter_item("cfg/#", Qos::AtMostOnce, RetainHandling::OnEverySubscribe),
        0,
    );
    assert_eq!(st.next_messages(b"s", None).len(), 1);
}

#[test]
fn clean_start_drops_prior_state() {
    let mut st = Storage::new();
    assert!(!st.create_session(b"k", false, None));
    st.subscribe(b"k", filter_item("a/#", Qos::AtMostOnce, RetainHandling::Never), 0);
    st.publish_one(&msg("a/b", Qos::AtMostOnce, "x"), 0);
    assert_eq!(st.next_messages(b"k", None).len(), 1);
    // a clean-start connect discards queue and subscriptions
    assert!(!st.create_session(b"k", true, None));
    assert!(st.next_messages(b"k", None).is_empty());
    st.publish_one(&msg("a/b", Qos::AtMostOnce, "y"), 0);
    assert!(st.next_messages(b"k", None).is_empty());
}

#[test]
fn resumed_session_reports_present() {
    let mut st = Storage::new();
    assert!(!st.create_session(b"k", false, None));
    assert!(st.create_session(b"k", false, None));
    assert!(!st.create_session(b"k", true, None));
}

fn will(topic: &str, payload: &str, delay: Option<u32>) -> LastWill {
    LastWill {
        qos: Qos::AtMostOnce,
        retain: false,
        topic: topic.as_bytes().to_vec(),
        payload: payload.as_bytes().to_vec(),
        properties: WillProperties {
            delay_interval: delay,
            payload_format_indicator: None,
            message_expiry_interval: None,
            content_type: None,
            response_topic: None,
            correlation_data: None,
            user_properties: Vec::new(),
        },
    }
}

#[test]
fn will_fires_after_min_of_delay_and_expiry_and_session_expires_later() {
    let mut st = Storage::new();
    st.create_session(b"watcher", true, None);
    st.subscribe(b"watcher", filter_item("w/#", Qos::AtMostOnce, RetainHandling::Never), 0);
    st.create_session(b"dying", true, Some(will("w/x", "gone", Some(5))));
    st.disconnect_session(b"dying", 10, 0);
    st.update_sessions(3);
    assert!(st.next_messages(b"watcher", None).is_empty());
    assert!(st.has_session(b"dying"));
    st.update_sessions(6);
    let q = st.next_messages(b"watcher", None);
    assert_eq!(q.len(), 1);
    assert_eq!(q[0].payload, b"gone".to_vec());
    assert!(st.has_session(b"dying"));
    st.update_sessions(11);
    assert!(!st.has_session(b"dying"));
}

#[test]
fn reconnect_cancels_will_and_expiry_timers() {
    let mut st = Storage::new();
    st.create_session(b"watcher", true, None);
    st.subscribe(b"watcher", filter_item("w/#", Qos::AtMostOnce, RetainHandling::Never), 0);
    st.create_session(b"flappy", true, Some(will("w/x", "gone", Some(5))));
    st.disconnect_session(b"flappy", 10, 0);
    // the client is back before anything fired
    assert!(st.create_session(b"flappy", false, Some(will("w/x", "gone", Some(5)))));
    st.update_sessions(20);
    assert!(st.next_messages(b"watcher", None).is_empty());
    assert!(st.has_session(b"flappy"));
}

#[test]
fn normal_disconnect_without_will_leaves_nothing_behind() {
    let mut st = Storage::new();
    st.create_session(b"watcher", true, None);
    st.subscribe(b"watcher", filter_item("w/#", Qos::AtMostOnce, RetainHandling::Never), 0);
    // the connection layer drops the will on a normal disconnect; the
    // session then has none to deliver
    st.create_session(b"quiet", true, None);
    st.disconnect_session(b"quiet", 2, 0);
    st.update_sessions(10);
    assert!(st.next_messages(b"watcher", None).is_empty());
    assert!(!st.has_session(b"quiet"));
}

#[test]
fn expired_messages_are_not_delivered() {
    let mut st = Storage::new();
    st.create_session(b"s", true, None);
    st.subscribe(b"s", filter_item("t/#", Qos::AtMostOnce, RetainHandling::Never), 0);
    let mut m = msg("t/x", Qos::AtMostOnce, "stale");
    m.expire_at = Some(5);
    st.publish_one(&m, 6);
    assert!(st.next_messages(b"s", None).is_empty());
}

#[test]
fn inflight_acknowledgments_only_match_the_front() {
    let mut st = Storage::new();
    st.create_session(b"s", true, None);
    let p = |pid: u16| Publish {
        dup: false,
        qos: Qos::AtLeastOnce,
        retain: false,
        topic: b"t".to_vec(),
        packet_id: Some(pid),
        properties: PublishProperties::empty(),
        payload: b"x".to_vec(),
    };
    st.add_inflight_pub_packet(b"s", p(1));
    st.add_inflight_pub_packet(b"s", p(2));
    // out of order: the second identifier does not match the front
    assert!(st.get_inflight_pub_packets(b"s", 2, true).is_none());
    assert!(st.get_inflight_pub_packets(b"s", 1, true).is_some());
    assert!(st.get_inflight_pub_packets(b"s", 2, true).is_some());
    assert!(st.get_inflight_pub_packets(b"s", 2, true).is_none());
}

#[test]
fn uncompleted_messages_refuse_duplicate_identifiers() {
    let mut st = Storage::new();
    st.create_session(b"s", true, None);
    assert!(st.add_uncompleted_message(b"s", 42, msg("t", Qos::ExactlyOnce, "a")));
    assert!(!st.add_uncompleted_message(b"s", 42, msg("t", Qos::ExactlyOnce, "b")));
    let got = st.remove_uncompleted_message(b"s", 42).unwrap();
    assert_eq!(got.payload, b"a".to_vec());
    assert!(st.remove_uncompleted_message(b"s", 42).is_none());
}

#[test]
fn metrics_count_sessions_and_messages() {
    let mut st = Storage::new();
    st.create_session(b"a", true, None);
    st.create_session(b"b", true, None);
    st.subscribe(b"a", filter_item("t/#", Qos::AtMostOnce, RetainHandling::Never), 0);
    st.update_retained_message(b"t/r", msg("t/r", Qos::AtMostOnce, "abc"));
    st.publish_one(&msg("t/x", Qos::AtMostOnce, "hello"), 0);
    let m = st.metrics();
    assert_eq!(m.session_count, 2);
    assert_eq!(m.retained_messages_count, 1);
    assert_eq!(m.subscriptions_count, 1);
    assert_eq!(m.messages_count, 2);
    assert_eq!(m.messages_bytes, 3 + 5);
    assert_eq!(m.clients_expired, 0);
}

#[test]
fn shared_subscribe_then_unsubscribe_restores_the_group_table() {
    let mut st = Storage::new();
    st.create_session(b"c1", true, None);
    st.subscribe(b"c1", filter_item("$share/g/a/+", Qos::AtMostOnce, RetainHandling::Never), 0);
    let f = TopicFilter::parse(b"$share/g/a/+").unwrap();
    assert!(st.unsubscribe(b"c1", &f));
    // the emptied client and group entries are gone: nothing is found and
    // nothing is delivered any more
    assert!(!st.unsubscribe(b"c1", &f));
    let mut m = msg("a/x", Qos::AtMostOnce, "v");
    m.set_origin(b"pub".to_vec(), None);
    st.publish_one(&m, 0);
    assert!(st.next_messages(b"c1", None).is_empty());
}
