//! The per-connection protocol state machine, driven end to end against
//! the store and the registry.

use rsmqtt_core::connection::{Connection, ConnectOutcome, ServerConfig};
use rsmqtt_core::packets::{
    Connect, ConnectProperties, Disconnect, DisconnectProperties, DisconnectReasonCode, LastWill,
    Packet, ProtocolLevel, PubAckReasonCode, PubRec, PubRecProperties, PubRecReasonCode, PubRel,
    PubRelReasonCode, Publish, PublishProperties, Qos, RetainHandling, SubAck, Subscribe,
    SubscribeFilter, SubscribeProperties, SubscribeReasonCode, UnsubAckReasonCode, Unsubscribe,
    WillProperties,
};
use rsmqtt_core::connection::{keep_alive_expired, rewrite_topic, server_only_packet};
use rsmqtt_core::server::ConnectionsRegistry;
use rsmqtt_core::storage::Storage;

fn config() -> ServerConfig {
    ServerConfig {
        max_session_expiry_interval: 3600,
        max_keep_alive: 120,
        receive_max: 10,
        maximum_qos: Qos::ExactlyOnce,
        max_packet_size: 0xffff_ffff,
        retain_available: true,
        wildcard_subscription_available: true,
        max_topic_alias: 32,
    }
}

fn connect_packet(cid: &str, clean_start: bool) -> Connect {
    Connect {
        level: ProtocolLevel::V5,
        keep_alive: 60,
        clean_start,
        client_id: cid.as_bytes().to_vec(),
        last_will: None,
        login: None,
        properties: ConnectProperties {
            session_expiry_interval: Some(300),
            receive_max: Some(10),
            max_packet_size: None,
            topic_alias_max: None,
        },
    }
}

fn connected(
    storage: &mut Storage,
    registry: &mut ConnectionsRegistry,
    cid: &str,
    token: u64,
) -> Connection {
    let mut c = Connection::new();
    let r = c
        .handle_connect(
            storage,
            registry,
            &config(),
            &Vec::new(),
            connect_packet(cid, true),
            None,
            token,
            0,
        )
        .unwrap();
    match r {
        ConnectOutcome::Accepted(ca, _, _) => assert!(!ca.session_present),
        ConnectOutcome::Rejected(_) => panic!("handshake refused"),
    }
    c
}

fn publish_packet(topic: &str, qos: Qos, payload: &str, packet_id: Option<u16>) -> Publish {
    Publish {
        dup: false,
        qos,
        retain: false,
        topic: topic.as_bytes().to_vec(),
        packet_id,
        properties: PublishProperties::empty(),
        payload: payload.as_bytes().to_vec(),
    }
}

fn subscribe_packet(path: &str, qos: Qos) -> Subscribe {
    Subscribe {
        packet_id: 1,
        filters: vec![SubscribeFilter {
            path: path.as_bytes().to_vec(),
            qos,
            no_local: false,
            retain_as_published: false,
            retain_handling: RetainHandling::OnNewSubscribe,
        }],
        properties: SubscribeProperties { id: None },
    }
}

fn suback(r: Result<Packet, DisconnectReasonCode>) -> SubAck {
    match r.unwrap() {
        Packet::SubAck(sa) => sa,
        _ => panic!("expected a SUBACK"),
    }
}

#[test]
fn qos1_flow_returns_quota() {
    let mut st = Storage::new();
    let mut reg = ConnectionsRegistry::new();
    let mut a = connected(&mut st, &mut reg, "a", 1);
    let mut b = connected(&mut st, &mut reg, "b", 2);
    let sa = suback(a.handle_subscribe(
        &mut st,
        &subscribe_packet("t/+", Qos::AtLeastOnce),
        &vec![true],
        &config(),
        0,
    ));
    assert_eq!(sa.reason_codes, vec![SubscribeReasonCode::QoS1]);

    let p = b.publish_validate(publish_packet("t/x", Qos::AtLeastOnce, "hello", Some(7)), &config())
        .unwrap();
    let acks = b.publish_apply(&mut st, p, true, 0).unwrap();
    assert_eq!(acks.len(), 1);
    match &acks[0] {
        Packet::PubAck(pa) => {
            assert_eq!(pa.packet_id, 7);
            assert_eq!(pa.reason_code, PubAckReasonCode::Success);
        },
        _ => panic!("expected a PUBACK"),
    }

    assert_eq!(a.receive_out_quota, 10);
    let out = a.handle_notified(&mut st, 0);
    assert_eq!(out.len(), 1);
    let pid = match &out[0] {
        Packet::Publish(p) => {
            assert_eq!(p.topic, b"t/x".to_vec());
            assert_eq!(p.payload, b"hello".to_vec());
            assert_eq!(p.qos, Qos::AtLeastOnce);
            p.packet_id.unwrap()
        },
        _ => panic!("expected a PUBLISH"),
    };
    assert_eq!(a.receive_out_quota, 9);
    assert!(a.handle_pub_ack(&mut st, pid).is_ok());
    assert_eq!(a.receive_out_quota, 10);
}

#[test]
fn qos2_duplicate_identifier_is_refused() {
    let mut st = Storage::new();
    let mut reg = ConnectionsRegistry::new();
    let mut b = connected(&mut st, &mut reg, "b", 1);
    let p1 = b.publish_validate(publish_packet("t", Qos::ExactlyOnce, "x", Some(42)), &config())
        .unwrap();
    let out1 = b.publish_apply(&mut st, p1, true, 0).unwrap();
    match &out1[0] {
        Packet::PubRec(pr) => assert_eq!(pr.reason_code, PubRecReasonCode::Success),
        _ => panic!("expected a PUBREC"),
    }
    let p2 = b.publish_validate(publish_packet("t", Qos::ExactlyOnce, "x", Some(42)), &config())
        .unwrap();
    let out2 = b.publish_apply(&mut st, p2, true, 0).unwrap();
    match &out2[0] {
        Packet::PubRec(pr) => {
            assert_eq!(pr.reason_code, PubRecReasonCode::PacketIdentifierInUse)
        },
        _ => panic!("expected a PUBREC"),
    }
}

#[test]
fn qos2_inbound_completes_on_pubrel() {
    let mut st = Storage::new();
    let mut reg = ConnectionsRegistry::new();
    let mut s = connected(&mut st, &mut reg, "s", 1);
    let mut b = connected(&mut st, &mut reg, "b", 2);
    suback(s.handle_subscribe(&mut st, &subscribe_packet("t", Qos::ExactlyOnce), &vec![true], &config(), 0));
    let p = b.publish_validate(publish_packet("t", Qos::ExactlyOnce, "x", Some(42)), &config())
        .unwrap();
    b.publish_apply(&mut st, p, true, 0).unwrap();
    // the message is held back until PUBREL
    assert!(s.handle_notified(&mut st, 0).is_empty());
    let out = b
        .handle_pub_rel(
            &mut st,
            &PubRel { packet_id: 42, reason_code: PubRelReasonCode::Success },
            0,
        )
        .unwrap();
    assert_eq!(out.len(), 1);
    assert_eq!(s.handle_notified(&mut st, 0).len(), 1);
}

#[test]
fn topic_alias_zero_or_above_max_is_invalid() {
    let mut st = Storage::new();
    let mut reg = ConnectionsRegistry::new();
    let mut b = connected(&mut st, &mut reg, "b", 1);
    let mut p = publish_packet("t", Qos::AtMostOnce, "x", None);
    p.properties.topic_alias = Some(0);
    assert_eq!(
        b.publish_validate(p, &config()),
        Err(DisconnectReasonCode::TopicAliasInvalid)
    );
    let mut p = publish_packet("t", Qos::AtMostOnce, "x", None);
    p.properties.topic_alias = Some(33);
    assert_eq!(
        b.publish_validate(p, &config()),
        Err(DisconnectReasonCode::TopicAliasInvalid)
    );
}

#[test]
fn empty_topic_without_alias_is_a_protocol_error() {
    let mut st = Storage::new();
    let mut reg = ConnectionsRegistry::new();
    let mut b = connected(&mut st, &mut reg, "b", 1);
    assert_eq!(
        b.publish_validate(publish_packet("", Qos::AtMostOnce, "x", None), &config()),
        Err(DisconnectReasonCode::ProtocolError)
    );
}

#[test]
fn topic_alias_binds_and_resolves() {
    let mut st = Storage::new();
    let mut reg = ConnectionsRegistry::new();
    let mut b = connected(&mut st, &mut reg, "b", 1);
    let mut p = publish_packet("t/long", Qos::AtMostOnce, "x", None);
    p.properties.topic_alias = Some(5);
    let r = b.publish_validate(p, &config()).unwrap();
    assert_eq!(r.topic, b"t/long".to_vec());
    let mut p2 = publish_packet("", Qos::AtMostOnce, "y", None);
    p2.properties.topic_alias = Some(5);
    let r2 = b.publish_validate(p2, &config()).unwrap();
    assert_eq!(r2.topic, b"t/long".to_vec());
    // an unknown alias with an empty topic is a protocol error
    let mut p3 = publish_packet("", Qos::AtMostOnce, "y", None);
    p3.properties.topic_alias = Some(6);
    assert_eq!(b.publish_validate(p3, &config()), Err(DisconnectReasonCode::ProtocolError));
}

#[test]
fn publishing_to_system_topics_is_refused() {
    let mut st = Storage::new();
    let mut reg = ConnectionsRegistry::new();
    let mut b = connected(&mut st, &mut reg, "b", 1);
    assert_eq!(
        b.publish_validate(publish_packet("$SYS/x", Qos::AtMostOnce, "x", None), &config()),
        Err(DisconnectReasonCode::TopicNameInvalid)
    );
}

#[test]
fn acl_denial_aborts_a_publish() {
    let mut st = Storage::new();
    let mut reg = ConnectionsRegistry::new();
    let mut b = connected(&mut st, &mut reg, "b", 1);
    let p = b.publish_validate(publish_packet("t", Qos::AtMostOnce, "x", None), &config())
        .unwrap();
    assert_eq!(b.publish_apply(&mut st, p, false, 0), Err(DisconnectReasonCode::NotAuthorized));
}

#[test]
fn session_takeover_notifies_the_prior_holder() {
    let mut st = Storage::new();
    let mut reg = ConnectionsRegistry::new();
    let mut first = Connection::new();
    let r1 = first
        .handle_connect(&mut st, &mut reg, &config(), &Vec::new(), connect_packet("k", false), None, 1, 0)
        .unwrap();
    match r1 {
        ConnectOutcome::Accepted(ca, taken, _) => {
            assert!(!ca.session_present);
            assert!(taken.is_none());
        },
        _ => panic!("handshake refused"),
    }
    let mut second = Connection::new();
    let r2 = second
        .handle_connect(&mut st, &mut reg, &config(), &Vec::new(), connect_packet("k", false), None, 2, 0)
        .unwrap();
    match r2 {
        ConnectOutcome::Accepted(ca, taken, _) => {
            assert!(ca.session_present);
            assert_eq!(taken, Some(1));
        },
        _ => panic!("handshake refused"),
    }
    // the displaced connection forgets the identifier and terminates
    first.handle_taken_over();
    assert!(first.client_id.is_none());
}

#[test]
fn second_connect_is_a_protocol_error() {
    let mut st = Storage::new();
    let mut reg = ConnectionsRegistry::new();
    let mut c = connected(&mut st, &mut reg, "c", 1);
    assert_eq!(
        c.handle_connect(&mut st, &mut reg, &config(), &Vec::new(), connect_packet("c", true), None, 1, 0),
        Err(DisconnectReasonCode::ProtocolError)
    );
}

#[test]
fn empty_client_id_without_clean_start_is_refused() {
    let mut st = Storage::new();
    let mut reg = ConnectionsRegistry::new();
    let mut c = Connection::new();
    match c
        .handle_connect(&mut st, &mut reg, &config(), &Vec::new(), connect_packet("", false), None, 1, 0)
        .unwrap()
    {
        ConnectOutcome::Rejected(ca) => {
            assert_eq!(
                ca.reason_code,
                rsmqtt_core::packets::ConnectReasonCode::ClientIdentifierNotValid
            );
        },
        _ => panic!("expected a refusal"),
    }
}

#[test]
fn empty_client_id_with_clean_start_gets_an_assigned_one() {
    let mut st = Storage::new();
    let mut reg = ConnectionsRegistry::new();
    let mut c = Connection::new();
    match c
        .handle_connect(&mut st, &mut reg, &config(), &Vec::new(), connect_packet("", true), None, 1, 0)
        .unwrap()
    {
        ConnectOutcome::Accepted(ca, _, _) => {
            let assigned = ca.properties.assigned_client_identifier.unwrap();
            assert_eq!(assigned.len(), 41);
            assert_eq!(&assigned[..5], b"auto-");
            assert_eq!(c.client_id.as_deref(), Some(assigned.as_slice()));
        },
        _ => panic!("handshake refused"),
    }
}

#[test]
fn refused_login_disconnects_not_authorized() {
    let mut st = Storage::new();
    let mut reg = ConnectionsRegistry::new();
    let mut c = Connection::new();
    let mut pkt = connect_packet("c", true);
    pkt.login = Some(rsmqtt_core::packets::Login {
        username: b"u".to_vec(),
        password: b"nope".to_vec(),
    });
    assert_eq!(
        c.handle_connect(&mut st, &mut reg, &config(), &Vec::new(), pkt, Some(None), 1, 0),
        Err(DisconnectReasonCode::NotAuthorized)
    );
}

#[test]
fn will_with_unsupported_qos_is_refused_with_connack() {
    let mut st = Storage::new();
    let mut reg = ConnectionsRegistry::new();
    let mut cfg = config();
    cfg.maximum_qos = Qos::AtMostOnce;
    let mut pkt = connect_packet("c", true);
    pkt.last_will = Some(LastWill {
        qos: Qos::AtLeastOnce,
        retain: false,
        topic: b"w".to_vec(),
        payload: b"x".to_vec(),
        properties: WillProperties {
            delay_interval: None,
            payload_format_indicator: None,
            message_expiry_interval: None,
            content_type: None,
            response_topic: None,
            correlation_data: None,
            user_properties: Vec::new(),
        },
    });
    let mut c = Connection::new();
    match c.handle_connect(&mut st, &mut reg, &cfg, &Vec::new(), pkt, None, 1, 0).unwrap() {
        ConnectOutcome::Rejected(ca) => {
            assert_eq!(ca.reason_code, rsmqtt_core::packets::ConnectReasonCode::QoSNotSupported);
        },
        _ => panic!("expected a refusal"),
    }
}

#[test]
fn normal_disconnect_drops_the_will() {
    let mut c = Connection::new();
    c.last_will = Some(LastWill {
        qos: Qos::AtMostOnce,
        retain: false,
        topic: b"w".to_vec(),
        payload: b"x".to_vec(),
        properties: WillProperties {
            delay_interval: None,
            payload_format_indicator: None,
            message_expiry_interval: None,
            content_type: None,
            response_topic: None,
            correlation_data: None,
            user_properties: Vec::new(),
        },
    });
    c.handle_disconnect(&Disconnect {
        reason_code: DisconnectReasonCode::NormalDisconnection,
        properties: DisconnectProperties { session_expiry_interval: None },
    });
    assert!(c.last_will.is_none());
}

#[test]
fn abnormal_disconnect_keeps_the_will() {
    let mut c = Connection::new();
    c.last_will = Some(LastWill {
        qos: Qos::AtMostOnce,
        retain: false,
        topic: b"w".to_vec(),
        payload: b"x".to_vec(),
        properties: WillProperties {
            delay_interval: None,
            payload_format_indicator: None,
            message_expiry_interval: None,
            content_type: None,
            response_topic: None,
            correlation_data: None,
            user_properties: Vec::new(),
        },
    });
    c.handle_disconnect(&Disconnect {
        reason_code: DisconnectReasonCode::UnspecifiedError,
        properties: DisconnectProperties { session_expiry_interval: Some(17) },
    });
    assert!(c.last_will.is_some());
    assert_eq!(c.session_expiry_interval, 17);
}

#[test]
fn shared_subscription_with_no_local_disconnects() {
    let mut st = Storage::new();
    let mut reg = ConnectionsRegistry::new();
    let mut c = connected(&mut st, &mut reg, "c", 1);
    let mut sub = subscribe_packet("$share/g/t", Qos::AtMostOnce);
    sub.filters[0].no_local = true;
    assert_eq!(
        c.handle_subscribe(&mut st, &sub, &vec![true], &config(), 0),
        Err(DisconnectReasonCode::ProtocolError)
    );
}

#[test]
fn invalid_filters_get_their_own_reason_code() {
    let mut st = Storage::new();
    let mut reg = ConnectionsRegistry::new();
    let mut c = connected(&mut st, &mut reg, "c", 1);
    let sub = Subscribe {
        packet_id: 4,
        filters: vec![
            SubscribeFilter {
                path: b"ok/topic".to_vec(),
                qos: Qos::ExactlyOnce,
                no_local: false,
                retain_as_published: false,
                retain_handling: RetainHandling::Never,
            },
            SubscribeFilter {
                path: b"bad/#/filter".to_vec(),
                qos: Qos::AtMostOnce,
                no_local: false,
                retain_as_published: false,
                retain_handling: RetainHandling::Never,
            },
        ],
        properties: SubscribeProperties { id: None },
    };
    let sa = suback(c.handle_subscribe(&mut st, &sub, &vec![true, true], &config(), 0));
    assert_eq!(sa.packet_id, 4);
    assert_eq!(
        sa.reason_codes,
        vec![SubscribeReasonCode::QoS2, SubscribeReasonCode::TopicFilterInvalid]
    );
}

#[test]
fn unsubscribe_reports_whether_an_entry_existed() {
    let mut st = Storage::new();
    let mut reg = ConnectionsRegistry::new();
    let mut c = connected(&mut st, &mut reg, "c", 1);
    suback(c.handle_subscribe(&mut st, &subscribe_packet("a/+", Qos::AtMostOnce), &vec![true], &config(), 0));
    let unsub = Unsubscribe { packet_id: 9, filters: vec![b"a/+".to_vec(), b"b".to_vec()] };
    match c.handle_unsubscribe(&mut st, &unsub) {
        Packet::UnsubAck(ua) => {
            assert_eq!(ua.packet_id, 9);
            assert_eq!(
                ua.reason_codes,
                vec![UnsubAckReasonCode::Success, UnsubAckReasonCode::NoSubscriptionExisted]
            );
        },
        _ => panic!("expected an UNSUBACK"),
    }
}

#[test]
fn ping_is_answered() {
    let c = Connection::new();
    assert!(matches!(c.handle_ping_req(), Packet::PingResp));
}

#[test]
fn pubrec_out_of_order_disconnects() {
    let mut st = Storage::new();
    let mut reg = ConnectionsRegistry::new();
    let mut c = connected(&mut st, &mut reg, "c", 1);
    // no outbound QoS 2 delivery is pending under this identifier
    assert_eq!(
        c.handle_pub_rec(
            &mut st,
            &PubRec {
                packet_id: 3,
                reason_code: PubRecReasonCode::Success,
                properties: PubRecProperties::empty(),
            },
        ),
        Err(DisconnectReasonCode::ProtocolError)
    );
}

#[test]
fn qos2_outbound_full_cycle_restores_quota() {
    let mut st = Storage::new();
    let mut reg = ConnectionsRegistry::new();
    let mut s = connected(&mut st, &mut reg, "s", 1);
    let mut b = connected(&mut st, &mut reg, "b", 2);
    suback(s.handle_subscribe(&mut st, &subscribe_packet("q/#", Qos::ExactlyOnce), &vec![true], &config(), 0));
    let p = b.publish_validate(publish_packet("q/x", Qos::ExactlyOnce, "v", Some(5)), &config())
        .unwrap();
    b.publish_apply(&mut st, p, true, 0).unwrap();
    b.handle_pub_rel(&mut st, &PubRel { packet_id: 5, reason_code: PubRelReasonCode::Success }, 0)
        .unwrap();
    let out = s.handle_notified(&mut st, 0);
    assert_eq!(out.len(), 1);
    let pid = match &out[0] {
        Packet::Publish(p) => p.packet_id.unwrap(),
        _ => panic!("expected a PUBLISH"),
    };
    assert_eq!(s.receive_out_quota, 9);
    let rel = s
        .handle_pub_rec(
            &mut st,
            &PubRec {
                packet_id: pid,
                reason_code: PubRecReasonCode::Success,
                properties: PubRecProperties::empty(),
            },
        )
        .unwrap();
    assert_eq!(rel.len(), 1);
    assert!(s.handle_pub_comp(&mut st, pid).is_ok());
    assert_eq!(s.receive_out_quota, 10);
}

#[test]
fn utf8_payload_indicator_is_enforced() {
    let mut st = Storage::new();
    let mut reg = ConnectionsRegistry::new();
    let mut b = connected(&mut st, &mut reg, "b", 1);
    let mut bad = publish_packet("t", Qos::AtMostOnce, "", None);
    bad.payload = vec![0xffu8, 0xfe];
    bad.properties.payload_format_indicator = Some(true);
    assert_eq!(
        b.publish_validate(bad, &config()),
        Err(DisconnectReasonCode::PayloadFormatInvalid)
    );
    let mut good = publish_packet("t", Qos::AtMostOnce, "ok", None);
    good.properties.payload_format_indicator = Some(true);
    assert!(b.publish_validate(good, &config()).is_ok());
    // without the indicator, arbitrary bytes pass
    let mut raw = publish_packet("t", Qos::AtMostOnce, "", None);
    raw.payload = vec![0xffu8, 0xfe];
    assert!(b.publish_validate(raw, &config()).is_ok());
}

#[test]
fn keep_alive_times_out_after_one_and_a_half_intervals() {
    assert!(!keep_alive_expired(60, 100, 190));
    assert!(keep_alive_expired(60, 100, 191));
    // a zero keep-alive never times out
    assert!(!keep_alive_expired(0, 0, 1_000_000));
}

#[test]
fn server_only_packets_are_recognized() {
    assert!(server_only_packet(&Packet::PingResp));
    assert!(!server_only_packet(&Packet::PingReq));
}

#[test]
fn retain_unavailable_is_refused() {
    let mut st = Storage::new();
    let mut reg = ConnectionsRegistry::new();
    let mut b = connected(&mut st, &mut reg, "b", 1);
    let mut cfg = config();
    cfg.retain_available = false;
    let mut p = publish_packet("t", Qos::AtMostOnce, "x", None);
    p.retain = true;
    assert_eq!(b.publish_validate(p, &cfg), Err(DisconnectReasonCode::RetainNotSupported));
}

#[test]
fn exhausted_inbound_quota_disconnects() {
    let mut st = Storage::new();
    let mut reg = ConnectionsRegistry::new();
    let mut cfg = config();
    cfg.receive_max = 1;
    let mut b = Connection::new();
    match b
        .handle_connect(&mut st, &mut reg, &cfg, &Vec::new(), connect_packet("b", true), None, 1, 0)
        .unwrap()
    {
        ConnectOutcome::Accepted(_, _, _) => {},
        _ => panic!("handshake refused"),
    }
    let p1 = b.publish_validate(publish_packet("t", Qos::ExactlyOnce, "x", Some(1)), &cfg).unwrap();
    b.publish_apply(&mut st, p1, true, 0).unwrap();
    let p2 = b.publish_validate(publish_packet("t", Qos::ExactlyOnce, "y", Some(2)), &cfg).unwrap();
    assert_eq!(
        b.publish_apply(&mut st, p2, true, 0),
        Err(DisconnectReasonCode::ReceiveMaximumExceeded)
    );
}

#[test]
fn wildcards_can_be_switched_off() {
    let mut st = Storage::new();
    let mut reg = ConnectionsRegistry::new();
    let mut c = connected(&mut st, &mut reg, "c", 1);
    let mut cfg = config();
    cfg.wildcard_subscription_available = false;
    let sa = suback(c.handle_subscribe(&mut st, &subscribe_packet("a/+", Qos::AtMostOnce), &vec![true], &cfg, 0));
    assert_eq!(sa.reason_codes, vec![SubscribeReasonCode::WildcardSubscriptionsNotSupported]);
    let sa2 = suback(c.handle_subscribe(&mut st, &subscribe_packet("a/b", Qos::AtMostOnce), &vec![true], &cfg, 0));
    assert_eq!(sa2.reason_codes, vec![SubscribeReasonCode::QoS0]);
}

#[test]
fn rewrite_rules_apply_first_exact_match() {
    let rules: Vec<(Vec<u8>, Vec<u8>)> = vec![
        (b"old/a".to_vec(), b"new/a".to_vec()),
        (b"old/a".to_vec(), b"other".to_vec()),
        (b"old/b".to_vec(), b"new/b".to_vec()),
    ];
    assert_eq!(rewrite_topic(&rules, &b"old/a".to_vec()), b"new/a".to_vec());
    assert_eq!(rewrite_topic(&rules, &b"old/b".to_vec()), b"new/b".to_vec());
    assert_eq!(rewrite_topic(&rules, &b"old/c".to_vec()), b"old/c".to_vec());
    assert_eq!(rewrite_topic(&Vec::new(), &b"t".to_vec()), b"t".to_vec());
}

#[test]
fn rewritten_publish_routes_under_the_new_topic() {
    let mut st = Storage::new();
    let mut reg = ConnectionsRegistry::new();
    let mut s = connected(&mut st, &mut reg, "s", 1);
    let mut b = connected(&mut st, &mut reg, "b", 2);
    suback(s.handle_subscribe(&mut st, &subscribe_packet("new/#", Qos::AtMostOnce), &vec![true], &config(), 0));
    let rules: Vec<(Vec<u8>, Vec<u8>)> = vec![(b"old/x".to_vec(), b"new/x".to_vec())];
    let mut p = b.publish_validate(publish_packet("old/x", Qos::AtMostOnce, "v", None), &config())
        .unwrap();
    p.topic = rewrite_topic(&rules, &p.topic);
    b.publish_apply(&mut st, p, true, 0).unwrap();
    let out = s.handle_notified(&mut st, 0);
    assert_eq!(out.len(), 1);
    match &out[0] {
        Packet::Publish(d) => assert_eq!(d.topic, b"new/x".to_vec()),
        _ => panic!("expected a PUBLISH"),
    }
}
