//! The fourteen MQTT control packets and the enumerations they carry,
//! as plain data. Topic names, filters, identifiers and payloads are byte
//! vectors; packet identifiers are 16-bit integers (zero is never a valid
//! packet identifier on the wire).

use vstd::prelude::*;

use crate::bytes_util::{
    clone_bytes, clone_opt_bytes, clone_pairs, clone_u32s, opt_bytes_view, pairs_view,
};

verus! {

#[derive(Clone, Copy, PartialEq, Eq, Structural, Debug)]
pub enum Qos {
    AtMostOnce,
    AtLeastOnce,
    ExactlyOnce,
}

impl Qos {
    /// The numeric level of this QoS, as it appears on the wire.
    pub open spec fn as_num(self) -> int {
        match self {
            Qos::AtMostOnce => 0,
            Qos::AtLeastOnce => 1,
            Qos::ExactlyOnce => 2,
        }
    }

    pub fn level(self) -> (r: u8)
        ensures
            r == self.as_num(),
    {
        match self {
            Qos::AtMostOnce => 0,
            Qos::AtLeastOnce => 1,
            Qos::ExactlyOnce => 2,
        }
    }

    /// The smaller of two QoS levels.
    pub fn min_with(self, other: Qos) -> (r: Qos)
        ensures
            r.as_num() == if self.as_num() <= other.as_num() {
                self.as_num()
            } else {
                other.as_num()
            },
    {
        if self.level() <= other.level() {
            self
        } else {
            other
        }
    }

    /// The larger of two QoS levels.
    pub fn max_with(self, other: Qos) -> (r: Qos)
        ensures
            r.as_num() == if self.as_num() >= other.as_num() {
                self.as_num()
            } else {
                other.as_num()
            },
    {
        if self.level() >= other.level() {
            self
        } else {
            other
        }
    }
}

pub open spec fn spec_qos_min(a: Qos, b: Qos) -> Qos {
    if a.as_num() <= b.as_num() {
        a
    } else {
        b
    }
}

pub open spec fn spec_qos_max(a: Qos, b: Qos) -> Qos {
    if a.as_num() >= b.as_num() {
        a
    } else {
        b
    }
}

#[derive(Clone, Copy, PartialEq, Eq, Structural, Debug)]
pub enum RetainHandling {
    OnEverySubscribe,
    OnNewSubscribe,
    Never,
}

#[derive(Clone, Copy, PartialEq, Eq, Structural, Debug)]
pub enum ProtocolLevel {
    V4,
    V5,
}

#[derive(Clone, Copy, PartialEq, Eq, Structural, Debug)]
pub enum ConnectReasonCode {
    Success,
    UnspecifiedError,
    ClientIdentifierNotValid,
    BadUserNameOrPassword,
    NotAuthorized,
    QoSNotSupported,
    RetainNotSupported,
    PayloadFormatInvalid,
}

#[derive(Clone, Copy, PartialEq, Eq, Structural, Debug)]
pub enum DisconnectReasonCode {
    NormalDisconnection,
    UnspecifiedError,
    ProtocolError,
    NotAuthorized,
    KeepAliveTimeout,
    SessionTakenOver,
    TopicFilterInvalid,
    TopicNameInvalid,
    ReceiveMaximumExceeded,
    TopicAliasInvalid,
    PacketTooLarge,
    PayloadFormatInvalid,
    RetainNotSupported,
    QoSNotSupported,
}

#[derive(Clone, Copy, PartialEq, Eq, Structural, Debug)]
pub enum PubAckReasonCode {
    Success,
    NoMatchingSubscribers,
    UnspecifiedError,
    NotAuthorized,
    TopicNameInvalid,
    PacketIdentifierInUse,
    QuotaExceeded,
    PayloadFormatInvalid,
}

#[derive(Clone, Copy, PartialEq, Eq, Structural, Debug)]
pub enum PubRecReasonCode {
    Success,
    NoMatchingSubscribers,
    UnspecifiedError,
    ImplementationSpecificError,
    NotAuthorized,
    TopicNameInvalid,
    PacketIdentifierInUse,
    QuotaExceeded,
    PayloadFormatInvalid,
}

impl PubRecReasonCode {
    /// Reason codes below 0x80 report success.
    pub open spec fn spec_is_success(self) -> bool {
        self == PubRecReasonCode::Success || self == PubRecReasonCode::NoMatchingSubscribers
    }

    pub fn is_success(self) -> (r: bool)
        ensures
            r == self.spec_is_success(),
    {
        match self {
            PubRecReasonCode::Success => true,
            PubRecReasonCode::NoMatchingSubscribers => true,
            _ => false,
        }
    }
}

#[derive(Clone, Copy, PartialEq, Eq, Structural, Debug)]
pub enum PubRelReasonCode {
    Success,
    PacketIdentifierNotFound,
}

impl PubRelReasonCode {
    pub open spec fn spec_is_success(self) -> bool {
        self == PubRelReasonCode::Success
    }

    pub fn is_success(self) -> (r: bool)
        ensures
            r == self.spec_is_success(),
    {
        match self {
            PubRelReasonCode::Success => true,
            PubRelReasonCode::PacketIdentifierNotFound => false,
        }
    }
}

#[derive(Clone, Copy, PartialEq, Eq, Structural, Debug)]
pub enum PubCompReasonCode {
    Success,
    PacketIdentifierNotFound,
}

#[derive(Clone, Copy, PartialEq, Eq, Structural, Debug)]
pub enum SubscribeReasonCode {
    QoS0,
    QoS1,
    QoS2,
    TopicFilterInvalid,
    WildcardSubscriptionsNotSupported,
    NotAuthorized,
}

#[derive(Clone, Copy, PartialEq, Eq, Structural, Debug)]
pub enum UnsubAckReasonCode {
    Success,
    NoSubscriptionExisted,
    TopicFilterInvalid,
}

/// Properties of a PUBLISH packet (and of a stored message).
#[derive(Debug, PartialEq, Eq)]
pub struct PublishProperties {
    pub payload_format_indicator: Option<bool>,
    pub message_expiry_interval: Option<u32>,
    pub topic_alias: Option<u16>,
    pub response_topic: Option<Vec<u8>>,
    pub correlation_data: Option<Vec<u8>>,
    pub user_properties: Vec<(Vec<u8>, Vec<u8>)>,
    pub subscription_identifiers: Vec<u32>,
    pub content_type: Option<Vec<u8>>,
}

#[verifier::ext_equal]
pub ghost struct PublishPropertiesView {
    pub payload_format_indicator: Option<bool>,
    pub message_expiry_interval: Option<u32>,
    pub topic_alias: Option<u16>,
    pub response_topic: Option<Seq<u8>>,
    pub correlation_data: Option<Seq<u8>>,
    pub user_properties: Seq<(Seq<u8>, Seq<u8>)>,
    pub subscription_identifiers: Seq<u32>,
    pub content_type: Option<Seq<u8>>,
}

impl View for PublishProperties {
    type V = PublishPropertiesView;

    open spec fn view(&self) -> PublishPropertiesView {
        PublishPropertiesView {
            payload_format_indicator: self.payload_format_indicator,
            message_expiry_interval: self.message_expiry_interval,
            topic_alias: self.topic_alias,
            response_topic: opt_bytes_view(self.response_topic),
            correlation_data: opt_bytes_view(self.correlation_data),
            user_properties: pairs_view(self.user_properties@),
            subscription_identifiers: self.subscription_identifiers@,
            content_type: opt_bytes_view(self.content_type),
        }
    }
}

impl PublishProperties {
    pub fn empty() -> (r: Self)
        ensures
            r@ == PublishProperties::empty_view(),
    {
        let r = PublishProperties {
            payload_format_indicator: None,
            message_expiry_interval: None,
            topic_alias: None,
            response_topic: None,
            correlation_data: None,
            user_properties: Vec::new(),
            subscription_identifiers: Vec::new(),
            content_type: None,
        };
        proof {
            assert(r@.user_properties =~= Seq::<(Seq<u8>, Seq<u8>)>::empty());
            assert(r@.subscription_identifiers =~= Seq::<u32>::empty());
        }
        r
    }

    pub open spec fn empty_view() -> PublishPropertiesView {
        PublishPropertiesView {
            payload_format_indicator: None,
            message_expiry_interval: None,
            topic_alias: None,
            response_topic: None,
            correlation_data: None,
            user_properties: Seq::empty(),
            subscription_identifiers: Seq::empty(),
            content_type: None,
        }
    }

    pub fn duplicate(&self) -> (r: Self)
        ensures
            r@ == self@,
    {
        PublishProperties {
            payload_format_indicator: self.payload_format_indicator,
            message_expiry_interval: self.message_expiry_interval,
            topic_alias: self.topic_alias,
            response_topic: clone_opt_bytes(&self.response_topic),
            correlation_data: clone_opt_bytes(&self.correlation_data),
            user_properties: clone_pairs(&self.user_properties),
            subscription_identifiers: clone_u32s(&self.subscription_identifiers),
            content_type: clone_opt_bytes(&self.content_type),
        }
    }
}

/// An application message in flight from a publisher to a subscriber.
#[derive(Debug, PartialEq, Eq)]
pub struct Publish {
    pub dup: bool,
    pub qos: Qos,
    pub retain: bool,
    pub topic: Vec<u8>,
    /// Present exactly for QoS 1 and 2; never zero on the wire.
    pub packet_id: Option<u16>,
    pub properties: PublishProperties,
    pub payload: Vec<u8>,
}

#[verifier::ext_equal]
pub ghost struct PublishView {
    pub dup: bool,
    pub qos: Qos,
    pub retain: bool,
    pub topic: Seq<u8>,
    pub packet_id: Option<u16>,
    pub properties: PublishPropertiesView,
    pub payload: Seq<u8>,
}

impl View for Publish {
    type V = PublishView;

    open spec fn view(&self) -> PublishView {
        PublishView {
            dup: self.dup,
            qos: self.qos,
            retain: self.retain,
            topic: self.topic@,
            packet_id: self.packet_id,
            properties: self.properties@,
            payload: self.payload@,
        }
    }
}

impl Publish {
    pub fn duplicate(&self) -> (r: Self)
        ensures
            r@ == self@,
    {
        Publish {
            dup: self.dup,
            qos: self.qos,
            retain: self.retain,
            topic: clone_bytes(&self.topic),
            packet_id: self.packet_id,
            properties: self.properties.duplicate(),
            payload: clone_bytes(&self.payload),
        }
    }
}

/// Properties of a stored last-will message.
#[derive(Debug, PartialEq, Eq)]
pub struct WillProperties {
    pub delay_interval: Option<u32>,
    pub payload_format_indicator: Option<bool>,
    pub message_expiry_interval: Option<u32>,
    pub content_type: Option<Vec<u8>>,
    pub response_topic: Option<Vec<u8>>,
    pub correlation_data: Option<Vec<u8>>,
    pub user_properties: Vec<(Vec<u8>, Vec<u8>)>,
}

#[verifier::ext_equal]
pub ghost struct WillPropertiesView {
    pub delay_interval: Option<u32>,
    pub payload_format_indicator: Option<bool>,
    pub message_expiry_interval: Option<u32>,
    pub content_type: Option<Seq<u8>>,
    pub response_topic: Option<Seq<u8>>,
    pub correlation_data: Option<Seq<u8>>,
    pub user_properties: Seq<(Seq<u8>, Seq<u8>)>,
}

impl View for WillProperties {
    type V = WillPropertiesView;

    open spec fn view(&self) -> WillPropertiesView {
        WillPropertiesView {
            delay_interval: self.delay_interval,
            payload_format_indicator: self.payload_format_indicator,
            message_expiry_interval: self.message_expiry_interval,
            content_type: opt_bytes_view(self.content_type),
            response_topic: opt_bytes_view(self.response_topic),
            correlation_data: opt_bytes_view(self.correlation_data),
            user_properties: pairs_view(self.user_properties@),
        }
    }
}

impl WillProperties {
    pub fn duplicate(&self) -> (r: Self)
        ensures
            r@ == self@,
    {
        WillProperties {
            delay_interval: self.delay_interval,
            payload_format_indicator: self.payload_format_indicator,
            message_expiry_interval: self.message_expiry_interval,
            content_type: clone_opt_bytes(&self.content_type),
            response_topic: clone_opt_bytes(&self.response_topic),
            correlation_data: clone_opt_bytes(&self.correlation_data),
            user_properties: clone_pairs(&self.user_properties),
        }
    }
}

/// A last-will message registered at CONNECT time.
#[derive(Debug, PartialEq, Eq)]
pub struct LastWill {
    pub qos: Qos,
    pub retain: bool,
    pub topic: Vec<u8>,
    pub payload: Vec<u8>,
    pub properties: WillProperties,
}

#[verifier::ext_equal]
pub ghost struct LastWillView {
    pub qos: Qos,
    pub retain: bool,
    pub topic: Seq<u8>,
    pub payload: Seq<u8>,
    pub properties: WillPropertiesView,
}

impl View for LastWill {
    type V = LastWillView;

    open spec fn view(&self) -> LastWillView {
        LastWillView {
            qos: self.qos,
            retain: self.retain,
            topic: self.topic@,
            payload: self.payload@,
            properties: self.properties@,
        }
    }
}

impl LastWill {
    pub fn duplicate(&self) -> (r: Self)
        ensures
            r@ == self@,
    {
        LastWill {
            qos: self.qos,
            retain: self.retain,
            topic: clone_bytes(&self.topic),
            payload: clone_bytes(&self.payload),
            properties: self.properties.duplicate(),
        }
    }
}

pub open spec fn opt_will_view(o: Option<LastWill>) -> Option<LastWillView> {
    match o {
        Some(w) => Some(w@),
        None => None,
    }
}

/// Copy of an optional last will.
pub fn clone_opt_will(v: &Option<LastWill>) -> (r: Option<LastWill>)
    ensures
        opt_will_view(r) == opt_will_view(*v),
{
    match v {
        Some(w) => Some(w.duplicate()),
        None => None,
    }
}

#[derive(Debug, PartialEq, Eq)]
pub struct ConnectProperties {
    pub session_expiry_interval: Option<u32>,
    pub receive_max: Option<u16>,
    pub max_packet_size: Option<u32>,
    pub topic_alias_max: Option<u16>,
}

#[derive(Debug, PartialEq, Eq)]
pub struct Login {
    pub username: Vec<u8>,
    pub password: Vec<u8>,
}

#[derive(Debug, PartialEq, Eq)]
pub struct Connect {
    pub level: ProtocolLevel,
    pub keep_alive: u16,
    pub clean_start: bool,
    pub client_id: Vec<u8>,
    pub last_will: Option<LastWill>,
    pub login: Option<Login>,
    pub properties: ConnectProperties,
}

#[derive(Debug, PartialEq, Eq)]
pub struct ConnAckProperties {
    pub session_expiry_interval: Option<u32>,
    pub receive_max: Option<u16>,
    pub maximum_qos: Option<Qos>,
    pub retain_available: Option<bool>,
    pub max_packet_size: Option<u32>,
    pub assigned_client_identifier: Option<Vec<u8>>,
    pub topic_alias_max: Option<u16>,
    pub wildcard_subscription_available: Option<bool>,
    pub server_keep_alive: Option<u16>,
}

impl ConnAckProperties {
    pub fn empty() -> (r: Self)
        ensures
            r.session_expiry_interval is None,
            r.receive_max is None,
            r.maximum_qos is None,
            r.retain_available is None,
            r.max_packet_size is None,
            r.assigned_client_identifier is None,
            r.topic_alias_max is None,
            r.wildcard_subscription_available is None,
            r.server_keep_alive is None,
    {
        ConnAckProperties {
            session_expiry_interval: None,
            receive_max: None,
            maximum_qos: None,
            retain_available: None,
            max_packet_size: None,
            assigned_client_identifier: None,
            topic_alias_max: None,
            wildcard_subscription_available: None,
            server_keep_alive: None,
        }
    }
}

#[derive(Debug, PartialEq, Eq)]
pub struct ConnAck {
    pub session_present: bool,
    pub reason_code: ConnectReasonCode,
    pub properties: ConnAckProperties,
}

#[derive(Debug, PartialEq, Eq)]
pub struct PubAck {
    pub packet_id: u16,
    pub reason_code: PubAckReasonCode,
}

/// Properties of a PUBREC packet.
#[derive(Debug, PartialEq, Eq)]
pub struct PubRecProperties {
    pub reason_string: Option<Vec<u8>>,
    pub user_properties: Vec<(Vec<u8>, Vec<u8>)>,
}

#[verifier::ext_equal]
pub ghost struct PubRecPropertiesView {
    pub reason_string: Option<Seq<u8>>,
    pub user_properties: Seq<(Seq<u8>, Seq<u8>)>,
}

impl View for PubRecProperties {
    type V = PubRecPropertiesView;

    open spec fn view(&self) -> PubRecPropertiesView {
        PubRecPropertiesView {
            reason_string: opt_bytes_view(self.reason_string),
            user_properties: pairs_view(self.user_properties@),
        }
    }
}

impl PubRecProperties {
    pub fn empty() -> (r: Self)
        ensures
            r@.reason_string is None,
            r@.user_properties == Seq::<(Seq<u8>, Seq<u8>)>::empty(),
    {
        let r = PubRecProperties { reason_string: None, user_properties: Vec::new() };
        proof {
            assert(r@.user_properties =~= Seq::<(Seq<u8>, Seq<u8>)>::empty());
        }
        r
    }
}

#[derive(Debug, PartialEq, Eq)]
pub struct PubRec {
    pub packet_id: u16,
    pub reason_code: PubRecReasonCode,
    pub properties: PubRecProperties,
}

#[verifier::ext_equal]
pub ghost struct PubRecView {
    pub packet_id: u16,
    pub reason_code: PubRecReasonCode,
    pub properties: PubRecPropertiesView,
}

impl View for PubRec {
    type V = PubRecView;

    open spec fn view(&self) -> PubRecView {
        PubRecView {
            packet_id: self.packet_id,
            reason_code: self.reason_code,
            properties: self.properties@,
        }
    }
}

#[derive(Debug, PartialEq, Eq)]
pub struct PubRel {
    pub packet_id: u16,
    pub reason_code: PubRelReasonCode,
}

#[derive(Debug, PartialEq, Eq)]
pub struct PubComp {
    pub packet_id: u16,
    pub reason_code: PubCompReasonCode,
}

#[derive(Debug, PartialEq, Eq)]
pub struct SubscribeFilter {
    pub path: Vec<u8>,
    pub qos: Qos,
    pub no_local: bool,
    pub retain_as_published: bool,
    pub retain_handling: RetainHandling,
}

#[derive(Debug, PartialEq, Eq)]
pub struct SubscribeProperties {
    /// Subscription identifier attached to every filter of this packet.
    pub id: Option<u32>,
}

#[derive(Debug, PartialEq, Eq)]
pub struct Subscribe {
    pub packet_id: u16,
    pub filters: Vec<SubscribeFilter>,
    pub properties: SubscribeProperties,
}

#[derive(Debug, PartialEq, Eq)]
pub struct SubAck {
    pub packet_id: u16,
    pub reason_codes: Vec<SubscribeReasonCode>,
}

#[derive(Debug, PartialEq, Eq)]
pub struct Unsubscribe {
    pub packet_id: u16,
    pub filters: Vec<Vec<u8>>,
}

#[derive(Debug, PartialEq, Eq)]
pub struct UnsubAck {
    pub packet_id: u16,
    pub reason_codes: Vec<UnsubAckReasonCode>,
}

#[derive(Debug, PartialEq, Eq)]
pub struct DisconnectProperties {
    pub session_expiry_interval: Option<u32>,
}

#[derive(Debug, PartialEq, Eq)]
pub struct Disconnect {
    pub reason_code: DisconnectReasonCode,
    pub properties: DisconnectProperties,
}

/// Any MQTT control packet.
#[derive(Debug, PartialEq, Eq)]
pub enum Packet {
    Connect(Connect),
    ConnAck(ConnAck),
    Publish(Publish),
    PubAck(PubAck),
    PubRec(PubRec),
    PubRel(PubRel),
    PubComp(PubComp),
    Subscribe(Subscribe),
    SubAck(SubAck),
    Unsubscribe(Unsubscribe),
    UnsubAck(UnsubAck),
    PingReq,
    PingResp,
    Disconnect(Disconnect),
}

} // verus!
