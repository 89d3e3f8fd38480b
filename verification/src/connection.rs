//! The per-connection protocol state machine. Each handler is a pure
//! decision function: it takes the connection state, the shared storage and
//! one decoded packet, and returns the packets to send back — or the
//! reason code to disconnect with. The surrounding event loop performs the
//! I/O, queries the authentication and ACL plugins, and hands their
//! verdicts in as plain values.

use vstd::prelude::*;

use crate::assoc::{assoc_contains, assoc_get, assoc_insert, assoc_remove, assoc_wf};
use crate::bytes_util::clone_bytes;
use crate::maps::IdMap;
use crate::message::{Message, MessageView, spec_msg_expired, spec_to_publish};
use crate::packets::{
    Connect, Disconnect, DisconnectReasonCode, LastWill, Packet, ProtocolLevel, PubAck,
    PubAckReasonCode, PubComp, PubCompReasonCode, PubRec, PubRecProperties, PubRecReasonCode,
    PubRel, PubRelReasonCode, Publish, PublishView, Qos, RetainHandling, opt_will_view,
};
use crate::storage::{Storage, StorageView, SessionView, session_of, with_session};

verus! {

/// Delivery state of an outbound QoS 2 publish.
#[derive(Clone, Copy, PartialEq, Eq, Structural, Debug)]
pub enum Qos2State {
    Published,
    Recorded,
}

impl View for Qos2State {
    type V = Qos2State;

    open spec fn view(&self) -> Qos2State {
        *self
    }
}

/// Server limits, advertised or enforced during the handshake.
pub struct ServerConfig {
    pub max_session_expiry_interval: u32,
    pub max_keep_alive: u16,
    pub receive_max: u16,
    pub maximum_qos: Qos,
    pub max_packet_size: u32,
    pub retain_available: bool,
    pub wildcard_subscription_available: bool,
    pub max_topic_alias: u16,
}

/// The mutable state of one client connection.
pub struct Connection {
    /// Set once the CONNECT handshake succeeded.
    pub client_id: Option<Vec<u8>>,
    /// The user the authentication plugins attributed, if any.
    pub uid: Option<Vec<u8>>,
    pub protocol_level: ProtocolLevel,
    pub session_expiry_interval: u32,
    /// Inbound QoS 2 flow control (our receive maximum).
    pub receive_in_max: usize,
    pub receive_in_quota: usize,
    /// Outbound flow control (the client's receive maximum).
    pub receive_out_max: usize,
    pub receive_out_quota: usize,
    pub max_topic_alias: u16,
    /// Topic aliases the client established, alias -> topic.
    pub topic_alias: IdMap<Vec<u8>>,
    pub keep_alive: u16,
    pub last_will: Option<LastWill>,
    /// Next outbound packet identifier; never zero.
    pub next_packet_id: u16,
    /// Outbound QoS >= 1 publishes by identifier, driving the
    /// PUBREC/PUBREL/PUBCOMP order.
    pub inflight_qos2_messages: IdMap<Qos2State>,
}

/// The successor of a packet identifier: sequential, skipping zero.
pub open spec fn next_pid(p: u16) -> u16 {
    if p == 0xffff {
        1u16
    } else {
        (p + 1) as u16
    }
}

impl Connection {
    pub open spec fn wf(&self) -> bool {
        &&& self.topic_alias.wf()
        &&& self.inflight_qos2_messages.wf()
        &&& self.next_packet_id != 0
    }

    /// The client identifier, as a byte sequence (meaningful when
    /// connected).
    pub open spec fn cid(&self) -> Seq<u8> {
        self.client_id->Some_0@
    }

    /// A connection before its CONNECT handshake.
    pub fn new() -> (r: Connection)
        ensures
            r.wf(),
            r.client_id is None,
            r.uid is None,
            r.protocol_level == ProtocolLevel::V5,
            r.session_expiry_interval == 0,
            r.next_packet_id == 1,
            r.receive_out_quota == 0,
            r.receive_in_quota == 0,
            r.keep_alive == 60,
            r.last_will is None,
            r.topic_alias@ == Seq::<(u16, Seq<u8>)>::empty(),
            r.inflight_qos2_messages@ == Seq::<(u16, Qos2State)>::empty(),
    {
        Connection {
            client_id: None,
            uid: None,
            protocol_level: ProtocolLevel::V5,
            session_expiry_interval: 0,
            receive_in_max: 0,
            receive_in_quota: 0,
            receive_out_max: 0,
            receive_out_quota: 0,
            max_topic_alias: 0,
            topic_alias: IdMap::new(),
            keep_alive: 60,
            last_will: None,
            next_packet_id: 1,
            inflight_qos2_messages: IdMap::new(),
        }
    }

    /// Allocate the next outbound packet identifier.
    fn take_packet_id(&mut self) -> (r: u16)
        requires
            old(self).next_packet_id != 0,
        ensures
            r == old(self).next_packet_id,
            r != 0,
            *final(self) == (Connection { next_packet_id: next_pid(r), ..*old(self) }),
    {
        let id = self.next_packet_id;
        if self.next_packet_id == 0xffff {
            self.next_packet_id = 1;
        } else {
            self.next_packet_id = self.next_packet_id + 1;
        }
        id
    }

    /// PINGREQ is answered by PINGRESP.
    pub fn handle_ping_req(&self) -> (r: Packet)
        ensures
            r is PingResp,
    {
        Packet::PingResp
    }

    /// A client DISCONNECT: a normal disconnection drops the will; any
    /// other reason keeps it. A session-expiry-interval in the packet
    /// replaces the negotiated one.
    pub fn handle_disconnect(&mut self, disconnect: &Disconnect)
        ensures
            disconnect.reason_code == DisconnectReasonCode::NormalDisconnection ==> final(
                self).last_will is None,
            disconnect.reason_code != DisconnectReasonCode::NormalDisconnection ==> final(
                self).last_will == old(self).last_will,
            final(self).session_expiry_interval == match disconnect.properties
                .session_expiry_interval {
                Some(x) => x,
                None => old(self).session_expiry_interval,
            },
            final(self).client_id == old(self).client_id,
            final(self).receive_out_quota == old(self).receive_out_quota,
            final(self).receive_out_max == old(self).receive_out_max,
    {
        if disconnect.reason_code == DisconnectReasonCode::NormalDisconnection {
            self.last_will = None;
        }
        if let Some(interval) = disconnect.properties.session_expiry_interval {
            self.session_expiry_interval = interval;
        }
    }

    /// The control notice that another connection took this client
    /// identifier over: this connection forgets it and terminates without
    /// touching the session.
    pub fn handle_taken_over(&mut self)
        ensures
            *final(self) == (Connection { client_id: None, ..*old(self) }),
    {
        self.client_id = None;
    }

    /// PUBACK completes a QoS 1 delivery: the acknowledged identifier must
    /// be the front of the in-flight deque (acknowledgments arrive in
    /// transmission order); anything else disconnects with a protocol
    /// error. A completed delivery returns one unit of outbound quota.
    pub fn handle_pub_ack(&mut self, storage: &mut Storage, packet_id: u16) -> (r: Result<
        (),
        DisconnectReasonCode,
    >)
        requires
            old(self).client_id is Some,
            old(storage).wf(),
            assoc_contains(old(storage)@.sessions, old(self).cid()),
            flow_ok(old(self), session_of(old(storage)@, old(self).cid())),
        ensures
            final(storage).wf(),
            ({
                let s = session_of(old(storage)@, old(self).cid());
                let front_ok = s.inflight.len() > 0 && s.inflight[0].packet_id == Some(packet_id);
                &&& r is Ok <==> front_ok
                &&& !front_ok ==> r == Err::<(), DisconnectReasonCode>(
                    DisconnectReasonCode::ProtocolError,
                ) && *final(self) == *old(self) && final(storage)@ == with_session(
                    old(storage)@,
                    old(self).cid(),
                    s,
                )
                &&& front_ok ==> *final(self) == (Connection {
                    receive_out_quota: (old(self).receive_out_quota + 1) as usize,
                    ..*old(self)
                }) && final(storage)@ == with_session(
                    old(storage)@,
                    old(self).cid(),
                    SessionView { inflight: s.inflight.drop_first(), ..s },
                ) && flow_ok(final(self), session_of(final(storage)@, old(self).cid()))
            }),
    {
        let cid = match &self.client_id {
            Some(c) => clone_bytes(c),
            None => {
                proof {
                    assert(false);
                }
                Vec::new()
            },
        };
        match storage.get_inflight_pub_packets(cid.as_slice(), packet_id, true) {
            Some(_) => {
                self.receive_out_quota = self.receive_out_quota + 1;
                proof {
                    crate::assoc::lemma_get_insert_same(
                        old(storage)@.sessions,
                        cid@,
                        SessionView {
                            inflight: session_of(old(storage)@, cid@).inflight.drop_first(),
                            ..session_of(old(storage)@, cid@)
                        },
                    );
                }
                Ok(())
            },
            None => Err(DisconnectReasonCode::ProtocolError),
        }
    }
    /// PUBREC acknowledges the first leg of an outbound QoS 2 delivery:
    /// the identifier must be in state `Published` (else: protocol error)
    /// and moves to `Recorded`. On a success reason the front of the
    /// in-flight deque is answered with PUBREL; a non-success reason ends
    /// the delivery instead, consuming the identifier and returning its
    /// quota.
    pub fn handle_pub_rec(&mut self, storage: &mut Storage, pub_rec: &PubRec) -> (r: Result<
        Vec<Packet>,
        DisconnectReasonCode,
    >)
        requires
            old(self).client_id is Some,
            old(self).wf(),
            old(storage).wf(),
            assoc_contains(old(storage)@.sessions, old(self).cid()),
            flow_ok(old(self), session_of(old(storage)@, old(self).cid())),
        ensures
            final(storage).wf(),
            final(self).wf(),
            same_identity(final(self), old(self)),
            final(self).topic_alias@ == old(self).topic_alias@,
            final(self).next_packet_id == old(self).next_packet_id,
            final(self).receive_in_quota == old(self).receive_in_quota,
            ({
                let pid = pub_rec.packet_id;
                let s = session_of(old(storage)@, old(self).cid());
                let st = assoc_get(old(self).inflight_qos2_messages@, pid);
                let front_ok = s.inflight.len() > 0 && s.inflight[0].packet_id == Some(pid);
                if st != Some(Qos2State::Published) {
                    &&& r == Err::<Vec<Packet>, DisconnectReasonCode>(
                        DisconnectReasonCode::ProtocolError,
                    )
                    &&& *final(storage) == *old(storage)
                    &&& *final(self) == *old(self)
                } else if !pub_rec.reason_code.spec_is_success() {
                    &&& final(self).inflight_qos2_messages@ == if front_ok {
                        assoc_remove(old(self).inflight_qos2_messages@, pid)
                    } else {
                        assoc_insert(old(self).inflight_qos2_messages@, pid, Qos2State::Recorded)
                    }
                    &&& if front_ok {
                        &&& r matches Ok(v) && v@.len() == 0
                        &&& final(self).receive_out_quota == old(self).receive_out_quota + 1
                        &&& final(storage)@ == with_session(
                            old(storage)@,
                            old(self).cid(),
                            SessionView { inflight: s.inflight.drop_first(), ..s },
                        )
                        &&& flow_ok(final(self), session_of(final(storage)@, old(self).cid()))
                    } else {
                        &&& r == Err::<Vec<Packet>, DisconnectReasonCode>(
                            DisconnectReasonCode::ProtocolError,
                        )
                        &&& final(self).receive_out_quota == old(self).receive_out_quota
                        &&& final(storage)@ == with_session(old(storage)@, old(self).cid(), s)
                    }
                } else {
                    &&& final(self).inflight_qos2_messages@ == assoc_insert(
                        old(self).inflight_qos2_messages@,
                        pid,
                        Qos2State::Recorded,
                    )
                    &&& final(self).receive_out_quota == old(self).receive_out_quota
                    &&& final(storage)@ == with_session(old(storage)@, old(self).cid(), s)
                    &&& if front_ok {
                        r matches Ok(v) && v@.len() == 1 && (v@[0] matches Packet::PubRel(pr)
                            && pr.packet_id == pid && pr.reason_code == PubRelReasonCode::Success)
                    } else if old(self).protocol_level == ProtocolLevel::V5 {
                        r matches Ok(v) && v@.len() == 1 && (v@[0] matches Packet::PubRel(pr)
                            && pr.packet_id == pid && pr.reason_code
                            == PubRelReasonCode::PacketIdentifierNotFound)
                    } else {
                        r == Err::<Vec<Packet>, DisconnectReasonCode>(
                            DisconnectReasonCode::ProtocolError,
                        )
                    }
                }
            }),
    {
        let cid = match &self.client_id {
            Some(c) => clone_bytes(c),
            None => {
                proof {
                    assert(false);
                }
                Vec::new()
            },
        };
        let pid = pub_rec.packet_id;
        let published = match self.inflight_qos2_messages.get(pid) {
            Some(st) => *st == Qos2State::Published,
            None => false,
        };
        if !published {
            return Err(DisconnectReasonCode::ProtocolError);
        }
        self.inflight_qos2_messages.insert(pid, Qos2State::Recorded);
        let ghost s = session_of(old(storage)@, cid@);
        if !pub_rec.reason_code.is_success() {
            match storage.get_inflight_pub_packets(cid.as_slice(), pid, true) {
                Some(_) => {
                    self.inflight_qos2_messages.remove(pid);
                    self.receive_out_quota = self.receive_out_quota + 1;
                    proof {
                        crate::assoc::lemma_remove_insert(
                            old(self).inflight_qos2_messages@,
                            pid,
                            Qos2State::Recorded,
                        );
                        crate::assoc::lemma_insert_wf(
                            old(self).inflight_qos2_messages@,
                            pid,
                            Qos2State::Recorded,
                        );
                        crate::assoc::lemma_remove_wf(
                            assoc_insert(
                                old(self).inflight_qos2_messages@,
                                pid,
                                Qos2State::Recorded,
                            ),
                            pid,
                        );
                        crate::assoc::lemma_get_insert_same(
                            old(storage)@.sessions,
                            cid@,
                            SessionView { inflight: s.inflight.drop_first(), ..s },
                        );
                    }
                    Ok(Vec::new())
                },
                None => {
                    proof {
                        crate::assoc::lemma_insert_wf(
                            old(self).inflight_qos2_messages@,
                            pid,
                            Qos2State::Recorded,
                        );
                    }
                    Err(DisconnectReasonCode::ProtocolError)
                },
            }
        } else {
            proof {
                crate::assoc::lemma_insert_wf(
                    old(self).inflight_qos2_messages@,
                    pid,
                    Qos2State::Recorded,
                );
            }
            match storage.get_inflight_pub_packets(cid.as_slice(), pid, false) {
                Some(_) => {
                    let mut out: Vec<Packet> = Vec::new();
                    out.push(
                        Packet::PubRel(
                            PubRel { packet_id: pid, reason_code: PubRelReasonCode::Success },
                        ),
                    );
                    Ok(out)
                },
                None => {
                    if self.protocol_level == ProtocolLevel::V5 {
                        let mut out: Vec<Packet> = Vec::new();
                        out.push(
                            Packet::PubRel(
                                PubRel {
                                    packet_id: pid,
                                    reason_code: PubRelReasonCode::PacketIdentifierNotFound,
                                },
                            ),
                        );
                        Ok(out)
                    } else {
                        Err(DisconnectReasonCode::ProtocolError)
                    }
                },
            }
        }
    }

    /// PUBREL completes an inbound QoS 2 publish: the stored uncompleted
    /// message is released and routed, PUBCOMP is sent and one unit of
    /// inbound quota returns. An unknown identifier is answered with
    /// PUBCOMP (packet identifier not found) on v5 and disconnects on
    /// v3.1.1.
    pub fn handle_pub_rel(&mut self, storage: &mut Storage, pub_rel: &PubRel, now: u64) -> (r:
        Result<Vec<Packet>, DisconnectReasonCode>)
        requires
            old(self).client_id is Some,
            old(self).wf(),
            old(storage).wf(),
            assoc_contains(old(storage)@.sessions, old(self).cid()),
        ensures
            final(storage).wf(),
            final(self).wf(),
            same_identity(final(self), old(self)),
            final(self).topic_alias@ == old(self).topic_alias@,
            final(self).next_packet_id == old(self).next_packet_id,
            final(self).receive_out_quota == old(self).receive_out_quota,
            final(self).inflight_qos2_messages@ == old(self).inflight_qos2_messages@,
            ({
                let pid = pub_rel.packet_id;
                let s = session_of(old(storage)@, old(self).cid());
                let got = assoc_get(s.uncompleted, pid);
                let mid = with_session(
                    old(storage)@,
                    old(self).cid(),
                    SessionView { uncompleted: assoc_remove(s.uncompleted, pid), ..s },
                );
                match got {
                    Some(msg) => {
                        if !pub_rel.reason_code.spec_is_success() {
                            &&& r matches Ok(v) && v@.len() == 0
                            &&& final(storage)@ == mid
                            &&& final(self).receive_in_quota == old(self).receive_in_quota
                        } else {
                            &&& r matches Ok(v) && v@.len() == 1 && (v@[0] matches Packet::PubComp(
                                pc,
                            ) && pc.packet_id == pid && pc.reason_code
                                == PubCompReasonCode::Success)
                            &&& crate::storage::publish_rel(mid, final(storage)@, msg, now)
                            &&& final(self).receive_in_quota == if old(self).receive_in_quota
                                < old(self).receive_in_max {
                                old(self).receive_in_quota + 1
                            } else {
                                old(self).receive_in_quota as int
                            }
                        }
                    },
                    None => {
                        &&& final(storage)@ == mid
                        &&& final(self).receive_in_quota == old(self).receive_in_quota
                        &&& if old(self).protocol_level == ProtocolLevel::V5 {
                            r matches Ok(v) && v@.len() == 1 && (v@[0] matches Packet::PubComp(pc)
                                && pc.packet_id == pid && pc.reason_code
                                == PubCompReasonCode::PacketIdentifierNotFound)
                        } else {
                            r == Err::<Vec<Packet>, DisconnectReasonCode>(
                                DisconnectReasonCode::ProtocolError,
                            )
                        }
                    },
                }
            }),
    {
        let cid = match &self.client_id {
            Some(c) => clone_bytes(c),
            None => {
                proof {
                    assert(false);
                }
                Vec::new()
            },
        };
        let pid = pub_rel.packet_id;
        match storage.remove_uncompleted_message(cid.as_slice(), pid) {
            Some(msg) => {
                if !pub_rel.reason_code.is_success() {
                    return Ok(Vec::new());
                }
                storage.publish_one(&msg, now);
                if self.receive_in_quota < self.receive_in_max {
                    self.receive_in_quota = self.receive_in_quota + 1;
                }
                let mut out: Vec<Packet> = Vec::new();
                out.push(
                    Packet::PubComp(
                        PubComp { packet_id: pid, reason_code: PubCompReasonCode::Success },
                    ),
                );
                Ok(out)
            },
            None => {
                if self.protocol_level == ProtocolLevel::V5 {
                    let mut out: Vec<Packet> = Vec::new();
                    out.push(
                        Packet::PubComp(
                            PubComp {
                                packet_id: pid,
                                reason_code: PubCompReasonCode::PacketIdentifierNotFound,
                            },
                        ),
                    );
                    Ok(out)
                } else {
                    Err(DisconnectReasonCode::ProtocolError)
                }
            },
        }
    }

    /// PUBCOMP ends an outbound QoS 2 delivery: the identifier must be in
    /// state `Recorded` (else: protocol error) and is forgotten; if it is
    /// the front of the in-flight deque the delivery is complete and one
    /// unit of outbound quota returns. The caller then refills the
    /// outbound pipeline with `handle_notified`.
    pub fn handle_pub_comp(&mut self, storage: &mut Storage, packet_id: u16) -> (r: Result<
        (),
        DisconnectReasonCode,
    >)
        requires
            old(self).client_id is Some,
            old(self).wf(),
            old(storage).wf(),
            assoc_contains(old(storage)@.sessions, old(self).cid()),
            flow_ok(old(self), session_of(old(storage)@, old(self).cid())),
        ensures
            final(storage).wf(),
            final(self).wf(),
            same_identity(final(self), old(self)),
            final(self).topic_alias@ == old(self).topic_alias@,
            final(self).next_packet_id == old(self).next_packet_id,
            final(self).receive_in_quota == old(self).receive_in_quota,
            ({
                let s = session_of(old(storage)@, old(self).cid());
                let st = assoc_get(old(self).inflight_qos2_messages@, packet_id);
                let front_ok = s.inflight.len() > 0 && s.inflight[0].packet_id == Some(packet_id);
                if st != Some(Qos2State::Recorded) {
                    &&& r == Err::<(), DisconnectReasonCode>(DisconnectReasonCode::ProtocolError)
                    &&& *final(storage) == *old(storage)
                    &&& *final(self) == *old(self)
                } else {
                    &&& r is Ok
                    &&& final(self).inflight_qos2_messages@ == assoc_remove(
                        old(self).inflight_qos2_messages@,
                        packet_id,
                    )
                    &&& if front_ok {
                        &&& final(self).receive_out_quota == old(self).receive_out_quota + 1
                        &&& final(storage)@ == with_session(
                            old(storage)@,
                            old(self).cid(),
                            SessionView { inflight: s.inflight.drop_first(), ..s },
                        )
                        &&& flow_ok(final(self), session_of(final(storage)@, old(self).cid()))
                    } else {
                        &&& final(self).receive_out_quota == old(self).receive_out_quota
                        &&& final(storage)@ == with_session(old(storage)@, old(self).cid(), s)
                    }
                }
            }),
    {
        let cid = match &self.client_id {
            Some(c) => clone_bytes(c),
            None => {
                proof {
                    assert(false);
                }
                Vec::new()
            },
        };
        let recorded = match self.inflight_qos2_messages.get(packet_id) {
            Some(st) => *st == Qos2State::Recorded,
            None => false,
        };
        if !recorded {
            return Err(DisconnectReasonCode::ProtocolError);
        }
        self.inflight_qos2_messages.remove(packet_id);
        proof {
            crate::assoc::lemma_remove_wf(old(self).inflight_qos2_messages@, packet_id);
        }
        match storage.get_inflight_pub_packets(cid.as_slice(), packet_id, true) {
            Some(_) => {
                self.receive_out_quota = self.receive_out_quota + 1;
                proof {
                    crate::assoc::lemma_get_insert_same(
                        old(storage)@.sessions,
                        cid@,
                        SessionView {
                            inflight: session_of(old(storage)@, cid@).inflight.drop_first(),
                            ..session_of(old(storage)@, cid@)
                        },
                    );
                }
                Ok(())
            },
            None => Ok(()),
        }
    }
}

impl Connection {
    /// Pull up to `receive_out_quota` messages from the session queue and
    /// dispatch them: expired ones are dropped, QoS 0 ones sent directly,
    /// QoS >= 1 ones get a packet identifier, consume quota and go in
    /// flight as `Published`. The pulled messages are consumed from the
    /// queue; the returned publishes are what the caller sends.
    pub fn handle_notified(&mut self, storage: &mut Storage, now: u64) -> (r: Vec<Packet>)
        requires
            old(self).client_id is Some,
            old(self).wf(),
            old(storage).wf(),
            assoc_contains(old(storage)@.sessions, old(self).cid()),
        ensures
            final(storage).wf(),
            final(self).wf(),
            same_identity(final(self), old(self)),
            final(self).topic_alias@ == old(self).topic_alias@,
            final(self).receive_in_quota == old(self).receive_in_quota,
            ({
                let s = session_of(old(storage)@, old(self).cid());
                let k: int = if old(self).receive_out_quota <= s.queue.len() {
                    old(self).receive_out_quota as int
                } else {
                    s.queue.len() as int
                };
                let d = dispatch(
                    s.queue.take(k),
                    now,
                    dispatch_init(
                        old(self).receive_out_quota as int,
                        old(self).next_packet_id,
                        old(self).inflight_qos2_messages@,
                    ),
                );
                &&& final(self).receive_out_quota == d.quota
                &&& final(self).next_packet_id == d.pid
                &&& final(self).inflight_qos2_messages@ == d.qos2
                &&& final(storage)@ == with_session(
                    old(storage)@,
                    old(self).cid(),
                    SessionView {
                        queue: s.queue.skip(k),
                        inflight: s.inflight + d.inflight_add,
                        ..s
                    },
                )
                &&& r@.len() == d.out.len()
                &&& forall|i: int| 0 <= i < r@.len() ==> ((#[trigger] r@[i]) matches
                    Packet::Publish(p) && p@ == d.out[i])
            }),
    {
        let cid = match &self.client_id {
            Some(c) => clone_bytes(c),
            None => {
                proof {
                    assert(false);
                }
                Vec::new()
            },
        };
        let ghost old_storage = storage@;
        let ghost s = session_of(old_storage, cid@);
        let quota0 = self.receive_out_quota;
        let msgs = storage.next_messages(cid.as_slice(), Some(quota0));
        let ghost pulled = crate::storage::msg_views(msgs@);
        let ghost init = dispatch_init(
            quota0 as int,
            self.next_packet_id,
            self.inflight_qos2_messages@,
        );
        let ghost k: int = if quota0 <= s.queue.len() {
            quota0 as int
        } else {
            s.queue.len() as int
        };
        proof {
            assert(pulled == s.queue.take(k));
            assert(pulled.len() == k);
            crate::assoc::lemma_get_some_iff_contains(old_storage.sessions, cid@);
            crate::assoc::lemma_insert_same_value(old_storage.sessions, cid@, s);
            assert(s.inflight + Seq::<PublishView>::empty() =~= s.inflight);
            assert(pulled.take(0) =~= Seq::<MessageView>::empty());
            assert(storage@ =~= with_session(
                old_storage,
                cid@,
                SessionView { inflight: s.inflight + Seq::empty(), ..s },
            ));
        }
        let mut out: Vec<Packet> = Vec::new();
        let mut i: usize = 0;
        while i < msgs.len()
            invariant
                i <= msgs@.len(),
                msgs@.len() == k,
                k <= quota0,
                pulled == crate::storage::msg_views(msgs@),
                pulled == s.queue.take(k),
                cid@ == old(self).cid(),
                s == session_of(old_storage, cid@),
                assoc_contains(old_storage.sessions, cid@),
                crate::storage::storage_wf(old_storage),
                init == dispatch_init(
                    quota0 as int,
                    old(self).next_packet_id,
                    old(self).inflight_qos2_messages@,
                ),
                quota0 == old(self).receive_out_quota,
                old(self).wf(),
                same_identity(&*self, old(self)),
                self.topic_alias@ == old(self).topic_alias@,
                self.receive_in_quota == old(self).receive_in_quota,
                self.topic_alias.wf(),
                self.inflight_qos2_messages.wf(),
                self.next_packet_id != 0,
                storage.wf(),
                ({
                    let d = dispatch(pulled.take(i as int), now, init);
                    &&& self.receive_out_quota == d.quota
                    &&& self.next_packet_id == d.pid
                    &&& self.inflight_qos2_messages@ == d.qos2
                    &&& storage@ == with_session(
                        old_storage,
                        cid@,
                        SessionView { inflight: s.inflight + d.inflight_add, ..s },
                    )
                    &&& out@.len() == d.out.len()
                    &&& forall|x: int| 0 <= x < out@.len() ==> ((#[trigger] out@[x]) matches
                        Packet::Publish(p) && p@ == d.out[x])
                    &&& d.quota >= quota0 - i
                }),
            decreases msgs@.len() - i,
        {
            let ghost dpre = dispatch(pulled.take(i as int), now, init);
            let ghost sv_pre = SessionView { inflight: s.inflight + dpre.inflight_add, ..s };
            proof {
                assert(pulled.take(i + 1).drop_last() =~= pulled.take(i as int));
                assert(pulled.take(i + 1).last() == pulled[i as int]);
                assert(msgs@[i as int]@ == pulled[i as int]);
            }
            let m = &msgs[i];
            match m.to_publish_and_update_expiry_interval(now) {
                None => {
                    proof {
                        assert(dispatch(pulled.take(i + 1), now, init) == dpre);
                    }
                },
                Some(p) => {
                    let is_qos0 = match p.qos {
                        Qos::AtMostOnce => true,
                        _ => false,
                    };
                    if is_qos0 {
                        out.push(Packet::Publish(p));
                        proof {
                            let d2 = dispatch(pulled.take(i + 1), now, init);
                            assert(d2 == (DispatchView {
                                out: dpre.out.push(spec_to_publish(pulled[i as int], now)),
                                ..dpre
                            }));
                        }
                    } else {
                        let pid = self.take_packet_id();
                        let mut p2 = p;
                        p2.packet_id = Some(pid);
                        self.receive_out_quota = self.receive_out_quota - 1;
                        proof {
                            crate::assoc::lemma_get_insert_same(
                                old_storage.sessions,
                                cid@,
                                sv_pre,
                            );
                            crate::assoc::lemma_get_some_iff_contains(
                                assoc_insert(old_storage.sessions, cid@, sv_pre),
                                cid@,
                            );
                        }
                        storage.add_inflight_pub_packet(cid.as_slice(), p2.duplicate());
                        self.inflight_qos2_messages.insert(pid, Qos2State::Published);
                        proof {
                            crate::assoc::lemma_insert_wf(dpre.qos2, pid, Qos2State::Published);
                            crate::assoc::lemma_get_insert_same(
                                old_storage.sessions,
                                cid@,
                                sv_pre,
                            );
                            crate::assoc::lemma_insert_insert(
                                old_storage.sessions,
                                cid@,
                                sv_pre,
                                SessionView {
                                    inflight: sv_pre.inflight.push(p2@),
                                    ..sv_pre
                                },
                            );
                            assert(s.inflight + dpre.inflight_add.push(p2@) =~= (s.inflight
                                + dpre.inflight_add).push(p2@));
                            let d2 = dispatch(pulled.take(i + 1), now, init);
                            assert(p2@ == (PublishView {
                                packet_id: Some(dpre.pid),
                                ..spec_to_publish(pulled[i as int], now)
                            }));
                            assert(d2 == (DispatchView {
                                out: dpre.out.push(p2@),
                                quota: dpre.quota - 1,
                                pid: next_pid(dpre.pid),
                                inflight_add: dpre.inflight_add.push(p2@),
                                qos2: assoc_insert(dpre.qos2, dpre.pid, Qos2State::Published),
                            }));
                        }
                        out.push(Packet::Publish(p2));
                    }
                },
            }
            i += 1;
        }
        proof {
            assert(pulled.take(msgs@.len() as int) =~= pulled);
        }
        let ghost dfin = dispatch(pulled, now, init);
        let ghost sv_fin = SessionView { inflight: s.inflight + dfin.inflight_add, ..s };
        proof {
            crate::assoc::lemma_get_insert_same(old_storage.sessions, cid@, sv_fin);
            crate::assoc::lemma_get_some_iff_contains(
                assoc_insert(old_storage.sessions, cid@, sv_fin),
                cid@,
            );
        }
        storage.consume_messages(cid.as_slice(), msgs.len());
        proof {
            crate::assoc::lemma_get_insert_same(old_storage.sessions, cid@, sv_fin);
            crate::assoc::lemma_insert_insert(
                old_storage.sessions,
                cid@,
                sv_fin,
                SessionView { queue: sv_fin.queue.skip(k), ..sv_fin },
            );
            assert(storage@ =~= with_session(
                old_storage,
                cid@,
                SessionView {
                    queue: s.queue.skip(k),
                    inflight: s.inflight + dfin.inflight_add,
                    ..s
                },
            ));
        }
        out
    }
}

/// Relies on core::str::from_utf8: it succeeds exactly on well-formed
/// UTF-8 input, which vstd's `valid_utf8` characterizes.
#[verifier::external_body]
fn is_valid_utf8(bytes: &[u8]) -> (r: bool)
    ensures
        r == vstd::utf8::valid_utf8(bytes@),
{
    core::str::from_utf8(bytes).is_ok()
}

/// Outcome of validating a PUBLISH: the resolved topic and the alias
/// table afterwards.
#[verifier::ext_equal]
pub ghost struct PublishCheck {
    pub topic: Seq<u8>,
    pub aliases: Seq<(u16, Seq<u8>)>,
}

/// The validation chain for an inbound PUBLISH, in order: a connection
/// must exist; a topic alias of zero or above the server maximum is
/// invalid; an empty topic needs an alias; QoS >= 1 needs a non-zero
/// packet identifier; subscription identifiers are server-reserved; the
/// topic must not be server-internal (`$...`) and must be a valid name;
/// retain needs to be available; a UTF-8 payload-format indicator demands
/// UTF-8. Then the topic is resolved: a provided topic (re)binds its
/// alias, a bare alias looks its topic up.
pub open spec fn publish_check(
    connected: bool,
    aliases: Seq<(u16, Seq<u8>)>,
    p: PublishView,
    max_alias: u16,
    retain_available: bool,
) -> Result<PublishCheck, DisconnectReasonCode> {
    if !connected {
        Err(DisconnectReasonCode::ProtocolError)
    } else if match p.properties.topic_alias {
        Some(a) => a == 0 || a > max_alias,
        None => false,
    } {
        Err(DisconnectReasonCode::TopicAliasInvalid)
    } else if p.topic.len() == 0 && p.properties.topic_alias is None {
        Err(DisconnectReasonCode::ProtocolError)
    } else if p.qos != Qos::AtMostOnce && (p.packet_id is None || p.packet_id == Some(0u16)) {
        Err(DisconnectReasonCode::ProtocolError)
    } else if p.properties.subscription_identifiers.len() != 0 {
        Err(DisconnectReasonCode::ProtocolError)
    } else if p.topic.len() > 0 && p.topic[0] == crate::topic::DOLLAR {
        Err(DisconnectReasonCode::TopicNameInvalid)
    } else if p.topic.len() > 0 && !crate::topic::valid_topic_name(p.topic) {
        Err(DisconnectReasonCode::TopicNameInvalid)
    } else if p.retain && !retain_available {
        Err(DisconnectReasonCode::RetainNotSupported)
    } else if p.properties.payload_format_indicator == Some(true) && !vstd::utf8::valid_utf8(
        p.payload,
    ) {
        Err(DisconnectReasonCode::PayloadFormatInvalid)
    } else {
        match p.properties.topic_alias {
            Some(a) => {
                if p.topic.len() > 0 {
                    Ok(PublishCheck { topic: p.topic, aliases: assoc_insert(aliases, a, p.topic) })
                } else {
                    match assoc_get(aliases, a) {
                        Some(t) => Ok(PublishCheck { topic: t, aliases }),
                        None => Err(DisconnectReasonCode::ProtocolError),
                    }
                }
            },
            None => Ok(PublishCheck { topic: p.topic, aliases }),
        }
    }
}

/// The stored message an accepted PUBLISH becomes: topic resolved, alias
/// dropped, origin stamped, expiry derived at ingest time.
pub open spec fn ingest_view(
    p: PublishView,
    cid: Seq<u8>,
    uid: Option<Seq<u8>>,
    now: u64,
) -> MessageView {
    MessageView {
        topic: p.topic,
        qos: p.qos,
        payload: p.payload,
        retain: p.retain,
        properties: crate::packets::PublishPropertiesView { topic_alias: None, ..p.properties },
        from_client_id: Some(cid),
        from_uid: uid,
        expire_at: crate::message::spec_deadline(p.properties.message_expiry_interval, now),
    }
}

/// The store after a retained-message update for `topic`.
pub open spec fn retained_after(v: StorageView, topic: Seq<u8>, m: MessageView) -> StorageView {
    StorageView {
        retained: if m.payload.len() == 0 {
            assoc_remove(v.retained, topic)
        } else {
            assoc_insert(v.retained, topic, m)
        },
        ..v
    }
}

/// The topic a publish is routed under once the server's rewrite rules
/// ran: the replacement of the first rule whose pattern equals the topic,
/// or the topic unchanged when none does.
pub open spec fn spec_rewrite(rules: Seq<(Seq<u8>, Seq<u8>)>, topic: Seq<u8>) -> Seq<u8>
    decreases rules.len(),
{
    if rules.len() == 0 {
        topic
    } else if rules[0].0 == topic {
        rules[0].1
    } else {
        spec_rewrite(rules.drop_first(), topic)
    }
}

/// Apply the server's configured topic-rewrite rules to a validated
/// publish topic; the event loop runs this between `publish_validate`
/// and `publish_apply`. A rule applies when its pattern equals the topic
/// exactly; the first applicable rule wins.
pub fn rewrite_topic(rules: &Vec<(Vec<u8>, Vec<u8>)>, topic: &Vec<u8>) -> (r: Vec<u8>)
    ensures
        r@ == spec_rewrite(crate::bytes_util::pairs_view(rules@), topic@),
{
    let ghost rv = crate::bytes_util::pairs_view(rules@);
    let mut i: usize = 0;
    proof {
        assert(rv.skip(0) =~= rv);
    }
    while i < rules.len()
        invariant
            i <= rv.len(),
            rv == crate::bytes_util::pairs_view(rules@),
            spec_rewrite(rv, topic@) == spec_rewrite(rv.skip(i as int), topic@),
        decreases rv.len() - i,
    {
        proof {
            assert(rv.skip(i as int)[0] == rv[i as int]);
            assert(rv.skip(i as int).drop_first() =~= rv.skip(i + 1));
        }
        if crate::bytes_util::bytes_eq(rules[i].0.as_slice(), topic.as_slice()) {
            return clone_bytes(&rules[i].1);
        }
        i += 1;
    }
    proof {
        assert(rv.skip(rv.len() as int).len() == 0);
    }
    clone_bytes(topic)
}

impl Connection {
    /// Validate an inbound PUBLISH and resolve its topic alias; per
    /// `publish_check`. A validation failure is answered by disconnecting
    /// with its reason code.
    pub fn publish_validate(&mut self, publish: Publish, config: &ServerConfig) -> (r: Result<
        Publish,
        DisconnectReasonCode,
    >)
        requires
            old(self).wf(),
        ensures
            final(self).wf(),
            same_identity(final(self), old(self)),
            final(self).receive_out_quota == old(self).receive_out_quota,
            final(self).receive_in_quota == old(self).receive_in_quota,
            final(self).next_packet_id == old(self).next_packet_id,
            final(self).inflight_qos2_messages@ == old(self).inflight_qos2_messages@,
            ({
                let chk = publish_check(
                    old(self).client_id is Some,
                    old(self).topic_alias@,
                    publish@,
                    config.max_topic_alias,
                    config.retain_available,
                );
                match r {
                    Ok(p2) => {
                        &&& chk matches Ok(c) && p2@ == (PublishView { topic: c.topic, ..publish@ })
                            && final(self).topic_alias@ == c.aliases
                    },
                    Err(e) => chk == Err::<PublishCheck, DisconnectReasonCode>(e) && final(
                        self).topic_alias@ == old(self).topic_alias@,
                }
            }),
    {
        if self.client_id.is_none() {
            return Err(DisconnectReasonCode::ProtocolError);
        }
        match publish.properties.topic_alias {
            Some(a) => {
                if a == 0 || a > config.max_topic_alias {
                    return Err(DisconnectReasonCode::TopicAliasInvalid);
                }
            },
            None => {
            },
        }
        if publish.topic.len() == 0 && publish.properties.topic_alias.is_none() {
            return Err(DisconnectReasonCode::ProtocolError);
        }
        let qos0 = match publish.qos {
            Qos::AtMostOnce => true,
            _ => false,
        };
        if !qos0 {
            match publish.packet_id {
                Some(pid) => {
                    if pid == 0 {
                        return Err(DisconnectReasonCode::ProtocolError);
                    }
                },
                None => {
                    return Err(DisconnectReasonCode::ProtocolError);
                },
            }
        }
        if publish.properties.subscription_identifiers.len() != 0 {
            return Err(DisconnectReasonCode::ProtocolError);
        }
        if publish.topic.len() > 0 && publish.topic[0] == crate::topic::DOLLAR {
            return Err(DisconnectReasonCode::TopicNameInvalid);
        }
        if publish.topic.len() > 0 && !crate::topic::valid_topic(publish.topic.as_slice()) {
            return Err(DisconnectReasonCode::TopicNameInvalid);
        }
        if publish.retain && !config.retain_available {
            return Err(DisconnectReasonCode::RetainNotSupported);
        }
        if publish.properties.payload_format_indicator == Some(true) && !is_valid_utf8(
            publish.payload.as_slice(),
        ) {
            return Err(DisconnectReasonCode::PayloadFormatInvalid);
        }
        match publish.properties.topic_alias {
            Some(a) => {
                if publish.topic.len() > 0 {
                    self.topic_alias.insert(a, clone_bytes(&publish.topic));
                    proof {
                        crate::assoc::lemma_insert_wf(old(self).topic_alias@, a, publish@.topic);
                    }
                    Ok(publish)
                } else {
                    match self.topic_alias.get(a) {
                        Some(t) => {
                            let topic = clone_bytes(t);
                            let p2 = Publish { topic, ..publish };
                            Ok(p2)
                        },
                        None => Err(DisconnectReasonCode::ProtocolError),
                    }
                }
            },
            None => Ok(publish),
        }
    }

    /// Act on a validated PUBLISH: the ACL verdict (queried by the caller)
    /// gates everything; the message is stamped with its origin; a retain
    /// flag updates the retained store (an empty payload deletes); QoS 0
    /// and 1 route at once (QoS 1 is acknowledged with PUBACK); QoS 2 is
    /// held back under its packet identifier until PUBREL, bounded by the
    /// inbound quota, and a duplicate identifier is refused.
    pub fn publish_apply(
        &mut self,
        storage: &mut Storage,
        publish: Publish,
        acl_allowed: bool,
        now: u64,
    ) -> (r: Result<Vec<Packet>, DisconnectReasonCode>)
        requires
            old(self).client_id is Some,
            old(self).wf(),
            old(storage).wf(),
            assoc_contains(old(storage)@.sessions, old(self).cid()),
            publish@.qos != Qos::AtMostOnce ==> publish@.packet_id is Some,
        ensures
            final(storage).wf(),
            final(self).wf(),
            same_identity(final(self), old(self)),
            final(self).topic_alias@ == old(self).topic_alias@,
            final(self).next_packet_id == old(self).next_packet_id,
            final(self).receive_out_quota == old(self).receive_out_quota,
            final(self).inflight_qos2_messages@ == old(self).inflight_qos2_messages@,
            ({
                let cid = old(self).cid();
                let m = ingest_view(
                    publish@,
                    cid,
                    crate::bytes_util::opt_bytes_view(old(self).uid),
                    now,
                );
                let st1 = if publish@.retain {
                    retained_after(old(storage)@, publish@.topic, m)
                } else {
                    old(storage)@
                };
                if !acl_allowed {
                    &&& r == Err::<Vec<Packet>, DisconnectReasonCode>(
                        DisconnectReasonCode::NotAuthorized,
                    )
                    &&& *final(storage) == *old(storage)
                    &&& final(self).receive_in_quota == old(self).receive_in_quota
                } else if publish@.qos == Qos::AtMostOnce {
                    &&& r matches Ok(v) && v@.len() == 0
                    &&& crate::storage::publish_rel(st1, final(storage)@, m, now)
                    &&& final(self).receive_in_quota == old(self).receive_in_quota
                } else if publish@.qos == Qos::AtLeastOnce {
                    &&& r matches Ok(v) && v@.len() == 1 && (v@[0] matches Packet::PubAck(pa)
                        && pa.packet_id == publish@.packet_id->Some_0 && pa.reason_code
                        == PubAckReasonCode::Success)
                    &&& crate::storage::publish_rel(st1, final(storage)@, m, now)
                    &&& final(self).receive_in_quota == old(self).receive_in_quota
                } else {
                    let s1 = session_of(st1, cid);
                    let pid = publish@.packet_id->Some_0;
                    if old(self).receive_in_quota == 0 {
                        &&& r == Err::<Vec<Packet>, DisconnectReasonCode>(
                            DisconnectReasonCode::ReceiveMaximumExceeded,
                        )
                        &&& final(storage)@ == st1
                        &&& final(self).receive_in_quota == old(self).receive_in_quota
                    } else if assoc_contains(s1.uncompleted, pid) {
                        &&& final(storage)@ == with_session(st1, cid, s1)
                        &&& final(self).receive_in_quota == old(self).receive_in_quota
                        &&& if old(self).protocol_level == ProtocolLevel::V5 {
                            r matches Ok(v) && v@.len() == 1 && (v@[0] matches Packet::PubRec(pr)
                                && pr.packet_id == pid && pr.reason_code
                                == PubRecReasonCode::PacketIdentifierInUse)
                        } else {
                            r == Err::<Vec<Packet>, DisconnectReasonCode>(
                                DisconnectReasonCode::ProtocolError,
                            )
                        }
                    } else {
                        &&& r matches Ok(v) && v@.len() == 1 && (v@[0] matches Packet::PubRec(pr)
                            && pr.packet_id == pid && pr.reason_code == PubRecReasonCode::Success)
                        &&& final(storage)@ == with_session(
                            st1,
                            cid,
                            SessionView { uncompleted: assoc_insert(s1.uncompleted, pid, m), ..s1 },
                        )
                        &&& final(self).receive_in_quota == old(self).receive_in_quota - 1
                    }
                }
            }),
    {
        let cid = match &self.client_id {
            Some(c) => clone_bytes(c),
            None => {
                proof {
                    assert(false);
                }
                Vec::new()
            },
        };
        if !acl_allowed {
            return Err(DisconnectReasonCode::NotAuthorized);
        }
        let mut msg = Message::from_publish(&publish, now);
        msg.set_origin(clone_bytes(&cid), crate::bytes_util::clone_opt_bytes(&self.uid));
        let ghost m = msg@;
        proof {
            assert(m =~= ingest_view(
                publish@,
                cid@,
                crate::bytes_util::opt_bytes_view(old(self).uid),
                now,
            ));
        }
        if publish.retain {
            storage.update_retained_message(publish.topic.as_slice(), msg.duplicate());
        }
        let ghost st1 = storage@;
        match publish.qos {
            Qos::AtMostOnce => {
                storage.publish_one(&msg, now);
                Ok(Vec::new())
            },
            Qos::AtLeastOnce => {
                let pid = match publish.packet_id {
                    Some(p) => p,
                    None => {
                        proof {
                            assert(false);
                        }
                        0
                    },
                };
                storage.publish_one(&msg, now);
                let mut out: Vec<Packet> = Vec::new();
                out.push(
                    Packet::PubAck(
                        PubAck { packet_id: pid, reason_code: PubAckReasonCode::Success },
                    ),
                );
                Ok(out)
            },
            Qos::ExactlyOnce => {
                let pid = match publish.packet_id {
                    Some(p) => p,
                    None => {
                        proof {
                            assert(false);
                        }
                        0
                    },
                };
                if self.receive_in_quota == 0 {
                    return Err(DisconnectReasonCode::ReceiveMaximumExceeded);
                }
                if !storage.add_uncompleted_message(cid.as_slice(), pid, msg) {
                    return if self.protocol_level == ProtocolLevel::V5 {
                        let mut out: Vec<Packet> = Vec::new();
                        out.push(
                            Packet::PubRec(
                                PubRec {
                                    packet_id: pid,
                                    reason_code: PubRecReasonCode::PacketIdentifierInUse,
                                    properties: PubRecProperties::empty(),
                                },
                            ),
                        );
                        Ok(out)
                    } else {
                        Err(DisconnectReasonCode::ProtocolError)
                    };
                }
                self.receive_in_quota = self.receive_in_quota - 1;
                let mut out: Vec<Packet> = Vec::new();
                out.push(
                    Packet::PubRec(
                        PubRec {
                            packet_id: pid,
                            reason_code: PubRecReasonCode::Success,
                            properties: PubRecProperties::empty(),
                        },
                    ),
                );
                Ok(out)
            },
        }
    }
}

/// Running state of the outbound dispatch loop: the packets sent so far,
/// the remaining quota, the next packet identifier, the in-flight
/// publishes appended, and the QoS 2 state table.
#[verifier::ext_equal]
pub ghost struct DispatchView {
    pub out: Seq<PublishView>,
    pub quota: int,
    pub pid: u16,
    pub inflight_add: Seq<PublishView>,
    pub qos2: Seq<(u16, Qos2State)>,
}

pub open spec fn dispatch_init(quota: int, pid: u16, qos2: Seq<(u16, Qos2State)>)
    -> DispatchView {
    DispatchView { out: Seq::empty(), quota, pid, inflight_add: Seq::empty(), qos2 }
}

/// How one queued message is dispatched: an expired one is dropped; a
/// QoS 0 one is sent as is; a QoS >= 1 one gets the next packet
/// identifier, consumes one unit of quota, goes in flight and is recorded
/// as `Published`.
pub open spec fn dispatch_step(d: DispatchView, m: MessageView, now: u64) -> DispatchView {
    if spec_msg_expired(m, now) {
        d
    } else {
        let p = spec_to_publish(m, now);
        if m.qos == Qos::AtMostOnce {
            DispatchView { out: d.out.push(p), ..d }
        } else {
            let p2 = PublishView { packet_id: Some(d.pid), ..p };
            DispatchView {
                out: d.out.push(p2),
                quota: d.quota - 1,
                pid: next_pid(d.pid),
                inflight_add: d.inflight_add.push(p2),
                qos2: assoc_insert(d.qos2, d.pid, Qos2State::Published),
            }
        }
    }
}

pub open spec fn dispatch(msgs: Seq<MessageView>, now: u64, init: DispatchView) -> DispatchView
    decreases msgs.len(),
{
    if msgs.len() == 0 {
        init
    } else {
        dispatch_step(dispatch(msgs.drop_last(), now, init), msgs.last(), now)
    }
}

/// The parsed filter of a valid filter string, as a view.
pub open spec fn parsed_filter_view(s: Seq<u8>) -> crate::topic::TopicFilterView {
    let fp = crate::topic::filter_spec(s)->Some_0;
    crate::topic::TopicFilterView {
        share: fp.share,
        path: fp.path,
        levels: crate::topic::split_levels(fp.path),
    }
}

/// What one accepted subscription does to the store; mirrors
/// `Storage::subscribe`.
pub open spec fn subscribe_step_view(
    v: StorageView,
    cid: Seq<u8>,
    item: crate::message::FilterItemView,
    now: u64,
) -> StorageView {
    match item.topic_filter.share {
        Some(g) => StorageView {
            shares: crate::storage::share_subscribed(v.shares, g, cid, item),
            ..v
        },
        None => {
            let s = session_of(v, cid);
            let f2 = assoc_insert(s.filters, item.topic_filter.path, item);
            let is_new = !assoc_contains(s.filters, item.topic_filter.path);
            let replay = item.retain_handling == RetainHandling::OnEverySubscribe || (
            item.retain_handling == RetainHandling::OnNewSubscribe && is_new);
            with_session(
                v,
                cid,
                SessionView {
                    filters: f2,
                    queue: s.queue + if replay {
                        crate::storage::retained_replay(v.retained, f2, cid, now)
                    } else {
                        Seq::empty()
                    },
                    ..s
                },
            )
        },
    }
}

pub open spec fn qos_rc(q: Qos) -> crate::packets::SubscribeReasonCode {
    match q {
        Qos::AtMostOnce => crate::packets::SubscribeReasonCode::QoS0,
        Qos::AtLeastOnce => crate::packets::SubscribeReasonCode::QoS1,
        Qos::ExactlyOnce => crate::packets::SubscribeReasonCode::QoS2,
    }
}

/// Result of working through the filters of a SUBSCRIBE: the reason codes
/// granted so far (or the disconnect reason that aborted the packet), and
/// the store afterwards.
#[verifier::ext_equal]
pub ghost struct SubProcess {
    pub result: Result<Seq<crate::packets::SubscribeReasonCode>, DisconnectReasonCode>,
    pub store: StorageView,
}

pub open spec fn prepend_rc(
    rc: crate::packets::SubscribeReasonCode,
    p: SubProcess,
) -> SubProcess {
    SubProcess {
        result: match p.result {
            Ok(rcs) => Ok(seq![rc] + rcs),
            Err(e) => Err(e),
        },
        store: p.store,
    }
}

/// The filters of a SUBSCRIBE, processed front to back: an unparsable
/// filter is granted `TopicFilterInvalid`; a shared filter with `no_local`
/// aborts with a protocol error; a wildcard filter is refused when the
/// server disallows wildcards; a negative ACL verdict aborts with
/// not-authorized; otherwise the subscription is stored (with its
/// requested options) and granted min(requested, server maximum) QoS.
pub open spec fn process_sub(
    v: StorageView,
    cid: Seq<u8>,
    filters: Seq<crate::packets::SubscribeFilter>,
    acl: Seq<bool>,
    sub_id: Option<u32>,
    max_qos: Qos,
    wildcard_available: bool,
    now: u64,
) -> SubProcess
    decreases filters.len(),
{
    if filters.len() == 0 {
        SubProcess { result: Ok(Seq::empty()), store: v }
    } else {
        let f = filters[0];
        let rest = filters.drop_first();
        let acl_rest = acl.drop_first();
        match crate::topic::filter_spec(f.path@) {
            None => prepend_rc(
                crate::packets::SubscribeReasonCode::TopicFilterInvalid,
                process_sub(v, cid, rest, acl_rest, sub_id, max_qos, wildcard_available, now),
            ),
            Some(fp) => {
                if fp.share is Some && f.no_local {
                    SubProcess {
                        result: Err(DisconnectReasonCode::ProtocolError),
                        store: v,
                    }
                } else if !wildcard_available && (fp.path.contains(crate::topic::PLUS)
                    || fp.path.contains(crate::topic::HASH)) {
                    prepend_rc(
                        crate::packets::SubscribeReasonCode::WildcardSubscriptionsNotSupported,
                        process_sub(
                            v,
                            cid,
                            rest,
                            acl_rest,
                            sub_id,
                            max_qos,
                            wildcard_available,
                            now,
                        ),
                    )
                } else if acl.len() > 0 && !acl[0] {
                    SubProcess {
                        result: Err(DisconnectReasonCode::NotAuthorized),
                        store: v,
                    }
                } else {
                    let item = crate::message::FilterItemView {
                        topic_filter: parsed_filter_view(f.path@),
                        qos: f.qos,
                        no_local: f.no_local,
                        retain_as_published: f.retain_as_published,
                        retain_handling: f.retain_handling,
                        id: sub_id,
                    };
                    prepend_rc(
                        qos_rc(crate::packets::spec_qos_min(f.qos, max_qos)),
                        process_sub(
                            subscribe_step_view(v, cid, item, now),
                            cid,
                            rest,
                            acl_rest,
                            sub_id,
                            max_qos,
                            wildcard_available,
                            now,
                        ),
                    )
                }
            },
        }
    }
}

/// Result of working through the filters of an UNSUBSCRIBE.
#[verifier::ext_equal]
pub ghost struct UnsubProcess {
    pub rcs: Seq<crate::packets::UnsubAckReasonCode>,
    pub store: StorageView,
}

/// What one unsubscribe does to the store and whether an entry existed;
/// mirrors `Storage::unsubscribe`.
pub open spec fn unsubscribe_step_view(
    v: StorageView,
    cid: Seq<u8>,
    tf: crate::topic::TopicFilterView,
) -> (StorageView, bool) {
    match tf.share {
        Some(g) => (
            StorageView {
                shares: crate::storage::share_unsubscribed(v.shares, g, cid, tf.path),
                ..v
            },
            crate::storage::share_contains(v.shares, g, cid, tf.path),
        ),
        None => {
            let s = session_of(v, cid);
            (
                with_session(
                    v,
                    cid,
                    SessionView { filters: assoc_remove(s.filters, tf.path), ..s },
                ),
                assoc_contains(s.filters, tf.path),
            )
        },
    }
}

/// The filters of an UNSUBSCRIBE, processed front to back: an unparsable
/// filter gets `TopicFilterInvalid`; otherwise the entry is removed and
/// the packet granted `Success` exactly when one existed.
pub open spec fn process_unsub(
    v: StorageView,
    cid: Seq<u8>,
    filters: Seq<Vec<u8>>,
) -> UnsubProcess
    decreases filters.len(),
{
    if filters.len() == 0 {
        UnsubProcess { rcs: Seq::empty(), store: v }
    } else {
        match crate::topic::filter_spec(filters[0]@) {
            None => {
                let p = process_unsub(v, cid, filters.drop_first());
                UnsubProcess {
                    rcs: seq![crate::packets::UnsubAckReasonCode::TopicFilterInvalid] + p.rcs,
                    store: p.store,
                }
            },
            Some(_) => {
                let tf = parsed_filter_view(filters[0]@);
                let (v2, found) = unsubscribe_step_view(v, cid, tf);
                let p = process_unsub(v2, cid, filters.drop_first());
                UnsubProcess {
                    rcs: seq![
                        if found {
                            crate::packets::UnsubAckReasonCode::Success
                        } else {
                            crate::packets::UnsubAckReasonCode::NoSubscriptionExisted
                        },
                    ] + p.rcs,
                    store: p.store,
                }
            },
        }
    }
}

pub open spec fn prepend_all(
    rcs: Seq<crate::packets::SubscribeReasonCode>,
    p: SubProcess,
) -> SubProcess {
    SubProcess {
        result: match p.result {
            Ok(r2) => Ok(rcs + r2),
            Err(e) => Err(e),
        },
        store: p.store,
    }
}

impl Connection {
    /// Work through the filters of a SUBSCRIBE, per `process_sub`; `acl`
    /// holds the caller's per-filter ACL verdicts, positionally. Returns
    /// the SUBACK, or the reason to disconnect with.
    pub fn handle_subscribe(
        &mut self,
        storage: &mut Storage,
        subscribe: &crate::packets::Subscribe,
        acl: &Vec<bool>,
        config: &ServerConfig,
        now: u64,
    ) -> (r: Result<Packet, DisconnectReasonCode>)
        requires
            old(self).client_id is Some,
            old(self).wf(),
            old(storage).wf(),
            assoc_contains(old(storage)@.sessions, old(self).cid()),
            acl@.len() == subscribe.filters@.len(),
        ensures
            final(storage).wf(),
            *final(self) == *old(self),
            assoc_contains(final(storage)@.sessions, old(self).cid()),
            ({
                let p = process_sub(
                    old(storage)@,
                    old(self).cid(),
                    subscribe.filters@,
                    acl@,
                    subscribe.properties.id,
                    config.maximum_qos,
                    config.wildcard_subscription_available,
                    now,
                );
                &&& final(storage)@ == p.store
                &&& match p.result {
                    Ok(rcs) => r matches Ok(pk) && (pk matches Packet::SubAck(sa)
                        && sa.packet_id == subscribe.packet_id && sa.reason_codes@ == rcs),
                    Err(e) => r == Err::<Packet, DisconnectReasonCode>(e),
                }
            }),
    {
        let cid = match &self.client_id {
            Some(c) => clone_bytes(c),
            None => {
                proof {
                    assert(false);
                }
                Vec::new()
            },
        };
        let ghost v0 = storage@;
        let ghost fl = subscribe.filters@;
        let ghost av = acl@;
        let ghost sub_id = subscribe.properties.id;
        let ghost mq = config.maximum_qos;
        let ghost wa = config.wildcard_subscription_available;
        let mut rcs: Vec<crate::packets::SubscribeReasonCode> = Vec::new();
        let mut i: usize = 0;
        proof {
            assert(fl.skip(0) =~= fl);
            assert(av.skip(0) =~= av);
            assert(rcs@ =~= Seq::<crate::packets::SubscribeReasonCode>::empty());
            assert(prepend_all(rcs@, process_sub(storage@, cid@, fl.skip(0), av.skip(0), sub_id, mq, wa, now))
                =~= process_sub(v0, cid@, fl, av, sub_id, mq, wa, now)) by {
                let p = process_sub(v0, cid@, fl, av, sub_id, mq, wa, now);
                match p.result {
                    Ok(r2) => {
                        assert(Seq::<crate::packets::SubscribeReasonCode>::empty() + r2 =~= r2);
                    },
                    Err(_) => {
                    },
                }
            }
        }
        while i < subscribe.filters.len()
            invariant
                i <= fl.len(),
                fl == subscribe.filters@,
                av == acl@,
                av.len() == fl.len(),
                sub_id == subscribe.properties.id,
                mq == config.maximum_qos,
                wa == config.wildcard_subscription_available,
                cid@ == old(self).cid(),
                v0 == old(storage)@,
                *self == *old(self),
                storage.wf(),
                assoc_contains(storage@.sessions, cid@),
                rcs@.len() <= i,
                process_sub(v0, cid@, fl, av, sub_id, mq, wa, now) == prepend_all(
                    rcs@,
                    process_sub(
                        storage@,
                        cid@,
                        fl.skip(i as int),
                        av.skip(i as int),
                        sub_id,
                        mq,
                        wa,
                        now,
                    ),
                ),
            decreases fl.len() - i,
        {
            let ghost cur = storage@;
            let ghost rcs_pre = rcs@;
            proof {
                assert(fl.skip(i as int)[0] == fl[i as int]);
                assert(fl.skip(i as int).drop_first() =~= fl.skip(i + 1));
                assert(av.skip(i as int)[0] == av[i as int]);
                assert(av.skip(i as int).drop_first() =~= av.skip(i + 1));
            }
            let f = &subscribe.filters[i];
            match crate::topic::TopicFilter::parse(f.path.as_slice()) {
                None => {
                    rcs.push(crate::packets::SubscribeReasonCode::TopicFilterInvalid);
                    proof {
                        lemma_prepend_shift(
                            rcs_pre,
                            crate::packets::SubscribeReasonCode::TopicFilterInvalid,
                            process_sub(cur, cid@, fl.skip(i + 1), av.skip(i + 1), sub_id, mq, wa, now),
                        );
                    }
                },
                Some(tf) => {
                    let is_shared = tf.share_name().is_some();
                    proof {
                        assert(tf.share_view() == crate::topic::filter_spec(
                            fl[i as int].path@,
                        )->Some_0.share);
                        assert(tf@.path == crate::topic::filter_spec(
                            fl[i as int].path@,
                        )->Some_0.path);
                    }
                    if is_shared && f.no_local {
                        proof {
                            let pc = process_sub(
                                cur,
                                cid@,
                                fl.skip(i as int),
                                av.skip(i as int),
                                sub_id,
                                mq,
                                wa,
                                now,
                            );
                            assert(pc == (SubProcess {
                                result: Err::<Seq<crate::packets::SubscribeReasonCode>,
                                DisconnectReasonCode>(DisconnectReasonCode::ProtocolError),
                                store: cur,
                            }));
                        }
                        return Err(DisconnectReasonCode::ProtocolError);
                    }
                    if !config.wildcard_subscription_available && tf.has_wildcards() {
                        rcs.push(
                            crate::packets::SubscribeReasonCode::WildcardSubscriptionsNotSupported,
                        );
                        proof {
                            lemma_prepend_shift(
                                rcs_pre,
                                crate::packets::SubscribeReasonCode::WildcardSubscriptionsNotSupported,
                                process_sub(cur, cid@, fl.skip(i + 1), av.skip(i + 1), sub_id, mq, wa, now),
                            );
                        }
                    } else if !acl[i] {
                        proof {
                            let pc = process_sub(
                                cur,
                                cid@,
                                fl.skip(i as int),
                                av.skip(i as int),
                                sub_id,
                                mq,
                                wa,
                                now,
                            );
                            assert(av.skip(i as int)[0] == false);
                            assert(pc == (SubProcess {
                                result: Err::<Seq<crate::packets::SubscribeReasonCode>,
                                DisconnectReasonCode>(DisconnectReasonCode::NotAuthorized),
                                store: cur,
                            }));
                        }
                        return Err(DisconnectReasonCode::NotAuthorized);
                    } else {
                        let granted = f.qos.min_with(config.maximum_qos);
                        let rc = match granted {
                            Qos::AtMostOnce => crate::packets::SubscribeReasonCode::QoS0,
                            Qos::AtLeastOnce => crate::packets::SubscribeReasonCode::QoS1,
                            Qos::ExactlyOnce => crate::packets::SubscribeReasonCode::QoS2,
                        };
                        let item = crate::message::FilterItem {
                            topic_filter: tf,
                            qos: f.qos,
                            no_local: f.no_local,
                            retain_as_published: f.retain_as_published,
                            retain_handling: f.retain_handling,
                            id: subscribe.properties.id,
                        };
                        let ghost item_view = item@;
                        proof {
                            assert(item_view =~= crate::message::FilterItemView {
                                topic_filter: parsed_filter_view(fl[i as int].path@),
                                qos: fl[i as int].qos,
                                no_local: fl[i as int].no_local,
                                retain_as_published: fl[i as int].retain_as_published,
                                retain_handling: fl[i as int].retain_handling,
                                id: sub_id,
                            });
                        }
                        storage.subscribe(cid.as_slice(), item, now);
                        rcs.push(rc);
                        proof {
                            assert(storage@ =~= subscribe_step_view(cur, cid@, item_view, now));
                            if item_view.topic_filter.share is None {
                                let s = session_of(cur, cid@);
                                let f2 = assoc_insert(
                                    s.filters,
                                    item_view.topic_filter.path,
                                    item_view,
                                );
                                let ns = SessionView {
                                    filters: f2,
                                    queue: s.queue + if item_view.retain_handling
                                        == RetainHandling::OnEverySubscribe || (
                                    item_view.retain_handling == RetainHandling::OnNewSubscribe
                                        && !assoc_contains(s.filters, item_view.topic_filter.path)) {
                                        crate::storage::retained_replay(cur.retained, f2, cid@, now)
                                    } else {
                                        Seq::empty()
                                    },
                                    ..s
                                };
                                crate::assoc::lemma_get_insert_same(cur.sessions, cid@, ns);
                                crate::assoc::lemma_get_some_iff_contains(
                                    assoc_insert(cur.sessions, cid@, ns),
                                    cid@,
                                );
                            }
                            lemma_prepend_shift(
                                rcs_pre,
                                rc,
                                process_sub(storage@, cid@, fl.skip(i + 1), av.skip(i + 1), sub_id, mq, wa, now),
                            );
                        }
                    }
                },
            }
            i += 1;
        }
        proof {
            assert(fl.skip(fl.len() as int).len() == 0);
            assert(av.skip(av.len() as int).len() == 0);
            let pfin = process_sub(
                storage@,
                cid@,
                fl.skip(fl.len() as int),
                av.skip(av.len() as int),
                sub_id,
                mq,
                wa,
                now,
            );
            assert(pfin.result == Ok::<_, DisconnectReasonCode>(
                Seq::<crate::packets::SubscribeReasonCode>::empty(),
            ) && pfin.store == storage@);
            assert(rcs@ + Seq::<crate::packets::SubscribeReasonCode>::empty() =~= rcs@);
        }
        Ok(
            Packet::SubAck(
                crate::packets::SubAck { packet_id: subscribe.packet_id, reason_codes: rcs },
            ),
        )
    }

    /// Work through the filters of an UNSUBSCRIBE, per `process_unsub`;
    /// returns the UNSUBACK.
    pub fn handle_unsubscribe(
        &mut self,
        storage: &mut Storage,
        unsubscribe: &crate::packets::Unsubscribe,
    ) -> (r: Packet)
        requires
            old(self).client_id is Some,
            old(self).wf(),
            old(storage).wf(),
            assoc_contains(old(storage)@.sessions, old(self).cid()),
        ensures
            final(storage).wf(),
            *final(self) == *old(self),
            assoc_contains(final(storage)@.sessions, old(self).cid()),
            ({
                let p = process_unsub(old(storage)@, old(self).cid(), unsubscribe.filters@);
                &&& final(storage)@ == p.store
                &&& r matches Packet::UnsubAck(ua) && ua.packet_id == unsubscribe.packet_id
                    && ua.reason_codes@ == p.rcs
            }),
    {
        let cid = match &self.client_id {
            Some(c) => clone_bytes(c),
            None => {
                proof {
                    assert(false);
                }
                Vec::new()
            },
        };
        let ghost v0 = storage@;
        let ghost fl = unsubscribe.filters@;
        let mut rcs: Vec<crate::packets::UnsubAckReasonCode> = Vec::new();
        let mut i: usize = 0;
        proof {
            assert(fl.skip(0) =~= fl);
            assert(rcs@ =~= Seq::<crate::packets::UnsubAckReasonCode>::empty());
            let p = process_unsub(v0, cid@, fl);
            assert(Seq::<crate::packets::UnsubAckReasonCode>::empty() + p.rcs =~= p.rcs);
        }
        while i < unsubscribe.filters.len()
            invariant
                i <= fl.len(),
                fl == unsubscribe.filters@,
                cid@ == old(self).cid(),
                v0 == old(storage)@,
                *self == *old(self),
                storage.wf(),
                assoc_contains(storage@.sessions, cid@),
                ({
                    let p0 = process_unsub(v0, cid@, fl);
                    let pc = process_unsub(storage@, cid@, fl.skip(i as int));
                    p0.rcs == rcs@ + pc.rcs && p0.store == pc.store
                }),
            decreases fl.len() - i,
        {
            let ghost cur = storage@;
            let ghost rcs_pre = rcs@;
            proof {
                assert(fl.skip(i as int)[0] == fl[i as int]);
                assert(fl.skip(i as int).drop_first() =~= fl.skip(i + 1));
            }
            let path = &unsubscribe.filters[i];
            match crate::topic::TopicFilter::parse(path.as_slice()) {
                None => {
                    rcs.push(crate::packets::UnsubAckReasonCode::TopicFilterInvalid);
                    proof {
                        let pc = process_unsub(cur, cid@, fl.skip(i + 1));
                        assert(rcs_pre + (seq![
                            crate::packets::UnsubAckReasonCode::TopicFilterInvalid,
                        ] + pc.rcs) =~= rcs@ + pc.rcs);
                    }
                },
                Some(tf) => {
                    let ghost tfv = tf@;
                    proof {
                        assert(tfv =~= parsed_filter_view(fl[i as int]@));
                    }
                    let found = storage.unsubscribe(cid.as_slice(), &tf);
                    let rc = if found {
                        crate::packets::UnsubAckReasonCode::Success
                    } else {
                        crate::packets::UnsubAckReasonCode::NoSubscriptionExisted
                    };
                    rcs.push(rc);
                    proof {
                        let (v2, f2) = unsubscribe_step_view(cur, cid@, tfv);
                        assert(storage@ =~= v2);
                        assert(found == f2);
                        if tfv.share is None {
                            let s = session_of(cur, cid@);
                            let ns = SessionView {
                                filters: assoc_remove(s.filters, tfv.path),
                                ..s
                            };
                            crate::assoc::lemma_get_insert_same(cur.sessions, cid@, ns);
                            crate::assoc::lemma_get_some_iff_contains(
                                assoc_insert(cur.sessions, cid@, ns),
                                cid@,
                            );
                        }
                        let pc = process_unsub(storage@, cid@, fl.skip(i + 1));
                        assert(rcs_pre + (seq![rc] + pc.rcs) =~= rcs@ + pc.rcs);
                    }
                },
            }
            i += 1;
        }
        proof {
            assert(fl.skip(fl.len() as int).len() == 0);
            let pfin = process_unsub(storage@, cid@, fl.skip(fl.len() as int));
            assert(pfin.rcs =~= Seq::<crate::packets::UnsubAckReasonCode>::empty());
            assert(rcs@ + Seq::<crate::packets::UnsubAckReasonCode>::empty() =~= rcs@);
        }
        Packet::UnsubAck(
            crate::packets::UnsubAck { packet_id: unsubscribe.packet_id, reason_codes: rcs },
        )
    }
}

proof fn lemma_prepend_shift(
    rcs: Seq<crate::packets::SubscribeReasonCode>,
    rc: crate::packets::SubscribeReasonCode,
    p: SubProcess,
)
    ensures
        prepend_all(rcs, prepend_rc(rc, p)) == prepend_all(rcs.push(rc), p),
{
    match p.result {
        Ok(r2) => {
            assert(rcs + (seq![rc] + r2) =~= rcs.push(rc) + r2);
            assert(prepend_all(rcs, prepend_rc(rc, p)) =~= prepend_all(rcs.push(rc), p));
        },
        Err(_) => {
            assert(prepend_all(rcs, prepend_rc(rc, p)) =~= prepend_all(rcs.push(rc), p));
        },
    }
}

/// Relies on uuid::Uuid::new_v4 and its hyphenated display form: 36
/// characters of fresh identifier text. Only the shape is assumed; the
/// value is random.
#[verifier::external_body]
fn fresh_uuid_text() -> (r: Vec<u8>)
    ensures
        r@.len() == 36,
{
    uuid::Uuid::new_v4().hyphenated().to_string().into_bytes()
}

/// The prefix of every server-assigned client identifier: `auto-`.
pub open spec fn auto_id_prefix() -> Seq<u8> {
    seq![97u8, 117u8, 116u8, 111u8, 45u8]
}

/// A server-assigned client identifier: `auto-` followed by fresh
/// identifier text.
fn auto_client_id() -> (r: Vec<u8>)
    ensures
        r@.len() == 41,
        r@.subrange(0, 5) == auto_id_prefix(),
{
    let mut out: Vec<u8> = Vec::new();
    out.push(97);
    out.push(117);
    out.push(116);
    out.push(111);
    out.push(45);
    let mut tail = fresh_uuid_text();
    out.append(&mut tail);
    proof {
        assert(out@.subrange(0, 5) =~= auto_id_prefix());
    }
    out
}

/// The negotiated session expiry: the client's request capped at the
/// server maximum (absent: zero); a v3.1.1 client resuming a session gets
/// the server maximum.
pub open spec fn negotiated_expiry(req: Option<u32>, cfg_max: u32, v4_resume: bool) -> u32 {
    if v4_resume {
        cfg_max
    } else {
        match req {
            Some(x) => if x > cfg_max {
                cfg_max
            } else {
                x
            },
            None => 0u32,
        }
    }
}

pub open spec fn negotiated_keep_alive(req: u16, cfg_max: u16) -> u16 {
    if req > cfg_max {
        cfg_max
    } else {
        req
    }
}

pub open spec fn negotiated_alias_max(req: Option<u16>, cfg: u16) -> u16 {
    match req {
        Some(x) => if x > cfg {
            cfg
        } else {
            x
        },
        None => cfg,
    }
}

/// Why a registered will is refused at CONNECT, if it is.
pub open spec fn will_reject(
    lw: Option<crate::packets::LastWillView>,
    max_qos: Qos,
    retain_available: bool,
) -> Option<crate::packets::ConnectReasonCode> {
    match lw {
        None => None,
        Some(w) => {
            if w.qos.as_num() > max_qos.as_num() {
                Some(crate::packets::ConnectReasonCode::QoSNotSupported)
            } else if w.retain && !retain_available {
                Some(crate::packets::ConnectReasonCode::RetainNotSupported)
            } else if w.properties.payload_format_indicator == Some(true)
                && !vstd::utf8::valid_utf8(w.payload) {
                Some(crate::packets::ConnectReasonCode::PayloadFormatInvalid)
            } else {
                None
            }
        },
    }
}

/// The in-flight publishes replayed on session resumption, with the
/// duplicate flag set.
pub open spec fn dup_views(s: Seq<PublishView>) -> Seq<PublishView> {
    s.map_values(|p: PublishView| PublishView { dup: true, ..p })
}

/// Server-configured subscriptions installed for a fresh session, in
/// order; an unparsable path is skipped.
pub open spec fn process_proxy(
    v: StorageView,
    cid: Seq<u8>,
    subs: Seq<crate::packets::SubscribeFilter>,
    now: u64,
) -> StorageView
    decreases subs.len(),
{
    if subs.len() == 0 {
        v
    } else {
        let v2 = match crate::topic::filter_spec(subs[0].path@) {
            None => v,
            Some(_) => subscribe_step_view(
                v,
                cid,
                crate::message::FilterItemView {
                    topic_filter: parsed_filter_view(subs[0].path@),
                    qos: subs[0].qos,
                    no_local: subs[0].no_local,
                    retain_as_published: subs[0].retain_as_published,
                    retain_handling: subs[0].retain_handling,
                    id: None,
                },
                now,
            ),
        };
        process_proxy(v2, cid, subs.drop_first(), now)
    }
}

/// The store after `create_session`; mirrors `Storage::create_session`.
pub open spec fn create_session_view(
    v: StorageView,
    cid: Seq<u8>,
    clean_start: bool,
    lwv: Option<crate::packets::LastWillView>,
) -> StorageView {
    if clean_start {
        StorageView {
            sessions: assoc_insert(
                assoc_remove(v.sessions, cid),
                cid,
                crate::storage::fresh_session_view(lwv),
            ),
            shares: crate::storage::shares_without_client(v.shares, cid),
            ..v
        }
    } else if assoc_contains(v.sessions, cid) {
        with_session(
            v,
            cid,
            SessionView {
                last_will: lwv,
                last_will_deadline: None,
                remove_deadline: None,
                ..session_of(v, cid)
            },
        )
    } else {
        with_session(v, cid, crate::storage::fresh_session_view(lwv))
    }
}

/// What a successful CONNECT hands back to the event loop.
#[derive(Debug, PartialEq, Eq)]
pub enum ConnectOutcome {
    /// The CONNACK to send, the token of the previous holder of the
    /// client identifier (to be told its session was taken over), and the
    /// in-flight publishes to replay. The connection is established.
    Accepted(crate::packets::ConnAck, Option<u64>, Vec<Publish>),
    /// The CONNACK to send; then the network connection is closed.
    Rejected(crate::packets::ConnAck),
}

/// The CONNACK properties a successful CONNECT advertises: each limit is
/// echoed exactly when it differs from (or caps) what the client asked
/// for.
pub open spec fn expected_connack_props(
    pr: crate::packets::ConnAckProperties,
    req_expiry: Option<u32>,
    req_keep_alive: u16,
    req_alias_max: Option<u16>,
    config: ServerConfig,
    assigned: Option<Seq<u8>>,
) -> bool {
    &&& pr.session_expiry_interval == match req_expiry {
        Some(x) => if x > config.max_session_expiry_interval {
            Some(config.max_session_expiry_interval)
        } else {
            None::<u32>
        },
        None => None::<u32>,
    }
    &&& pr.server_keep_alive == if req_keep_alive > config.max_keep_alive {
        Some(config.max_keep_alive)
    } else {
        None::<u16>
    }
    &&& pr.maximum_qos == if config.maximum_qos != Qos::ExactlyOnce {
        Some(config.maximum_qos)
    } else {
        None::<Qos>
    }
    &&& pr.max_packet_size == if config.max_packet_size != 0xffff_ffffu32 {
        Some(config.max_packet_size)
    } else {
        None::<u32>
    }
    &&& pr.retain_available == if !config.retain_available {
        Some(false)
    } else {
        None::<bool>
    }
    &&& pr.wildcard_subscription_available == if !config.wildcard_subscription_available {
        Some(false)
    } else {
        None::<bool>
    }
    &&& pr.topic_alias_max == match req_alias_max {
        Some(x) => if x > config.max_topic_alias {
            Some(config.max_topic_alias)
        } else {
            None::<u16>
        },
        None => Some(config.max_topic_alias),
    }
    &&& crate::bytes_util::opt_bytes_view(pr.assigned_client_identifier) == assigned
    &&& pr.receive_max is None
}

impl Connection {
    /// The CONNECT handshake. Validates the will, assigns a client
    /// identifier (`auto-` plus fresh identifier text) when the client
    /// sent none, applies the caller's
    /// authentication verdict (`auth_uid`: `None` for no login,
    /// `Some(None)` for a refused login, `Some(Some(uid))` for an accepted
    /// one), displaces a previous holder of the identifier, creates or
    /// resumes the session, and negotiates every limit. On resumption the
    /// in-flight publishes are replayed with the duplicate flag set;
    /// otherwise the server-configured `proxy` subscriptions are
    /// installed.
    pub fn handle_connect(
        &mut self,
        storage: &mut Storage,
        registry: &mut crate::server::ConnectionsRegistry,
        config: &ServerConfig,
        proxy: &Vec<crate::packets::SubscribeFilter>,
        connect: Connect,
        auth_uid: Option<Option<Vec<u8>>>,
        token: u64,
        now: u64,
    ) -> (r: Result<ConnectOutcome, DisconnectReasonCode>)
        requires
            old(self).wf(),
            old(storage).wf(),
            old(registry).wf(),
        ensures
            final(self).wf(),
            final(storage).wf(),
            final(registry).wf(),
            ({
                let lwv = opt_will_view(connect.last_will);
                let rej = will_reject(lwv, config.maximum_qos, config.retain_available);
                let empty_id = connect.client_id@.len() == 0;
                if old(self).client_id is Some {
                    &&& r == Err::<ConnectOutcome, DisconnectReasonCode>(
                        DisconnectReasonCode::ProtocolError,
                    )
                    &&& *final(storage) == *old(storage)
                    &&& *final(registry) == *old(registry)
                    &&& *final(self) == *old(self)
                } else if rej is Some {
                    &&& r matches Ok(o) && (o matches ConnectOutcome::Rejected(ca)
                        && ca.reason_code == rej->Some_0 && !ca.session_present)
                    &&& *final(storage) == *old(storage)
                    &&& *final(registry) == *old(registry)
                    &&& *final(self) == *old(self)
                } else if empty_id && !connect.clean_start {
                    &&& r matches Ok(o) && (o matches ConnectOutcome::Rejected(ca)
                        && ca.reason_code
                        == crate::packets::ConnectReasonCode::ClientIdentifierNotValid
                        && !ca.session_present)
                    &&& *final(storage) == *old(storage)
                    &&& *final(registry) == *old(registry)
                    &&& *final(self) == *old(self)
                } else if auth_uid matches Some(u) && u is None {
                    &&& r == Err::<ConnectOutcome, DisconnectReasonCode>(
                        DisconnectReasonCode::NotAuthorized,
                    )
                    &&& *final(storage) == *old(storage)
                    &&& *final(registry) == *old(registry)
                    &&& *final(self) == *old(self)
                } else {
                    exists|cid: Seq<u8>|
                        #![trigger assoc_insert(old(registry)@, cid, token)]
                        {
                            let v4_resume = connect.level == ProtocolLevel::V4
                                && !connect.clean_start;
                            let present = !connect.clean_start && assoc_contains(
                                old(storage)@.sessions,
                                cid,
                            );
                            let after_create = create_session_view(
                                old(storage)@,
                                cid,
                                connect.clean_start,
                                lwv,
                            );
                            &&& (!empty_id ==> cid == connect.client_id@)
                            &&& (empty_id ==> cid.len() == 41 && cid.subrange(0, 5)
                                == auto_id_prefix())
                            &&& final(registry)@ == assoc_insert(old(registry)@, cid, token)
                            &&& final(self).client_id matches Some(c) && c@ == cid
                            &&& crate::bytes_util::opt_bytes_view(final(self).uid) == match
                                auth_uid {
                                Some(u) => crate::bytes_util::opt_bytes_view(u),
                                None => None::<Seq<u8>>,
                            }
                            &&& final(self).protocol_level == connect.level
                            &&& final(self).session_expiry_interval == negotiated_expiry(
                                connect.properties.session_expiry_interval,
                                config.max_session_expiry_interval,
                                v4_resume,
                            )
                            &&& final(self).keep_alive == negotiated_keep_alive(
                                connect.keep_alive,
                                config.max_keep_alive,
                            )
                            &&& final(self).receive_in_max == config.receive_max as usize
                            &&& final(self).receive_in_quota == config.receive_max as usize
                            &&& final(self).receive_out_max == match connect.properties
                                .receive_max {
                                Some(x) => x as usize,
                                None => usize::MAX,
                            }
                            &&& final(self).max_topic_alias == negotiated_alias_max(
                                connect.properties.topic_alias_max,
                                config.max_topic_alias,
                            )
                            &&& opt_will_view(final(self).last_will) == lwv
                            &&& final(self).next_packet_id == old(self).next_packet_id
                            &&& final(self).inflight_qos2_messages@ == old(
                                self).inflight_qos2_messages@
                            &&& final(self).topic_alias@ == old(self).topic_alias@
                            &&& assoc_contains(final(storage)@.sessions, cid)
                            &&& r matches Ok(o) && (o matches ConnectOutcome::Accepted(
                                ca,
                                taken,
                                replay,
                            ) && {
                                &&& ca.session_present == present
                                &&& ca.reason_code == crate::packets::ConnectReasonCode::Success
                                &&& expected_connack_props(
                                    ca.properties,
                                    connect.properties.session_expiry_interval,
                                    connect.keep_alive,
                                    connect.properties.topic_alias_max,
                                    *config,
                                    if empty_id {
                                        Some(cid)
                                    } else {
                                        None
                                    },
                                )
                                &&& taken == assoc_get(old(registry)@, cid)
                                &&& if present {
                                    &&& crate::storage::pub_views(replay@) == dup_views(
                                        session_of(old(storage)@, cid).inflight,
                                    )
                                    &&& final(storage)@ == after_create
                                    &&& final(self).receive_out_quota == if replay@.len() <= final(
                                        self).receive_out_max {
                                        final(self).receive_out_max - replay@.len()
                                    } else {
                                        0int
                                    }
                                    &&& (replay@.len() <= final(self).receive_out_max ==> flow_ok(
                                        final(self),
                                        session_of(final(storage)@, cid),
                                    ))
                                } else {
                                    &&& replay@.len() == 0
                                    &&& final(storage)@ == process_proxy(
                                        after_create,
                                        cid,
                                        proxy@,
                                        now,
                                    )
                                    &&& final(self).receive_out_quota == final(
                                        self).receive_out_max
                                    &&& session_of(final(storage)@, cid).inflight.len() == 0
                                    &&& flow_ok(final(self), session_of(final(storage)@, cid))
                                }
                            })
                        }
                }
            }),
    {
        if self.client_id.is_some() {
            return Err(DisconnectReasonCode::ProtocolError);
        }
        // will validation: refused wills answer CONNACK and close
        match &connect.last_will {
            Some(lw) => {
                if lw.qos.level() > config.maximum_qos.level() {
                    return Ok(
                        ConnectOutcome::Rejected(
                            crate::packets::ConnAck {
                                session_present: false,
                                reason_code: crate::packets::ConnectReasonCode::QoSNotSupported,
                                properties: crate::packets::ConnAckProperties::empty(),
                            },
                        ),
                    );
                }
                if lw.retain && !config.retain_available {
                    return Ok(
                        ConnectOutcome::Rejected(
                            crate::packets::ConnAck {
                                session_present: false,
                                reason_code: crate::packets::ConnectReasonCode::RetainNotSupported,
                                properties: crate::packets::ConnAckProperties::empty(),
                            },
                        ),
                    );
                }
                if lw.properties.payload_format_indicator == Some(true) && !is_valid_utf8(
                    lw.payload.as_slice(),
                ) {
                    return Ok(
                        ConnectOutcome::Rejected(
                            crate::packets::ConnAck {
                                session_present: false,
                                reason_code:
                                    crate::packets::ConnectReasonCode::PayloadFormatInvalid,
                                properties: crate::packets::ConnAckProperties::empty(),
                            },
                        ),
                    );
                }
            },
            None => {
            },
        }
        if connect.client_id.len() == 0 && !connect.clean_start {
            return Ok(
                ConnectOutcome::Rejected(
                    crate::packets::ConnAck {
                        session_present: false,
                        reason_code: crate::packets::ConnectReasonCode::ClientIdentifierNotValid,
                        properties: crate::packets::ConnAckProperties::empty(),
                    },
                ),
            );
        }
        let uid: Option<Vec<u8>> = match auth_uid {
            Some(u) => match u {
                Some(x) => Some(x),
                None => {
                    return Err(DisconnectReasonCode::NotAuthorized);
                },
            },
            None => None,
        };
        let empty_id = connect.client_id.len() == 0;
        let cid: Vec<u8> = if empty_id {
            auto_client_id()
        } else {
            clone_bytes(&connect.client_id)
        };
        // negotiate the limits
        let v4_resume = connect.level == ProtocolLevel::V4 && !connect.clean_start;
        let session_expiry_interval: u32 = if v4_resume {
            config.max_session_expiry_interval
        } else {
            match connect.properties.session_expiry_interval {
                Some(x) => if x > config.max_session_expiry_interval {
                    config.max_session_expiry_interval
                } else {
                    x
                },
                None => 0,
            }
        };
        let keep_alive = if connect.keep_alive > config.max_keep_alive {
            config.max_keep_alive
        } else {
            connect.keep_alive
        };
        let max_topic_alias = match connect.properties.topic_alias_max {
            Some(x) => if x > config.max_topic_alias {
                config.max_topic_alias
            } else {
                x
            },
            None => config.max_topic_alias,
        };
        let receive_out_max: usize = match connect.properties.receive_max {
            Some(x) => x as usize,
            None => usize::MAX,
        };
        let properties = crate::packets::ConnAckProperties {
            session_expiry_interval: match connect.properties.session_expiry_interval {
                Some(x) => if x > config.max_session_expiry_interval {
                    Some(config.max_session_expiry_interval)
                } else {
                    None
                },
                None => None,
            },
            receive_max: None,
            maximum_qos: if config.maximum_qos != Qos::ExactlyOnce {
                Some(config.maximum_qos)
            } else {
                None
            },
            retain_available: if !config.retain_available {
                Some(false)
            } else {
                None
            },
            max_packet_size: if config.max_packet_size != 0xffff_ffff {
                Some(config.max_packet_size)
            } else {
                None
            },
            assigned_client_identifier: if empty_id {
                Some(clone_bytes(&cid))
            } else {
                None
            },
            topic_alias_max: match connect.properties.topic_alias_max {
                Some(x) => if x > config.max_topic_alias {
                    Some(config.max_topic_alias)
                } else {
                    None
                },
                None => Some(config.max_topic_alias),
            },
            wildcard_subscription_available: if !config.wildcard_subscription_available {
                Some(false)
            } else {
                None
            },
            server_keep_alive: if connect.keep_alive > config.max_keep_alive {
                Some(config.max_keep_alive)
            } else {
                None
            },
        };
        // displace a previous holder and create or resume the session
        let taken_over = registry.register(cid.as_slice(), token);
        let last_will_copy = crate::packets::clone_opt_will(&connect.last_will);
        let session_present = storage.create_session(
            cid.as_slice(),
            connect.clean_start,
            last_will_copy,
        );
        let ghost after_create = storage@;
        self.client_id = Some(clone_bytes(&cid));
        self.uid = uid;
        self.protocol_level = connect.level;
        self.session_expiry_interval = session_expiry_interval;
        self.receive_in_max = config.receive_max as usize;
        self.receive_in_quota = config.receive_max as usize;
        self.receive_out_max = receive_out_max;
        self.receive_out_quota = receive_out_max;
        self.max_topic_alias = max_topic_alias;
        self.keep_alive = keep_alive;
        self.last_will = connect.last_will;
        let connack = crate::packets::ConnAck {
            session_present,
            reason_code: crate::packets::ConnectReasonCode::Success,
            properties,
        };
        if session_present {
            proof {
                let cidv = cid@;
                let rs = SessionView {
                    last_will: opt_will_view(connect.last_will),
                    last_will_deadline: None,
                    remove_deadline: None,
                    ..session_of(old(storage)@, cidv)
                };
                crate::assoc::lemma_get_insert_same(old(storage)@.sessions, cidv, rs);
                crate::assoc::lemma_get_some_iff_contains(
                    assoc_insert(old(storage)@.sessions, cidv, rs),
                    cidv,
                );
            }
            let packets = storage.get_all_inflight_pub_packets(cid.as_slice());
            let ghost inflight = session_of(old(storage)@, cid@).inflight;
            proof {
                assert(crate::storage::pub_views(packets@) == inflight);
            }
            let mut replay: Vec<Publish> = Vec::new();
            let mut j: usize = 0;
            while j < packets.len()
                invariant
                    j <= packets@.len(),
                    crate::storage::pub_views(packets@) == inflight,
                    replay@.len() == j,
                    forall|x: int| 0 <= x < j ==> replay@[x]@ == dup_views(inflight)[x],
                decreases packets@.len() - j,
            {
                let mut d = packets[j].duplicate();
                d.dup = true;
                proof {
                    assert(d@ =~= (PublishView { dup: true, ..packets@[j as int]@ }));
                }
                replay.push(d);
                j += 1;
            }
            proof {
                assert(crate::storage::pub_views(replay@) =~= dup_views(inflight));
            }
            if replay.len() <= self.receive_out_max {
                self.receive_out_quota = self.receive_out_max - replay.len();
            } else {
                self.receive_out_quota = 0;
            }
            proof {
                let cidv = cid@;
                if !connect.clean_start && assoc_contains(old(storage)@.sessions, cidv) {
                    let rs = SessionView {
                        last_will: opt_will_view(connect.last_will),
                        last_will_deadline: None,
                        remove_deadline: None,
                        ..session_of(old(storage)@, cidv)
                    };
                    crate::assoc::lemma_get_insert_same(old(storage)@.sessions, cidv, rs);
                    crate::assoc::lemma_get_some_iff_contains(
                        assoc_insert(old(storage)@.sessions, cidv, rs),
                        cidv,
                    );
                }
            }
            Ok(ConnectOutcome::Accepted(connack, taken_over, replay))
        } else {
            let ghost cidv = cid@;
            proof {
                let fresh = crate::storage::fresh_session_view(opt_will_view(connect.last_will));
                if connect.clean_start {
                    crate::assoc::lemma_get_insert_same(
                        assoc_remove(old(storage)@.sessions, cidv),
                        cidv,
                        fresh,
                    );
                    crate::assoc::lemma_get_some_iff_contains(
                        assoc_insert(assoc_remove(old(storage)@.sessions, cidv), cidv, fresh),
                        cidv,
                    );
                } else {
                    crate::assoc::lemma_get_insert_same(old(storage)@.sessions, cidv, fresh);
                    crate::assoc::lemma_get_some_iff_contains(
                        assoc_insert(old(storage)@.sessions, cidv, fresh),
                        cidv,
                    );
                }
                assert(session_of(after_create, cidv).inflight.len() == 0);
            }
            let ghost pl = proxy@;
            let mut i: usize = 0;
            proof {
                assert(pl.skip(0) =~= pl);
            }
            while i < proxy.len()
                invariant
                    i <= pl.len(),
                    pl == proxy@,
                    cidv == cid@,
                    storage.wf(),
                    assoc_contains(storage@.sessions, cidv),
                    session_of(storage@, cidv).inflight.len() == 0,
                    process_proxy(after_create, cidv, pl, now) == process_proxy(
                        storage@,
                        cidv,
                        pl.skip(i as int),
                        now,
                    ),
                decreases pl.len() - i,
            {
                let ghost cur = storage@;
                proof {
                    assert(pl.skip(i as int)[0] == pl[i as int]);
                    assert(pl.skip(i as int).drop_first() =~= pl.skip(i + 1));
                }
                let f = &proxy[i];
                match crate::topic::TopicFilter::parse(f.path.as_slice()) {
                    None => {
                    },
                    Some(tf) => {
                        let item = crate::message::FilterItem {
                            topic_filter: tf,
                            qos: f.qos,
                            no_local: f.no_local,
                            retain_as_published: f.retain_as_published,
                            retain_handling: f.retain_handling,
                            id: None,
                        };
                        let ghost item_view = item@;
                        proof {
                            assert(item_view =~= (crate::message::FilterItemView {
                                topic_filter: parsed_filter_view(pl[i as int].path@),
                                qos: pl[i as int].qos,
                                no_local: pl[i as int].no_local,
                                retain_as_published: pl[i as int].retain_as_published,
                                retain_handling: pl[i as int].retain_handling,
                                id: None,
                            }));
                        }
                        storage.subscribe(cid.as_slice(), item, now);
                        proof {
                            assert(storage@ =~= subscribe_step_view(cur, cidv, item_view, now));
                            if item_view.topic_filter.share is None {
                                let s = session_of(cur, cidv);
                                let f2 = assoc_insert(
                                    s.filters,
                                    item_view.topic_filter.path,
                                    item_view,
                                );
                                let ns = SessionView {
                                    filters: f2,
                                    queue: s.queue + if item_view.retain_handling
                                        == RetainHandling::OnEverySubscribe || (
                                    item_view.retain_handling == RetainHandling::OnNewSubscribe
                                        && !assoc_contains(
                                        s.filters,
                                        item_view.topic_filter.path,
                                    )) {
                                        crate::storage::retained_replay(
                                            cur.retained,
                                            f2,
                                            cidv,
                                            now,
                                        )
                                    } else {
                                        Seq::empty()
                                    },
                                    ..s
                                };
                                crate::assoc::lemma_get_insert_same(cur.sessions, cidv, ns);
                                crate::assoc::lemma_get_some_iff_contains(
                                    assoc_insert(cur.sessions, cidv, ns),
                                    cidv,
                                );
                            }
                        }
                    },
                }
                i += 1;
            }
            proof {
                assert(pl.skip(pl.len() as int).len() == 0);
            }
            Ok(ConnectOutcome::Accepted(connack, taken_over, Vec::new()))
        }
    }
}


/// The keep-alive rule of the event loop: with a non-zero keep-alive, a
/// client silent for more than one and a half times that interval is
/// disconnected with a keep-alive timeout.
pub fn keep_alive_expired(keep_alive: u16, last_active: u64, now: u64) -> (r: bool)
    requires
        last_active <= now,
    ensures
        r == (keep_alive > 0 && now - last_active > keep_alive as int * 3 / 2),
{
    keep_alive > 0 && now - last_active > keep_alive as u64 * 3 / 2
}

/// Packets only a server may send; receiving one is a protocol error.
pub fn server_only_packet(packet: &Packet) -> (r: bool)
    ensures
        r == (packet is ConnAck || packet is SubAck || packet is UnsubAck
            || packet is PingResp),
{
    match packet {
        Packet::ConnAck(_) => true,
        Packet::SubAck(_) => true,
        Packet::UnsubAck(_) => true,
        Packet::PingResp => true,
        _ => false,
    }
}

/// The fields of a connection that no acknowledgment handler touches.
pub open spec fn same_identity(a: &Connection, b: &Connection) -> bool {
    &&& a.client_id == b.client_id
    &&& a.uid == b.uid
    &&& a.protocol_level == b.protocol_level
    &&& a.session_expiry_interval == b.session_expiry_interval
    &&& a.receive_in_max == b.receive_in_max
    &&& a.receive_out_max == b.receive_out_max
    &&& a.max_topic_alias == b.max_topic_alias
    &&& a.keep_alive == b.keep_alive
    &&& a.last_will == b.last_will
}

/// The outbound flow-control invariant: unused quota plus in-flight
/// QoS >= 1 publishes always equals the client's receive maximum.
pub open spec fn flow_ok(c: &Connection, s: SessionView) -> bool {
    c.receive_out_quota + s.inflight.len() == c.receive_out_max
}

} // verus!
