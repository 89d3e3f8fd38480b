//! Wire codec: the MQTT variable-byte integer and the PUBREC control
//! packet, with a proved encode/decode round trip.
//!
//! Encoding is canonical: the reason code byte is present exactly when it
//! is not Success or properties follow, and the properties section is
//! present exactly when it is non-empty.

use vstd::prelude::*;

use crate::packets::{PubRec, PubRecProperties, PubRecPropertiesView, PubRecReasonCode, PubRecView};

verus! {

#[derive(Clone, Copy, PartialEq, Eq, Structural, Debug)]
pub enum EncodeError {
    PayloadTooLarge,
}

#[derive(Clone, Copy, PartialEq, Eq, Structural, Debug)]
pub enum DecodeError {
    MalformedPacket,
    InvalidPacketId,
    InvalidPubRecReasonCode(u8),
    InvalidPubRecProperty(u8),
    PacketTooLarge,
}

pub const PROP_REASON_STRING: u8 = 31u8;

pub const PROP_USER_PROPERTY: u8 = 38u8;

pub const PUBREC_HEADER: u8 = 80u8;

/// The MQTT variable-byte integer encoding of `n` (for `n` below 2^28).
pub open spec fn varint_bytes(n: nat) -> Seq<u8>
    decreases n,
{
    if n < 128 {
        seq![n as u8]
    } else {
        seq![(n % 128 + 128) as u8] + varint_bytes(n / 128)
    }
}

/// Decode a variable-byte integer from the front of `s`: the value and
/// the number of bytes consumed (at most four).
pub open spec fn spec_decode_varint(s: Seq<u8>) -> Option<(int, int)>
    decreases s.len(),
{
    if s.len() == 0 {
        None
    } else if s[0] < 128 {
        Some((s[0] as int, 1int))
    } else {
        match spec_decode_varint(s.drop_first()) {
            Some((v, c)) => {
                if c + 1 > 4 {
                    None
                } else {
                    Some(((s[0] - 128) + 128 * v, c + 1))
                }
            },
            None => None,
        }
    }
}

pub proof fn lemma_varint_len(n: nat)
    requires
        n < 0x10000000,
    ensures
        1 <= varint_bytes(n).len() <= 4,
        n < 128 ==> varint_bytes(n).len() == 1,
        128 <= n < 16384 ==> varint_bytes(n).len() == 2,
        16384 <= n < 0x200000 ==> varint_bytes(n).len() == 3,
        0x200000 <= n ==> varint_bytes(n).len() == 4,
    decreases n,
{
    if n >= 128 {
        lemma_varint_len(n / 128);
    }
}

/// Any successful variable-byte-integer decode consumes one to four
/// bytes of a non-negative value.
pub proof fn lemma_varint_consumed(s: Seq<u8>)
    ensures
        match spec_decode_varint(s) {
            Some((v, c)) => 1 <= c <= 4 && v >= 0,
            None => true,
        },
    decreases s.len(),
{
    if s.len() > 0 && s[0] >= 128 {
        lemma_varint_consumed(s.drop_first());
    }
}

/// Decoding inverts encoding, whatever follows the encoded integer.
pub proof fn lemma_varint_round_trip(n: nat, rest: Seq<u8>)
    requires
        n < 0x10000000,
    ensures
        spec_decode_varint(varint_bytes(n) + rest) == Some(
            (n as int, varint_bytes(n).len() as int),
        ),
    decreases n,
{
    lemma_varint_len(n);
    let s = varint_bytes(n) + rest;
    if n < 128 {
        assert(s[0] == n as u8);
        assert(s[0] < 128);
    } else {
        lemma_varint_round_trip(n / 128, rest);
        lemma_varint_len(n / 128);
        assert(s[0] == (n % 128 + 128) as u8);
        assert(s[0] >= 128);
        assert(s.drop_first() =~= varint_bytes(n / 128) + rest);
        assert(varint_bytes(n / 128).len() + 1 <= 4);
        assert((s[0] - 128) + 128 * (n / 128) == n);
    }
}

/// Append the variable-byte integer encoding of `n`.
pub fn write_varint(out: &mut Vec<u8>, n: u32)
    requires
        n < 0x10000000,
    ensures
        final(out)@ == old(out)@ + varint_bytes(n as nat),
{
    let ghost n0 = n as nat;
    let ghost base = out@;
    let mut rem = n;
    let ghost mut emitted: Seq<u8> = Seq::empty();
    proof {
        assert(out@ =~= base + Seq::<u8>::empty());
        assert(Seq::<u8>::empty() + varint_bytes(rem as nat) =~= varint_bytes(n0));
    }
    loop
        invariant
            rem < 0x10000000,
            base == old(out)@,
            n0 == n as nat,
            out@ == base + emitted,
            emitted + varint_bytes(rem as nat) == varint_bytes(n0),
        decreases rem,
    {
        if rem < 128 {
            out.push(rem as u8);
            proof {
                assert(varint_bytes(rem as nat) =~= seq![rem as u8]);
                assert(base + emitted.push(rem as u8) =~= (base + emitted).push(rem as u8));
                assert(emitted.push(rem as u8) =~= emitted + varint_bytes(rem as nat));
                assert(base + (emitted + varint_bytes(rem as nat)) =~= (base + emitted).push(
                    rem as u8,
                ));
            }
            return ;
        }
        let b = (rem % 128 + 128) as u8;
        out.push(b);
        proof {
            assert(varint_bytes(rem as nat) =~= seq![b] + varint_bytes((rem / 128) as nat));
            assert(emitted.push(b) + varint_bytes((rem / 128) as nat) =~= emitted + varint_bytes(
                rem as nat,
            ));
            assert(base + emitted.push(b) =~= (base + emitted).push(b));
            emitted = emitted.push(b);
        }
        rem = rem / 128;
    }
}

/// Read a variable-byte integer starting at `pos`; per
/// `spec_decode_varint` on the suffix.
pub fn read_varint(data: &[u8], pos: usize) -> (r: Option<(u32, usize)>)
    requires
        pos <= data@.len(),
    ensures
        match r {
            Some((v, c)) => {
                &&& spec_decode_varint(data@.skip(pos as int)) == Some((v as int, c as int))
                &&& 1 <= c <= 4
                &&& pos + c <= data@.len()
                &&& v < 0x10000000
            },
            None => spec_decode_varint(data@.skip(pos as int)) is None,
        },
{
    // at most four bytes: value = b0%128 + 128*(b1%128 + 128*(...))
    if pos >= data.len() {
        return None;
    }
    let b0 = data[pos];
    if b0 < 128 {
        proof {
            assert(data@.skip(pos as int)[0] == b0);
        }
        return Some((b0 as u32, 1));
    }
    if pos + 1 >= data.len() {
        proof {
            assert(data@.skip(pos as int)[0] == b0);
            assert(data@.skip(pos as int).drop_first() =~= data@.skip(pos + 1));
            assert(data@.skip(pos + 1).len() == 0);
            assert(spec_decode_varint(data@.skip(pos + 1)) is None);
        }
        return None;
    }
    let b1 = data[pos + 1];
    proof {
        assert(data@.skip(pos as int)[0] == b0);
        assert(data@.skip(pos as int).drop_first() =~= data@.skip(pos + 1));
        assert(data@.skip(pos + 1)[0] == b1);
    }
    if b1 < 128 {
        let v = (b0 - 128) as u32 + 128 * (b1 as u32);
        proof {
            assert(spec_decode_varint(data@.skip(pos + 1)) == Some((b1 as int, 1int)));
        }
        return Some((v, 2));
    }
    if pos + 2 >= data.len() {
        proof {
            assert(data@.skip(pos + 1).drop_first() =~= data@.skip(pos + 2));
            assert(data@.skip(pos + 2).len() == 0);
            assert(spec_decode_varint(data@.skip(pos + 2)) is None);
            assert(spec_decode_varint(data@.skip(pos + 1)) is None);
        }
        return None;
    }
    let b2 = data[pos + 2];
    proof {
        assert(data@.skip(pos + 1).drop_first() =~= data@.skip(pos + 2));
        assert(data@.skip(pos + 2)[0] == b2);
    }
    if b2 < 128 {
        let v = (b0 - 128) as u32 + 128 * ((b1 - 128) as u32) + 16384 * (b2 as u32);
        proof {
            assert(spec_decode_varint(data@.skip(pos + 2)) == Some((b2 as int, 1int)));
            assert(spec_decode_varint(data@.skip(pos + 1)) == Some(
                ((b1 - 128) + 128 * (b2 as int), 2int),
            ));
        }
        return Some((v, 3));
    }
    if pos + 3 >= data.len() {
        proof {
            assert(data@.skip(pos + 2).drop_first() =~= data@.skip(pos + 3));
            assert(data@.skip(pos + 3).len() == 0);
            assert(spec_decode_varint(data@.skip(pos + 3)) is None);
            assert(spec_decode_varint(data@.skip(pos + 2)) is None);
            assert(spec_decode_varint(data@.skip(pos + 1)) is None);
        }
        return None;
    }
    let b3 = data[pos + 3];
    proof {
        assert(data@.skip(pos + 2).drop_first() =~= data@.skip(pos + 3));
        assert(data@.skip(pos + 3)[0] == b3);
    }
    if b3 < 128 {
        let v = (b0 - 128) as u32 + 128 * ((b1 - 128) as u32) + 16384 * ((b2 - 128) as u32)
            + 2097152 * (b3 as u32);
        proof {
            assert(spec_decode_varint(data@.skip(pos + 3)) == Some((b3 as int, 1int)));
            assert(spec_decode_varint(data@.skip(pos + 2)) == Some(
                ((b2 - 128) + 128 * (b3 as int), 2int),
            ));
            assert(spec_decode_varint(data@.skip(pos + 1)) == Some(
                ((b1 - 128) + 128 * ((b2 - 128) + 128 * (b3 as int)), 3int),
            ));
        }
        return Some((v, 4));
    }
    proof {
        // four continuation bytes exceed the four-byte limit
        assert(data@.skip(pos + 3).drop_first() =~= data@.skip(pos + 4));
        lemma_varint_consumed(data@.skip(pos + 4));
        let s3 = spec_decode_varint(data@.skip(pos + 3));
        let s2 = spec_decode_varint(data@.skip(pos + 2));
        let s1 = spec_decode_varint(data@.skip(pos + 1));
        match spec_decode_varint(data@.skip(pos + 4)) {
            Some((v4, c4)) => {
                if c4 + 1 > 4 {
                    assert(s3 is None);
                    assert(s2 is None);
                    assert(s1 is None);
                } else {
                    assert(s3 == Some(((b3 - 128) + 128 * v4, c4 + 1)));
                    if c4 + 2 > 4 {
                        assert(s2 is None);
                        assert(s1 is None);
                    } else {
                        assert(s2 matches Some(p2) && p2.1 == c4 + 2);
                        if c4 + 3 > 4 {
                            assert(s1 is None);
                        } else {
                            assert(s1 matches Some(p1) && p1.1 == c4 + 3);
                            assert(c4 + 4 > 4);
                        }
                    }
                }
            },
            None => {
                assert(s3 is None);
                assert(s2 is None);
                assert(s1 is None);
            },
        }
    }
    None
}

/// Big-endian 16-bit value.
pub open spec fn be16(x: u16) -> Seq<u8> {
    seq![(x / 256) as u8, (x % 256) as u8]
}

/// A UTF-8 string field: 16-bit length prefix, then the bytes.
pub open spec fn str_field(s: Seq<u8>) -> Seq<u8> {
    be16(s.len() as u16) + s
}

/// The user-property entries of a PUBREC, in order.
pub open spec fn user_props_bytes(ps: Seq<(Seq<u8>, Seq<u8>)>) -> Seq<u8>
    decreases ps.len(),
{
    if ps.len() == 0 {
        Seq::empty()
    } else {
        user_props_bytes(ps.drop_last()) + (seq![PROP_USER_PROPERTY] + str_field(ps.last().0)
            + str_field(ps.last().1))
    }
}

pub open spec fn pubrec_props_bytes(p: PubRecPropertiesView) -> Seq<u8> {
    (match p.reason_string {
        Some(s) => seq![PROP_REASON_STRING] + str_field(s),
        None => Seq::empty(),
    }) + user_props_bytes(p.user_properties)
}

pub open spec fn pubrec_props_is_empty(p: PubRecPropertiesView) -> bool {
    p.reason_string is None && p.user_properties.len() == 0
}

pub open spec fn pubrec_rc_byte(rc: PubRecReasonCode) -> u8 {
    match rc {
        PubRecReasonCode::Success => 0u8,
        PubRecReasonCode::NoMatchingSubscribers => 16u8,
        PubRecReasonCode::UnspecifiedError => 128u8,
        PubRecReasonCode::ImplementationSpecificError => 131u8,
        PubRecReasonCode::NotAuthorized => 135u8,
        PubRecReasonCode::TopicNameInvalid => 144u8,
        PubRecReasonCode::PacketIdentifierInUse => 145u8,
        PubRecReasonCode::QuotaExceeded => 151u8,
        PubRecReasonCode::PayloadFormatInvalid => 153u8,
    }
}

pub open spec fn pubrec_rc_of_byte(b: u8) -> Option<PubRecReasonCode> {
    if b == 0 {
        Some(PubRecReasonCode::Success)
    } else if b == 16 {
        Some(PubRecReasonCode::NoMatchingSubscribers)
    } else if b == 128 {
        Some(PubRecReasonCode::UnspecifiedError)
    } else if b == 131 {
        Some(PubRecReasonCode::ImplementationSpecificError)
    } else if b == 135 {
        Some(PubRecReasonCode::NotAuthorized)
    } else if b == 144 {
        Some(PubRecReasonCode::TopicNameInvalid)
    } else if b == 145 {
        Some(PubRecReasonCode::PacketIdentifierInUse)
    } else if b == 151 {
        Some(PubRecReasonCode::QuotaExceeded)
    } else if b == 153 {
        Some(PubRecReasonCode::PayloadFormatInvalid)
    } else {
        None
    }
}

/// The variable header of a PUBREC (the packet has no payload).
pub open spec fn pubrec_body(v: PubRecView) -> Seq<u8> {
    be16(v.packet_id) + if pubrec_props_is_empty(v.properties) {
        if v.reason_code == PubRecReasonCode::Success {
            Seq::empty()
        } else {
            seq![pubrec_rc_byte(v.reason_code)]
        }
    } else {
        seq![pubrec_rc_byte(v.reason_code)] + varint_bytes(pubrec_props_bytes(v.properties).len())
            + pubrec_props_bytes(v.properties)
    }
}

/// The full PUBREC packet: fixed header, remaining length, body.
pub open spec fn pubrec_packet_bytes(v: PubRecView) -> Seq<u8> {
    seq![PUBREC_HEADER] + varint_bytes(pubrec_body(v).len()) + pubrec_body(v)
}

pub open spec fn empty_props_view() -> PubRecPropertiesView {
    PubRecPropertiesView { reason_string: None, user_properties: Seq::empty() }
}

/// Parse the properties section of a PUBREC: reason-string and
/// user-property entries in any order and number; a later reason string
/// replaces an earlier one; an unknown property byte fails.
pub open spec fn spec_decode_props(s: Seq<u8>) -> Result<PubRecPropertiesView, DecodeError>
    decreases s.len(),
{
    if s.len() == 0 {
        Ok(empty_props_view())
    } else if s[0] == PROP_REASON_STRING {
        if s.len() < 3 {
            Err(DecodeError::MalformedPacket)
        } else {
            let sl = s[1] as int * 256 + s[2];
            if s.len() < 3 + sl {
                Err(DecodeError::MalformedPacket)
            } else {
                match spec_decode_props(s.skip(3 + sl)) {
                    Ok(rest) => Ok(
                        PubRecPropertiesView {
                            reason_string: if rest.reason_string is Some {
                                rest.reason_string
                            } else {
                                Some(s.subrange(3, 3 + sl))
                            },
                            user_properties: rest.user_properties,
                        },
                    ),
                    Err(e) => Err(e),
                }
            }
        }
    } else if s[0] == PROP_USER_PROPERTY {
        if s.len() < 3 {
            Err(DecodeError::MalformedPacket)
        } else {
            let kl = s[1] as int * 256 + s[2];
            if s.len() < 3 + kl + 2 {
                Err(DecodeError::MalformedPacket)
            } else {
                let vl = s[3 + kl] as int * 256 + s[4 + kl];
                if s.len() < 5 + kl + vl {
                    Err(DecodeError::MalformedPacket)
                } else {
                    match spec_decode_props(s.skip(5 + kl + vl)) {
                        Ok(rest) => Ok(
                            PubRecPropertiesView {
                                reason_string: rest.reason_string,
                                user_properties: seq![
                                    (s.subrange(3, 3 + kl), s.subrange(5 + kl, 5 + kl + vl)),
                                ] + rest.user_properties,
                            },
                        ),
                        Err(e) => Err(e),
                    }
                }
            }
        }
    } else {
        Err(DecodeError::InvalidPubRecProperty(s[0]))
    }
}

/// Parse the variable header of a PUBREC (after the fixed header and
/// remaining length): packet identifier (non-zero), optional reason code,
/// optional properties section whose declared length must cover the rest.
pub open spec fn spec_decode_pubrec(s: Seq<u8>) -> Result<PubRecView, DecodeError> {
    if s.len() < 2 {
        Err(DecodeError::MalformedPacket)
    } else {
        let pid = s[0] as int * 256 + s[1];
        if pid == 0 {
            Err(DecodeError::InvalidPacketId)
        } else if s.len() == 2 {
            Ok(
                PubRecView {
                    packet_id: pid as u16,
                    reason_code: PubRecReasonCode::Success,
                    properties: empty_props_view(),
                },
            )
        } else {
            match pubrec_rc_of_byte(s[2]) {
                None => Err(DecodeError::InvalidPubRecReasonCode(s[2])),
                Some(rc) => {
                    if s.len() == 3 {
                        Ok(
                            PubRecView {
                                packet_id: pid as u16,
                                reason_code: rc,
                                properties: empty_props_view(),
                            },
                        )
                    } else {
                        match spec_decode_varint(s.skip(3)) {
                            None => Err(DecodeError::MalformedPacket),
                            Some((plen, c)) => {
                                if s.len() - 3 - c != plen {
                                    Err(DecodeError::MalformedPacket)
                                } else {
                                    match spec_decode_props(s.skip(3 + c)) {
                                        Ok(pr) => Ok(
                                            PubRecView {
                                                packet_id: pid as u16,
                                                reason_code: rc,
                                                properties: pr,
                                            },
                                        ),
                                        Err(e) => Err(e),
                                    }
                                }
                            },
                        }
                    }
                },
            }
        }
    }
}

/// Parse a whole PUBREC packet: fixed header byte, remaining length that
/// must cover the rest exactly, then the variable header.
pub open spec fn spec_decode_pubrec_packet(s: Seq<u8>) -> Result<PubRecView, DecodeError> {
    if s.len() < 2 || s[0] != PUBREC_HEADER {
        Err(DecodeError::MalformedPacket)
    } else {
        match spec_decode_varint(s.skip(1)) {
            None => Err(DecodeError::MalformedPacket),
            Some((rl, c)) => {
                if s.len() - 1 - c != rl {
                    Err(DecodeError::MalformedPacket)
                } else {
                    spec_decode_pubrec(s.skip(1 + c))
                }
            },
        }
    }
}

/// An encodable PUBREC: a non-zero packet identifier, string fields that
/// fit their 16-bit length prefixes, and a properties section below the
/// variable-byte-integer limit.
pub open spec fn pubrec_view_wf(v: PubRecView) -> bool {
    &&& v.packet_id != 0
    &&& match v.properties.reason_string {
        Some(s) => s.len() <= 0xffff,
        None => true,
    }
    &&& forall|i: int| 0 <= i < v.properties.user_properties.len() ==> (
    #[trigger] v.properties.user_properties[i]).0.len() <= 0xffff
        && v.properties.user_properties[i].1.len() <= 0xffff
    &&& pubrec_props_bytes(v.properties).len() < 0x0fffff00
}


/// Append a byte slice.
fn push_bytes(out: &mut Vec<u8>, s: &[u8])
    ensures
        final(out)@ == old(out)@ + s@,
{
    let ghost base = out@;
    let mut i: usize = 0;
    while i < s.len()
        invariant
            i <= s@.len(),
            base == old(out)@,
            out@ == base + s@.take(i as int),
        decreases s@.len() - i,
    {
        out.push(s[i]);
        proof {
            assert(base + s@.take(i + 1) =~= (base + s@.take(i as int)).push(s@[i as int]));
        }
        i += 1;
    }
    proof {
        assert(s@.take(s@.len() as int) =~= s@);
    }
}

/// A copy of `data[a..b]`.
fn copy_range(data: &[u8], a: usize, b: usize) -> (r: Vec<u8>)
    requires
        a <= b <= data@.len(),
    ensures
        r@ == data@.subrange(a as int, b as int),
{
    let mut r: Vec<u8> = Vec::new();
    let mut i: usize = a;
    while i < b
        invariant
            a <= i <= b <= data@.len(),
            r@.len() == i - a,
            forall|j: int| 0 <= j < r@.len() ==> r@[j] == data@[a + j],
        decreases b - i,
    {
        r.push(data[i]);
        i += 1;
    }
    proof {
        assert(r@ =~= data@.subrange(a as int, b as int));
    }
    r
}

fn rc_to_byte(rc: PubRecReasonCode) -> (r: u8)
    ensures
        r == pubrec_rc_byte(rc),
{
    match rc {
        PubRecReasonCode::Success => 0,
        PubRecReasonCode::NoMatchingSubscribers => 16,
        PubRecReasonCode::UnspecifiedError => 128,
        PubRecReasonCode::ImplementationSpecificError => 131,
        PubRecReasonCode::NotAuthorized => 135,
        PubRecReasonCode::TopicNameInvalid => 144,
        PubRecReasonCode::PacketIdentifierInUse => 145,
        PubRecReasonCode::QuotaExceeded => 151,
        PubRecReasonCode::PayloadFormatInvalid => 153,
    }
}

fn rc_from_byte(b: u8) -> (r: Option<PubRecReasonCode>)
    ensures
        r == pubrec_rc_of_byte(b),
{
    if b == 0 {
        Some(PubRecReasonCode::Success)
    } else if b == 16 {
        Some(PubRecReasonCode::NoMatchingSubscribers)
    } else if b == 128 {
        Some(PubRecReasonCode::UnspecifiedError)
    } else if b == 131 {
        Some(PubRecReasonCode::ImplementationSpecificError)
    } else if b == 135 {
        Some(PubRecReasonCode::NotAuthorized)
    } else if b == 144 {
        Some(PubRecReasonCode::TopicNameInvalid)
    } else if b == 145 {
        Some(PubRecReasonCode::PacketIdentifierInUse)
    } else if b == 151 {
        Some(PubRecReasonCode::QuotaExceeded)
    } else if b == 153 {
        Some(PubRecReasonCode::PayloadFormatInvalid)
    } else {
        None
    }
}

fn encode_pubrec_props(props: &PubRecProperties) -> (r: Vec<u8>)
    requires
        match props@.reason_string {
            Some(s) => s.len() <= 0xffff,
            None => true,
        },
        forall|i: int| 0 <= i < props@.user_properties.len() ==> (
        #[trigger] props@.user_properties[i]).0.len() <= 0xffff
            && props@.user_properties[i].1.len() <= 0xffff,
    ensures
        r@ == pubrec_props_bytes(props@),
{
    let mut out: Vec<u8> = Vec::new();
    match &props.reason_string {
        Some(sv) => {
            out.push(PROP_REASON_STRING);
            out.push((sv.len() / 256) as u8);
            out.push((sv.len() % 256) as u8);
            push_bytes(&mut out, sv.as_slice());
            proof {
                assert(out@ =~= seq![PROP_REASON_STRING] + str_field(sv@));
            }
        },
        None => {
            proof {
                assert(out@ =~= Seq::<u8>::empty());
            }
        },
    }
    let ghost prefix = out@;
    let ghost ups = props@.user_properties;
    let mut i: usize = 0;
    proof {
        assert(user_props_bytes(ups.take(0)) =~= Seq::<u8>::empty());
        assert(out@ =~= prefix + user_props_bytes(ups.take(0)));
    }
    while i < props.user_properties.len()
        invariant
            i <= ups.len(),
            ups == props@.user_properties,
            forall|x: int| 0 <= x < ups.len() ==> (#[trigger] ups[x]).0.len() <= 0xffff
                && ups[x].1.len() <= 0xffff,
            prefix == match props@.reason_string {
                Some(s) => seq![PROP_REASON_STRING] + str_field(s),
                None => Seq::<u8>::empty(),
            },
            out@ == prefix + user_props_bytes(ups.take(i as int)),
        decreases ups.len() - i,
    {
        let ghost out_pre = out@;
        let k = &props.user_properties[i].0;
        let v = &props.user_properties[i].1;
        out.push(PROP_USER_PROPERTY);
        out.push((k.len() / 256) as u8);
        out.push((k.len() % 256) as u8);
        push_bytes(&mut out, k.as_slice());
        out.push((v.len() / 256) as u8);
        out.push((v.len() % 256) as u8);
        push_bytes(&mut out, v.as_slice());
        proof {
            assert(ups.take(i + 1).drop_last() =~= ups.take(i as int));
            assert(ups.take(i + 1).last() == ups[i as int]);
            assert(out@ =~= out_pre + (seq![PROP_USER_PROPERTY] + str_field(ups[i as int].0)
                + str_field(ups[i as int].1)));
            assert(out@ =~= prefix + user_props_bytes(ups.take(i + 1)));
        }
        i += 1;
    }
    proof {
        assert(ups.take(ups.len() as int) =~= ups);
    }
    out
}

proof fn lemma_user_props_nonempty(ps: Seq<(Seq<u8>, Seq<u8>)>)
    ensures
        ps.len() == 0 ==> user_props_bytes(ps).len() == 0,
        ps.len() > 0 ==> user_props_bytes(ps).len() >= 5,
    decreases ps.len(),
{
    if ps.len() > 0 {
        lemma_user_props_nonempty(ps.drop_last());
    }
}

/// The properties section is empty exactly when there are no properties.
pub proof fn lemma_props_bytes_empty(p: PubRecPropertiesView)
    ensures
        pubrec_props_is_empty(p) <==> pubrec_props_bytes(p).len() == 0,
{
    lemma_user_props_nonempty(p.user_properties);
}

/// Encode a full PUBREC packet, enforcing the outbound size limit.
pub fn encode_pubrec(p: &PubRec, max_size: usize) -> (r: Result<Vec<u8>, EncodeError>)
    requires
        pubrec_view_wf(p@),
    ensures
        match r {
            Ok(d) => d@ == pubrec_packet_bytes(p@) && d@.len() <= max_size,
            Err(e) => e == EncodeError::PayloadTooLarge && pubrec_packet_bytes(p@).len()
                > max_size,
        },
{
    let props = encode_pubrec_props(&p.properties);
    proof {
        lemma_props_bytes_empty(p@.properties);
    }
    let mut body: Vec<u8> = Vec::new();
    body.push((p.packet_id / 256) as u8);
    body.push((p.packet_id % 256) as u8);
    let is_success = match p.reason_code {
        PubRecReasonCode::Success => true,
        _ => false,
    };
    if !is_success || props.len() > 0 {
        body.push(rc_to_byte(p.reason_code));
    }
    if props.len() > 0 {
        write_varint(&mut body, props.len() as u32);
        push_bytes(&mut body, props.as_slice());
    }
    proof {
        assert(body@ =~= pubrec_body(p@));
        lemma_varint_len(pubrec_props_bytes(p@.properties).len());
    }
    let mut out: Vec<u8> = Vec::new();
    out.push(PUBREC_HEADER);
    write_varint(&mut out, body.len() as u32);
    push_bytes(&mut out, body.as_slice());
    proof {
        assert(out@ =~= pubrec_packet_bytes(p@));
    }
    if out.len() > max_size {
        Err(EncodeError::PayloadTooLarge)
    } else {
        Ok(out)
    }
}


/// The merge of already-parsed properties with those still to parse: a
/// reason string later in the stream wins; user properties concatenate.
pub open spec fn spec_merge_props(
    rs: Option<Seq<u8>>,
    ups: Seq<(Seq<u8>, Seq<u8>)>,
    rest: Result<PubRecPropertiesView, DecodeError>,
) -> Result<PubRecPropertiesView, DecodeError> {
    match rest {
        Ok(p) => Ok(
            PubRecPropertiesView {
                reason_string: if p.reason_string is Some {
                    p.reason_string
                } else {
                    rs
                },
                user_properties: ups + p.user_properties,
            },
        ),
        Err(e) => Err(e),
    }
}

/// Parse the properties section found at `data[start..]`.
#[verifier::rlimit(50)]
fn decode_props(data: &[u8], start: usize) -> (r: Result<PubRecProperties, DecodeError>)
    requires
        start <= data@.len(),
    ensures
        match r {
            Ok(pr) => spec_decode_props(data@.skip(start as int)) == Ok::<
                PubRecPropertiesView,
                DecodeError,
            >(pr@),
            Err(e) => spec_decode_props(data@.skip(start as int)) == Err::<
                PubRecPropertiesView,
                DecodeError,
            >(e),
        },
{
    let ghost s0 = data@.skip(start as int);
    let mut rs: Option<Vec<u8>> = None;
    let mut ups: Vec<(Vec<u8>, Vec<u8>)> = Vec::new();
    let mut pos = start;
    proof {
        assert(crate::bytes_util::pairs_view(ups@) =~= Seq::<(Seq<u8>, Seq<u8>)>::empty());
        let rest = spec_decode_props(data@.skip(start as int));
        match rest {
            Ok(p) => {
                assert(Seq::<(Seq<u8>, Seq<u8>)>::empty() + p.user_properties
                    =~= p.user_properties);
            },
            Err(_) => {
            },
        }
    }
    while pos < data.len()
        invariant
            start <= pos <= data@.len(),
            s0 == data@.skip(start as int),
            spec_decode_props(s0) == spec_merge_props(
                crate::bytes_util::opt_bytes_view(rs),
                crate::bytes_util::pairs_view(ups@),
                spec_decode_props(data@.skip(pos as int)),
            ),
        decreases data@.len() - pos,
    {
        let ghost sp = data@.skip(pos as int);
        let ghost rs_pre = crate::bytes_util::opt_bytes_view(rs);
        let ghost ups_pre = crate::bytes_util::pairs_view(ups@);
        let flag = data[pos];
        proof {
            assert(sp[0] == flag);
        }
        if flag == PROP_REASON_STRING {
            if data.len() - pos < 3 {
                return Err(DecodeError::MalformedPacket);
            }
            let sl = (data[pos + 1] as usize) * 256 + data[pos + 2] as usize;
            proof {
                assert(sp[1] == data@[pos + 1]);
                assert(sp[2] == data@[pos + 2]);
            }
            if data.len() - pos - 3 < sl {
                return Err(DecodeError::MalformedPacket);
            }
            let sv = copy_range(data, pos + 3, pos + 3 + sl);
            proof {
                assert(sv@ =~= sp.subrange(3, 3 + sl as int));
                assert(data@.skip(pos + 3 + sl as int) =~= sp.skip(3 + sl as int));
            }
            rs = Some(sv);
            pos = pos + 3 + sl;
            proof {
                let rest2 = spec_decode_props(data@.skip(pos as int));
                match rest2 {
                    Ok(p2) => {
                        assert(spec_decode_props(sp) == spec_merge_props(
                            None,
                            Seq::empty(),
                            Ok::<PubRecPropertiesView, DecodeError>(
                                PubRecPropertiesView {
                                    reason_string: if p2.reason_string is Some {
                                        p2.reason_string
                                    } else {
                                        Some(sp.subrange(3, 3 + sl as int))
                                    },
                                    user_properties: p2.user_properties,
                                },
                            ),
                        ));
                        assert(spec_merge_props(rs_pre, ups_pre, spec_decode_props(sp))
                            == spec_merge_props(
                            crate::bytes_util::opt_bytes_view(rs),
                            crate::bytes_util::pairs_view(ups@),
                            rest2,
                        ));
                    },
                    Err(_) => {
                    },
                }
            }
        } else if flag == PROP_USER_PROPERTY {
            if data.len() - pos < 3 {
                return Err(DecodeError::MalformedPacket);
            }
            let kl = (data[pos + 1] as usize) * 256 + data[pos + 2] as usize;
            proof {
                assert(sp[1] == data@[pos + 1]);
                assert(sp[2] == data@[pos + 2]);
            }
            if data.len() - pos - 3 < kl + 2 {
                return Err(DecodeError::MalformedPacket);
            }
            let vl = (data[pos + 3 + kl] as usize) * 256 + data[pos + 4 + kl] as usize;
            proof {
                assert(sp[3 + kl as int] == data@[pos + 3 + kl as int]);
                assert(sp[4 + kl as int] == data@[pos + 4 + kl as int]);
            }
            if data.len() - pos - 5 - kl < vl {
                return Err(DecodeError::MalformedPacket);
            }
            let kv = copy_range(data, pos + 3, pos + 3 + kl);
            let vv = copy_range(data, pos + 5 + kl, pos + 5 + kl + vl);
            proof {
                assert(kv@ =~= sp.subrange(3, 3 + kl as int));
                assert(vv@ =~= sp.subrange(5 + kl as int, 5 + kl + vl as int));
                assert(data@.skip(pos + 5 + kl + vl as int) =~= sp.skip(5 + kl + vl as int));
            }
            ups.push((kv, vv));
            pos = pos + 5 + kl + vl;
            proof {
                let rest2 = spec_decode_props(data@.skip(pos as int));
                assert(crate::bytes_util::pairs_view(ups@) =~= ups_pre.push(
                    (sp.subrange(3, 3 + kl as int), sp.subrange(5 + kl as int, 5 + kl + vl as int)),
                ));
                match rest2 {
                    Ok(p2) => {
                        assert(ups_pre + (seq![
                            (
                                sp.subrange(3, 3 + kl as int),
                                sp.subrange(5 + kl as int, 5 + kl + vl as int),
                            ),
                        ] + p2.user_properties) =~= crate::bytes_util::pairs_view(ups@)
                            + p2.user_properties);
                        assert(spec_merge_props(rs_pre, ups_pre, spec_decode_props(sp))
                            == spec_merge_props(
                            crate::bytes_util::opt_bytes_view(rs),
                            crate::bytes_util::pairs_view(ups@),
                            rest2,
                        ));
                    },
                    Err(_) => {
                    },
                }
            }
        } else {
            return Err(DecodeError::InvalidPubRecProperty(flag));
        }
    }
    proof {
        assert(data@.skip(pos as int).len() == 0);
        assert(spec_decode_props(data@.skip(pos as int)) == Ok::<
            PubRecPropertiesView,
            DecodeError,
        >(empty_props_view()));
    }
    let r = PubRecProperties { reason_string: rs, user_properties: ups };
    proof {
        assert(crate::bytes_util::pairs_view(r.user_properties@) + Seq::<(
            Seq<u8>,
            Seq<u8>,
        )>::empty() =~= crate::bytes_util::pairs_view(r.user_properties@));
        assert(spec_decode_props(s0) == Ok::<PubRecPropertiesView, DecodeError>(r@));
    }
    Ok(r)
}

/// Parse the variable header of a PUBREC found at `data[start..]`.
fn decode_pubrec_from(data: &[u8], start: usize) -> (r: Result<PubRec, DecodeError>)
    requires
        start <= data@.len(),
    ensures
        match r {
            Ok(pr) => spec_decode_pubrec(data@.skip(start as int)) == Ok::<
                PubRecView,
                DecodeError,
            >(pr@),
            Err(e) => spec_decode_pubrec(data@.skip(start as int)) == Err::<
                PubRecView,
                DecodeError,
            >(e),
        },
{
    let ghost s = data@.skip(start as int);
    if data.len() - start < 2 {
        return Err(DecodeError::MalformedPacket);
    }
    let packet_id = (data[start] as u16) * 256 + data[start + 1] as u16;
    proof {
        assert(s[0] == data@[start as int]);
        assert(s[1] == data@[start + 1]);
    }
    if packet_id == 0 {
        return Err(DecodeError::InvalidPacketId);
    }
    if data.len() - start == 2 {
        return Ok(
            PubRec {
                packet_id,
                reason_code: PubRecReasonCode::Success,
                properties: PubRecProperties::empty(),
            },
        );
    }
    proof {
        assert(s[2] == data@[start + 2]);
    }
    let rc = match rc_from_byte(data[start + 2]) {
        Some(rc) => rc,
        None => {
            return Err(DecodeError::InvalidPubRecReasonCode(data[start + 2]));
        },
    };
    if data.len() - start == 3 {
        return Ok(PubRec { packet_id, reason_code: rc, properties: PubRecProperties::empty() });
    }
    proof {
        assert(data@.skip(start + 3) =~= s.skip(3));
    }
    let (plen, c) = match read_varint(data, start + 3) {
        Some(x) => x,
        None => {
            return Err(DecodeError::MalformedPacket);
        },
    };
    if data.len() - start - 3 - c != plen as usize {
        return Err(DecodeError::MalformedPacket);
    }
    proof {
        assert(data@.skip(start + 3 + c as int) =~= s.skip(3 + c as int));
    }
    match decode_props(data, start + 3 + c) {
        Ok(properties) => Ok(PubRec { packet_id, reason_code: rc, properties }),
        Err(e) => Err(e),
    }
}

/// Parse a whole PUBREC packet, enforcing the inbound size limit.
pub fn decode_pubrec_packet(data: &[u8], max_size: usize) -> (r: Result<PubRec, DecodeError>)
    ensures
        data@.len() > max_size ==> r == Err::<PubRec, DecodeError>(DecodeError::PacketTooLarge),
        data@.len() <= max_size ==> match r {
            Ok(pr) => spec_decode_pubrec_packet(data@) == Ok::<PubRecView, DecodeError>(pr@),
            Err(e) => spec_decode_pubrec_packet(data@) == Err::<PubRecView, DecodeError>(e),
        },
{
    if data.len() > max_size {
        return Err(DecodeError::PacketTooLarge);
    }
    if data.len() < 2 {
        return Err(DecodeError::MalformedPacket);
    }
    if data[0] != PUBREC_HEADER {
        return Err(DecodeError::MalformedPacket);
    }
    let (rl, c) = match read_varint(data, 1) {
        Some(x) => x,
        None => {
            return Err(DecodeError::MalformedPacket);
        },
    };
    if data.len() - 1 - c != rl as usize {
        return Err(DecodeError::MalformedPacket);
    }
    decode_pubrec_from(data, 1 + c)
}


proof fn lemma_ups_front(ps: Seq<(Seq<u8>, Seq<u8>)>)
    requires
        ps.len() > 0,
    ensures
        user_props_bytes(ps) =~= (seq![PROP_USER_PROPERTY] + str_field(ps[0].0) + str_field(
            ps[0].1,
        )) + user_props_bytes(ps.drop_first()),
    decreases ps.len(),
{
    if ps.len() == 1 {
        assert(ps.drop_last().len() == 0);
        assert(user_props_bytes(ps.drop_last()) =~= Seq::<u8>::empty());
        assert(ps.drop_first().len() == 0);
        assert(user_props_bytes(ps.drop_first()) =~= Seq::<u8>::empty());
        assert(ps.last() == ps[0]);
    } else {
        lemma_ups_front(ps.drop_last());
        assert(ps.drop_last()[0] == ps[0]);
        assert(ps.drop_last().drop_first() =~= ps.drop_first().drop_last());
        assert(ps.drop_first().last() == ps.last());
        assert(user_props_bytes(ps.drop_first()) =~= user_props_bytes(ps.drop_first().drop_last())
            + (seq![PROP_USER_PROPERTY] + str_field(ps.last().0) + str_field(ps.last().1)));
    }
}

proof fn lemma_ups_round_trip(u: Seq<(Seq<u8>, Seq<u8>)>)
    requires
        forall|i: int| 0 <= i < u.len() ==> (#[trigger] u[i]).0.len() <= 0xffff && u[i].1.len()
            <= 0xffff,
    ensures
        spec_decode_props(user_props_bytes(u)) == Ok::<PubRecPropertiesView, DecodeError>(
            PubRecPropertiesView { reason_string: None, user_properties: u },
        ),
    decreases u.len(),
{
    if u.len() == 0 {
        assert(user_props_bytes(u).len() == 0);
        assert(empty_props_view() =~= (PubRecPropertiesView {
            reason_string: None,
            user_properties: u,
        }));
    } else {
        lemma_ups_front(u);
        lemma_ups_round_trip(u.drop_first());
        let k = u[0].0;
        let v = u[0].1;
        let entry = seq![PROP_USER_PROPERTY] + str_field(k) + str_field(v);
        let s = user_props_bytes(u);
        let kl = k.len() as int;
        let vl = v.len() as int;
        assert(s =~= entry + user_props_bytes(u.drop_first()));
        assert(s[0] == PROP_USER_PROPERTY);
        assert(s.len() >= 5 + kl + vl);
        assert(s[1] == (k.len() as u16 / 256) as u8);
        assert(s[2] == (k.len() as u16 % 256) as u8);
        assert(s[1] as int * 256 + s[2] == kl);
        assert(forall|i: int| 0 <= i < kl ==> s[3 + i] == k[i]);
        assert(s[3 + kl] as int * 256 + s[4 + kl] == vl) by {
            assert(s[3 + kl] == (v.len() as u16 / 256) as u8);
            assert(s[4 + kl] == (v.len() as u16 % 256) as u8);
        }
        assert(s.subrange(3, 3 + kl) =~= k);
        assert(s.subrange(5 + kl, 5 + kl + vl) =~= v);
        assert(s.skip(5 + kl + vl) =~= user_props_bytes(u.drop_first()));
        assert(seq![(k, v)] + u.drop_first() =~= u);
        assert(spec_decode_props(s) == Ok::<PubRecPropertiesView, DecodeError>(
            PubRecPropertiesView { reason_string: None, user_properties: u },
        ));
    }
}

proof fn lemma_props_round_trip(p: PubRecPropertiesView)
    requires
        match p.reason_string {
            Some(s) => s.len() <= 0xffff,
            None => true,
        },
        forall|i: int| 0 <= i < p.user_properties.len() ==> (
        #[trigger] p.user_properties[i]).0.len() <= 0xffff && p.user_properties[i].1.len()
            <= 0xffff,
    ensures
        spec_decode_props(pubrec_props_bytes(p)) == Ok::<PubRecPropertiesView, DecodeError>(p),
{
    lemma_ups_round_trip(p.user_properties);
    let s = pubrec_props_bytes(p);
    match p.reason_string {
        Some(rs) => {
            let sl = rs.len() as int;
            assert(s =~= (seq![PROP_REASON_STRING] + str_field(rs)) + user_props_bytes(
                p.user_properties,
            ));
            assert(s[0] == PROP_REASON_STRING);
            assert(s.len() >= 3 + sl);
            assert(s[1] as int * 256 + s[2] == sl) by {
                assert(s[1] == (rs.len() as u16 / 256) as u8);
                assert(s[2] == (rs.len() as u16 % 256) as u8);
            }
            assert(s.subrange(3, 3 + sl) =~= rs);
            assert(s.skip(3 + sl) =~= user_props_bytes(p.user_properties));
            assert(spec_decode_props(s) == Ok::<PubRecPropertiesView, DecodeError>(
                PubRecPropertiesView { reason_string: Some(rs), user_properties: p.user_properties },
            ));
            assert((PubRecPropertiesView {
                reason_string: Some(rs),
                user_properties: p.user_properties,
            }) =~= p);
        },
        None => {
            assert(s =~= user_props_bytes(p.user_properties));
            assert((PubRecPropertiesView {
                reason_string: None,
                user_properties: p.user_properties,
            }) =~= p);
        },
    }
}

proof fn lemma_rc_byte_inverse(rc: PubRecReasonCode)
    ensures
        pubrec_rc_of_byte(pubrec_rc_byte(rc)) == Some(rc),
{
}

/// Decoding an encoded PUBREC variable header gives the packet back.
pub proof fn lemma_pubrec_round_trip(v: PubRecView)
    requires
        pubrec_view_wf(v),
    ensures
        spec_decode_pubrec(pubrec_body(v)) == Ok::<PubRecView, DecodeError>(v),
{
    let s = pubrec_body(v);
    lemma_rc_byte_inverse(v.reason_code);
    lemma_props_bytes_empty(v.properties);
    assert(s[0] == (v.packet_id / 256) as u8);
    assert(s[1] == (v.packet_id % 256) as u8);
    assert(s[0] as int * 256 + s[1] == v.packet_id);
    if pubrec_props_is_empty(v.properties) {
        if v.reason_code == PubRecReasonCode::Success {
            assert(s.len() == 2);
            assert(empty_props_view() =~= v.properties);
        } else {
            assert(s.len() == 3);
            assert(s[2] == pubrec_rc_byte(v.reason_code));
            assert(empty_props_view() =~= v.properties);
        }
    } else {
        let pb = pubrec_props_bytes(v.properties);
        let plen = pb.len();
        lemma_varint_len(plen);
        lemma_varint_round_trip(plen, pb);
        lemma_props_round_trip(v.properties);
        assert(s =~= be16(v.packet_id) + (seq![pubrec_rc_byte(v.reason_code)] + varint_bytes(plen)
            + pb));
        assert(s.len() > 3);
        assert(s[2] == pubrec_rc_byte(v.reason_code));
        assert(s.skip(3) =~= varint_bytes(plen) + pb);
        let c = varint_bytes(plen).len() as int;
        assert(spec_decode_varint(s.skip(3)) == Some((plen as int, c)));
        assert(s.len() - 3 - c == plen);
        assert(s.skip(3 + c) =~= pb);
    }
}

/// Decoding an encoded PUBREC packet gives the packet back: the
/// encode/decode round trip, over the whole wire form.
pub proof fn lemma_pubrec_packet_round_trip(v: PubRecView)
    requires
        pubrec_view_wf(v),
    ensures
        spec_decode_pubrec_packet(pubrec_packet_bytes(v)) == Ok::<PubRecView, DecodeError>(v),
{
    let s = pubrec_packet_bytes(v);
    let body = pubrec_body(v);
    lemma_pubrec_round_trip(v);
    lemma_props_bytes_empty(v.properties);
    assert(body.len() < 0x10000000) by {
        if !pubrec_props_is_empty(v.properties) {
            lemma_varint_len(pubrec_props_bytes(v.properties).len());
        }
    }
    lemma_varint_len(body.len());
    lemma_varint_round_trip(body.len(), body);
    assert(s[0] == PUBREC_HEADER);
    assert(s.len() >= 2) by {
        assert(body.len() >= 2);
    }
    assert(s.skip(1) =~= varint_bytes(body.len()) + body);
    let c = varint_bytes(body.len()).len() as int;
    assert(spec_decode_varint(s.skip(1)) == Some((body.len() as int, c)));
    assert(s.len() - 1 - c == body.len());
    assert(s.skip(1 + c) =~= body);
}

} // verus!
