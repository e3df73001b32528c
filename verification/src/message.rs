//! The message framer: a length-prefixed envelope holding a fixed header and
//! a sequence of attribute records, read and written under strict length
//! invariants. The length field of an outbound message is computed, never
//! trusted; an inbound attribute that would read past the message boundary is
//! a decode error; a declared length above a hard ceiling is rejected before
//! any body byte is read.

use crate::address::addr_decode_spec;
use crate::address::addr_wire;
use crate::address::addr_wire_len;
use crate::address::encodable;
use crate::address::Address;
use crate::error::Error;
use vstd::prelude::*;

verus! {

/// The request/answer bit of the message flags byte.
pub const REQUEST_FLAG: u8 = 0x80;

/// The attribute flags bit that announces a vendor qualifier.
pub const VENDOR_FLAG: u8 = 0x80;

/// The hard ceiling on a declared message length: one mebibyte, a defensive
/// cap against resource exhaustion by a malicious or corrupt peer.
pub const MAX_MESSAGE_LENGTH: u32 = 1024 * 1024;

/// The largest length the envelope's 24-bit length field can declare.
pub const MAX_WIRE_LENGTH: u32 = 0xffffff;

/// Bytes of the fixed message header, the 4-byte length prefix included.
pub const HEADER_LENGTH: u32 = 21;

/// An attribute record: a type code, an optional vendor qualifier, a flags
/// byte and a typed value. `flags` holds every bit but the vendor bit, which
/// the wire derives from the presence of `vendor_id`.
#[derive(Clone, Debug, PartialEq, Eq)]
pub struct Avp {
    pub code: u32,
    pub vendor_id: Option<u32>,
    pub flags: u8,
    pub value: Address,
}

/// A protocol message: the header fields and the ordered attribute records.
/// The hop-by-hop id is the correlation id that matches a response to the
/// request awaiting it.
#[derive(Clone, Debug, PartialEq, Eq)]
pub struct DiameterMessage {
    pub command_code: u32,
    pub application_id: u32,
    pub flags: u8,
    pub hop_by_hop_id: u32,
    pub end_to_end_id: u32,
    pub avps: Vec<Avp>,
}

/// The mathematical model of a message: the same header fields with the
/// attribute records as a sequence.
pub struct MessageView {
    pub command_code: u32,
    pub application_id: u32,
    pub flags: u8,
    pub hop_by_hop_id: u32,
    pub end_to_end_id: u32,
    pub avps: Seq<Avp>,
}

impl View for DiameterMessage {
    type V = MessageView;

    open spec fn view(&self) -> MessageView {
        MessageView {
            command_code: self.command_code,
            application_id: self.application_id,
            flags: self.flags,
            hop_by_hop_id: self.hop_by_hop_id,
            end_to_end_id: self.end_to_end_id,
            avps: self.avps@,
        }
    }
}

/// The four big-endian wire bytes of a 32-bit field.
pub open spec fn be32(x: u32) -> Seq<u8> {
    seq![
        ((x >> 24) & 0xff) as u8,
        ((x >> 16) & 0xff) as u8,
        ((x >> 8) & 0xff) as u8,
        (x & 0xff) as u8,
    ]
}

/// A 32-bit field read back from its four big-endian wire bytes.
pub open spec fn u32_of_be(b0: u8, b1: u8, b2: u8, b3: u8) -> u32 {
    ((b0 as u32) << 24) | ((b1 as u32) << 16) | ((b2 as u32) << 8) | (b3 as u32)
}

/// The 24-bit declared length read back from the low three bytes of the
/// length prefix; the high byte is reserved and ignored.
pub open spec fn u24_of_be(b1: u8, b2: u8, b3: u8) -> u32 {
    ((b1 as u32) << 16) | ((b2 as u32) << 8) | (b3 as u32)
}

/// The flags byte an attribute puts on the wire: the stored bits, with the
/// vendor bit set exactly when a vendor qualifier is present, whatever the
/// stored byte holds — so every emitted record is self-consistent.
pub open spec fn wire_flags(a: Avp) -> u8 {
    if a.vendor_id is Some {
        a.flags | VENDOR_FLAG
    } else {
        a.flags & 0x7f
    }
}

/// Bytes of an attribute record's header: code, flags, length, and the
/// vendor qualifier when present.
pub open spec fn avp_header_len(a: Avp) -> int {
    if a.vendor_id is Some {
        13
    } else {
        9
    }
}

/// The length an attribute record declares: header bytes plus value bytes.
pub open spec fn avp_wire_len(a: Avp) -> int {
    avp_header_len(a) + addr_wire_len(a.value.0)
}

/// The exact bytes of one attribute record on the wire.
pub open spec fn avp_wire(a: Avp) -> Seq<u8> {
    be32(a.code) + seq![wire_flags(a)] + be32(avp_wire_len(a) as u32) + (match a.vendor_id {
        Some(v) => be32(v),
        None => Seq::empty(),
    }) + addr_wire(a.value.0)
}

/// The concatenated wire bytes of a sequence of attribute records.
pub open spec fn avps_wire(s: Seq<Avp>) -> Seq<u8>
    decreases s.len(),
{
    if s.len() == 0 {
        Seq::empty()
    } else {
        avp_wire(s[0]) + avps_wire(s.drop_first())
    }
}

/// The total byte length a message occupies on the wire.
pub open spec fn msg_wire_len(m: MessageView) -> int {
    HEADER_LENGTH + avps_wire(m.avps).len()
}

/// Whether the message can be put on the wire: every attribute value has an
/// encoding, and the total length fits the 24-bit length field.
pub open spec fn msg_encodable(m: MessageView) -> bool {
    &&& forall|i: int| 0 <= i < m.avps.len() ==> encodable(#[trigger] m.avps[i].value.0)
    &&& msg_wire_len(m) <= MAX_WIRE_LENGTH
}

/// The exact bytes of a whole message: the computed length (high byte zero),
/// the header fields, then each attribute record in order.
pub open spec fn msg_wire(m: MessageView) -> Seq<u8> {
    let len = msg_wire_len(m) as u32;
    seq![0u8, ((len >> 16) & 0xff) as u8, ((len >> 8) & 0xff) as u8, (len & 0xff) as u8]
        + be32(m.command_code) + be32(m.application_id) + seq![m.flags] + be32(m.hop_by_hop_id)
        + be32(m.end_to_end_id) + avps_wire(m.avps)
}

/// What parsing one attribute record at `pos` yields: the record and the
/// position just past it, or the exact error owed to the bytes. A record
/// whose declared length is shorter than its own header or reaches past the
/// end of the message is refused.
pub open spec fn parse_avp_at(b: Seq<u8>, pos: int) -> Result<(Avp, int), Error> {
    if pos + 9 > b.len() {
        Err(Error::InvalidMessageLength)
    } else {
        let fl = b[pos + 4];
        let alen = u32_of_be(b[pos + 5], b[pos + 6], b[pos + 7], b[pos + 8]) as int;
        let hlen: int = if fl & VENDOR_FLAG != 0 {
            13
        } else {
            9
        };
        if alen < hlen || pos + alen > b.len() {
            Err(Error::InvalidMessageLength)
        } else {
            let vid: Option<u32> = if fl & VENDOR_FLAG != 0 {
                Some(u32_of_be(b[pos + 9], b[pos + 10], b[pos + 11], b[pos + 12]))
            } else {
                None
            };
            match addr_decode_spec(b.subrange(pos + hlen, pos + alen), alen - hlen) {
                Ok(v) => Ok(
                    (
                        Avp {
                            code: u32_of_be(b[pos], b[pos + 1], b[pos + 2], b[pos + 3]),
                            vendor_id: vid,
                            flags: fl & 0x7f,
                            value: Address(v),
                        },
                        pos + alen,
                    ),
                ),
                Err(e) => Err(e),
            }
        }
    }
}

/// What walking the attribute records from `pos` to the end of the message
/// yields: the records in order, or the first error met.
pub open spec fn parse_avps(b: Seq<u8>, pos: int) -> Result<Seq<Avp>, Error>
    decreases b.len() - pos,
{
    if pos >= b.len() {
        Ok(Seq::empty())
    } else {
        match parse_avp_at(b, pos) {
            Ok((a, next)) => if !(pos < next <= b.len()) {
                Err(Error::InvalidMessageLength)
            } else {
                match parse_avps(b, next) {
                    Ok(rest) => Ok(seq![a] + rest),
                    Err(e) => Err(e),
                }
            },
            Err(e) => Err(e),
        }
    }
}

/// What decoding a whole message buffer yields: the message, or the exact
/// error owed to the bytes. The declared length must equal the bytes
/// present, and the attribute walk must consume them exactly.
pub open spec fn parse_msg(b: Seq<u8>) -> Result<MessageView, Error> {
    if b.len() < HEADER_LENGTH {
        Err(Error::InvalidMessageLength)
    } else if u24_of_be(b[1], b[2], b[3]) as int != b.len() as int {
        Err(Error::InvalidMessageLength)
    } else {
        match parse_avps(b, HEADER_LENGTH as int) {
            Ok(avps) => Ok(
                MessageView {
                    command_code: u32_of_be(b[4], b[5], b[6], b[7]),
                    application_id: u32_of_be(b[8], b[9], b[10], b[11]),
                    flags: b[12],
                    hop_by_hop_id: u32_of_be(b[13], b[14], b[15], b[16]),
                    end_to_end_id: u32_of_be(b[17], b[18], b[19], b[20]),
                    avps: avps,
                },
            ),
            Err(e) => Err(e),
        }
    }
}

impl Avp {
    /// Builds an attribute record; the vendor bit of `flags` is derived from
    /// `vendor_id`, so the stored flags keep every other bit only.
    pub fn new(code: u32, vendor_id: Option<u32>, flags: u8, value: Address) -> (r: Avp)
        ensures
            r.code == code,
            r.vendor_id == vendor_id,
            r.flags == flags & 0x7f,
            r.value == value,
    {
        Avp { code, vendor_id, flags: flags & 0x7f, value }
    }
}

/// One attribute record's wire bytes are as many as the length it declares,
/// and at most 31.
pub proof fn lemma_avp_wire_len(a: Avp)
    requires
        encodable(a.value.0),
    ensures
        avp_wire(a).len() == avp_wire_len(a),
        9 <= avp_wire_len(a) <= 31,
{
    crate::address::lemma_address_round_trip(a.value.0);
}

/// Appending one record to a sequence appends its wire bytes.
proof fn lemma_avps_wire_push(s: Seq<Avp>, a: Avp)
    ensures
        avps_wire(s.push(a)) == avps_wire(s) + avp_wire(a),
    decreases s.len(),
{
    if s.len() == 0 {
        assert(s.push(a).drop_first() =~= Seq::<Avp>::empty());
        assert(avps_wire(s.push(a)) == avp_wire(a) + avps_wire(Seq::<Avp>::empty()));
        assert(avp_wire(a) + Seq::<u8>::empty() =~= avp_wire(a));
        assert(avps_wire(s) + avp_wire(a) =~= avp_wire(a));
    } else {
        lemma_avps_wire_push(s.drop_first(), a);
        assert(s.push(a).drop_first() =~= s.drop_first().push(a));
        assert(s.push(a)[0] == s[0]);
        assert(avp_wire(s[0]) + (avps_wire(s.drop_first()) + avp_wire(a)) =~= (avp_wire(s[0])
            + avps_wire(s.drop_first())) + avp_wire(a));
    }
}

/// An attribute as this library builds and decodes it: the stored flags keep
/// the vendor bit clear, since the wire derives that bit from `vendor_id`.
pub open spec fn avp_canonical(a: Avp) -> bool {
    a.flags & VENDOR_FLAG == 0
}

/// A 32-bit field survives the trip through its four wire bytes.
proof fn lemma_be32_round_trip(x: u32)
    ensures
        u32_of_be(
            ((x >> 24) & 0xff) as u8,
            ((x >> 16) & 0xff) as u8,
            ((x >> 8) & 0xff) as u8,
            (x & 0xff) as u8,
        ) == x,
{
    assert(((((x >> 24) & 0xff) as u8 as u32) << 24) | ((((x >> 16) & 0xff) as u8 as u32) << 16)
        | ((((x >> 8) & 0xff) as u8 as u32) << 8) | ((x & 0xff) as u8 as u32) == x)
        by (bit_vector);
}

/// A declared length below the 24-bit ceiling survives the trip through the
/// three low bytes of the length prefix.
proof fn lemma_u24_round_trip(x: u32)
    requires
        x <= 0xffffff,
    ensures
        u24_of_be(((x >> 16) & 0xff) as u8, ((x >> 8) & 0xff) as u8, (x & 0xff) as u8) == x,
{
    assert(x <= 0xffffff ==> ((((x >> 16) & 0xff) as u8 as u32) << 16) | ((((x >> 8) & 0xff) as u8
        as u32) << 8) | ((x & 0xff) as u8 as u32) == x) by (bit_vector);
}

/// Parsing at the start of an attribute's wire bytes yields that attribute
/// and stops exactly past it.
proof fn lemma_parse_avp_wire(b: Seq<u8>, pos: int, a: Avp)
    requires
        encodable(a.value.0),
        avp_canonical(a),
        0 <= pos,
        pos + avp_wire_len(a) <= b.len(),
        b.subrange(pos, pos + avp_wire_len(a)) == avp_wire(a),
    ensures
        parse_avp_at(b, pos) == Ok::<(Avp, int), Error>((a, pos + avp_wire_len(a))),
{
    lemma_avp_wire_len(a);
    let w = avp_wire(a);
    let wl = avp_wire_len(a);
    assert forall|i: int| 0 <= i < wl implies b[pos + i] == w[i] by {
        assert(b.subrange(pos, pos + wl)[i] == b[pos + i]);
    }
    let fl = a.flags;
    let wf = wire_flags(a);
    let hlen = avp_header_len(a);
    let wl32 = wl as u32;
    assert(b[pos] == w[0] && b[pos + 1] == w[1] && b[pos + 2] == w[2] && b[pos + 3] == w[3]
        && b[pos + 4] == w[4] && b[pos + 5] == w[5] && b[pos + 6] == w[6] && b[pos + 7] == w[7]
        && b[pos + 8] == w[8]);
    assert(w[0] == ((a.code >> 24) & 0xff) as u8 && w[1] == ((a.code >> 16) & 0xff) as u8 && w[2]
        == ((a.code >> 8) & 0xff) as u8 && w[3] == (a.code & 0xff) as u8);
    assert(w[4] == wf);
    assert(w[5] == ((wl32 >> 24) & 0xff) as u8 && w[6] == ((wl32 >> 16) & 0xff) as u8 && w[7] == ((
    wl32 >> 8) & 0xff) as u8 && w[8] == (wl32 & 0xff) as u8);
    if a.vendor_id is Some {
        assert(fl & VENDOR_FLAG == 0 ==> (fl | VENDOR_FLAG) & VENDOR_FLAG != 0 && ((fl
            | VENDOR_FLAG) & 0x7f) == fl) by (bit_vector);
    } else {
        assert(fl & 0x7f & VENDOR_FLAG == 0 && (fl & VENDOR_FLAG == 0 ==> fl & 0x7f == fl) && fl
            & 0x7f & 0x7f == fl & 0x7f) by (bit_vector);
    }
    lemma_be32_round_trip(wl32);
    assert(u32_of_be(b[pos + 5], b[pos + 6], b[pos + 7], b[pos + 8]) == wl32);
    lemma_be32_round_trip(a.code);
    assert(u32_of_be(b[pos], b[pos + 1], b[pos + 2], b[pos + 3]) == a.code);
    match a.vendor_id {
        Some(v) => {
            assert(b[pos + 9] == w[9] && b[pos + 10] == w[10] && b[pos + 11] == w[11] && b[pos
                + 12] == w[12]);
            assert(w[9] == ((v >> 24) & 0xff) as u8 && w[10] == ((v >> 16) & 0xff) as u8 && w[11]
                == ((v >> 8) & 0xff) as u8 && w[12] == (v & 0xff) as u8);
            lemma_be32_round_trip(v);
            assert(u32_of_be(b[pos + 9], b[pos + 10], b[pos + 11], b[pos + 12]) == v);
        },
        None => {},
    }
    assert(b.subrange(pos + hlen, pos + wl) =~= addr_wire(a.value.0)) by {
        assert forall|i: int| 0 <= i < wl - hlen implies b.subrange(pos + hlen, pos + wl)[i]
            == addr_wire(a.value.0)[i] by {
            assert(b.subrange(pos + hlen, pos + wl)[i] == b[pos + hlen + i]);
            assert(b[pos + hlen + i] == w[hlen + i]);
        }
    }
    crate::address::lemma_address_round_trip(a.value.0);
}

/// Walking attribute records over exactly their concatenated wire bytes
/// yields the records back in order.
proof fn lemma_parse_avps_wire(b: Seq<u8>, pos: int, s: Seq<Avp>)
    requires
        forall|i: int| 0 <= i < s.len() ==> encodable(#[trigger] s[i].value.0),
        forall|i: int| 0 <= i < s.len() ==> avp_canonical(#[trigger] s[i]),
        0 <= pos <= b.len(),
        b.subrange(pos, b.len() as int) == avps_wire(s),
    ensures
        parse_avps(b, pos) == Ok::<Seq<Avp>, Error>(s),
    decreases s.len(),
{
    if s.len() == 0 {
        assert(b.len() - pos == 0);
        assert(s =~= Seq::<Avp>::empty());
    } else {
        let a = s[0];
        lemma_avp_wire_len(a);
        let wl = avp_wire_len(a);
        assert(avps_wire(s) == avp_wire(a) + avps_wire(s.drop_first()));
        assert forall|i: int| 0 <= i < b.len() - pos implies b[pos + i] == avps_wire(s)[i] by {
            assert(b.subrange(pos, b.len() as int)[i] == b[pos + i]);
        }
        assert(b.subrange(pos, pos + wl) =~= avp_wire(a)) by {
            assert forall|i: int| 0 <= i < wl implies b.subrange(pos, pos + wl)[i] == avp_wire(
                a,
            )[i] by {
                assert(b.subrange(pos, pos + wl)[i] == b[pos + i]);
                assert(avps_wire(s)[i] == avp_wire(a)[i]);
            }
        }
        lemma_parse_avp_wire(b, pos, a);
        assert(b.subrange(pos + wl, b.len() as int) =~= avps_wire(s.drop_first())) by {
            assert forall|i: int| 0 <= i < b.len() - pos - wl implies b.subrange(
                pos + wl,
                b.len() as int,
            )[i] == avps_wire(s.drop_first())[i] by {
                assert(b.subrange(pos + wl, b.len() as int)[i] == b[pos + wl + i]);
                assert(avps_wire(s)[wl + i] == avps_wire(s.drop_first())[i]);
            }
        }
        assert forall|i: int| 0 <= i < s.drop_first().len() implies encodable(
            #[trigger] s.drop_first()[i].value.0,
        ) && avp_canonical(s.drop_first()[i]) by {
            assert(s.drop_first()[i] == s[i + 1]);
        }
        lemma_parse_avps_wire(b, pos + wl, s.drop_first());
        assert(seq![a] + s.drop_first() =~= s);
    }
}

/// Law: framing round trip — decoding the encoding of any message this
/// library can build (every value encodable, the total below the 24-bit
/// length ceiling, every attribute's stored flags canonical) yields the
/// message back, and the declared length equals the bytes produced.
pub proof fn lemma_message_round_trip(m: MessageView)
    requires
        msg_encodable(m),
        forall|i: int| 0 <= i < m.avps.len() ==> avp_canonical(#[trigger] m.avps[i]),
    ensures
        msg_wire(m).len() == msg_wire_len(m),
        parse_msg(msg_wire(m)) == Ok::<MessageView, Error>(m),
{
    let b = msg_wire(m);
    let len32 = msg_wire_len(m) as u32;
    assert(b.len() == msg_wire_len(m));
    assert(b[1] == ((len32 >> 16) & 0xff) as u8);
    assert(b[2] == ((len32 >> 8) & 0xff) as u8);
    assert(b[3] == (len32 & 0xff) as u8);
    lemma_u24_round_trip(len32);
    assert(u24_of_be(b[1], b[2], b[3]) == len32);
    lemma_be32_round_trip(m.command_code);
    assert(b[4] == ((m.command_code >> 24) & 0xff) as u8);
    assert(u32_of_be(b[4], b[5], b[6], b[7]) == m.command_code);
    lemma_be32_round_trip(m.application_id);
    assert(b[8] == ((m.application_id >> 24) & 0xff) as u8);
    assert(u32_of_be(b[8], b[9], b[10], b[11]) == m.application_id);
    assert(b[12] == m.flags);
    lemma_be32_round_trip(m.hop_by_hop_id);
    assert(b[13] == ((m.hop_by_hop_id >> 24) & 0xff) as u8);
    assert(u32_of_be(b[13], b[14], b[15], b[16]) == m.hop_by_hop_id);
    lemma_be32_round_trip(m.end_to_end_id);
    assert(b[17] == ((m.end_to_end_id >> 24) & 0xff) as u8);
    assert(u32_of_be(b[17], b[18], b[19], b[20]) == m.end_to_end_id);
    assert(b.subrange(HEADER_LENGTH as int, b.len() as int) =~= avps_wire(m.avps)) by {
        assert forall|i: int| 0 <= i < b.len() - HEADER_LENGTH implies b.subrange(
            HEADER_LENGTH as int,
            b.len() as int,
        )[i] == avps_wire(m.avps)[i] by {
            assert(b.subrange(HEADER_LENGTH as int, b.len() as int)[i] == b[HEADER_LENGTH + i]);
        }
    }
    lemma_parse_avps_wire(b, HEADER_LENGTH as int, m.avps);
}

/// Four wire bytes survive the trip through their 32-bit field.
proof fn lemma_be32_bytes(b0: u8, b1: u8, b2: u8, b3: u8)
    ensures
        ((u32_of_be(b0, b1, b2, b3) >> 24) & 0xff) as u8 == b0,
        ((u32_of_be(b0, b1, b2, b3) >> 16) & 0xff) as u8 == b1,
        ((u32_of_be(b0, b1, b2, b3) >> 8) & 0xff) as u8 == b2,
        (u32_of_be(b0, b1, b2, b3) & 0xff) as u8 == b3,
{
    assert((((((b0 as u32) << 24) | ((b1 as u32) << 16) | ((b2 as u32) << 8) | (b3 as u32)) >> 24)
        & 0xff) as u8 == b0 && (((((b0 as u32) << 24) | ((b1 as u32) << 16) | ((b2 as u32) << 8)
        | (b3 as u32)) >> 16) & 0xff) as u8 == b1 && (((((b0 as u32) << 24) | ((b1 as u32) << 16)
        | ((b2 as u32) << 8) | (b3 as u32)) >> 8) & 0xff) as u8 == b2 && ((((b0 as u32) << 24) | ((
    b1 as u32) << 16) | ((b2 as u32) << 8) | (b3 as u32)) & 0xff) as u8 == b3) by (bit_vector);
}

/// Three wire bytes survive the trip through the 24-bit declared length,
/// which never exceeds the 24-bit ceiling.
proof fn lemma_u24_bytes(b1: u8, b2: u8, b3: u8)
    ensures
        ((u24_of_be(b1, b2, b3) >> 16) & 0xff) as u8 == b1,
        ((u24_of_be(b1, b2, b3) >> 8) & 0xff) as u8 == b2,
        (u24_of_be(b1, b2, b3) & 0xff) as u8 == b3,
        u24_of_be(b1, b2, b3) <= 0xffffff,
{
    assert(((((b1 as u32) << 16) | ((b2 as u32) << 8) | (b3 as u32)) >> 16) & 0xff == b1 && ((((
    b1 as u32) << 16) | ((b2 as u32) << 8) | (b3 as u32)) >> 8) & 0xff == b2 && (((b1 as u32)
        << 16) | ((b2 as u32) << 8) | (b3 as u32)) & 0xff == b3 && (((b1 as u32) << 16) | ((
    b2 as u32) << 8) | (b3 as u32)) <= 0xffffff) by (bit_vector);
}

/// A successfully parsed attribute record is well formed and spans exactly
/// the bytes of its own wire form.
proof fn lemma_parse_avp_sound(b: Seq<u8>, pos: int, a: Avp, next: int)
    requires
        0 <= pos <= b.len(),
        parse_avp_at(b, pos) == Ok::<(Avp, int), Error>((a, next)),
    ensures
        encodable(a.value.0),
        avp_canonical(a),
        next == pos + avp_wire_len(a),
        pos < next <= b.len(),
        avp_wire(a) == b.subrange(pos, next),
{
    let fl = b[pos + 4];
    let alen = u32_of_be(b[pos + 5], b[pos + 6], b[pos + 7], b[pos + 8]) as int;
    let hlen: int = if fl & VENDOR_FLAG != 0 {
        13
    } else {
        9
    };
    let vb = b.subrange(pos + hlen, pos + alen);
    crate::address::lemma_address_decode_sound(vb, alen - hlen, a.value.0);
    assert(fl & 0x7f & 0x80 == 0) by (bit_vector);
    if fl & VENDOR_FLAG != 0 {
        assert(fl & VENDOR_FLAG != 0 ==> (fl & 0x7f) | VENDOR_FLAG == fl) by (bit_vector);
    } else {
        assert((fl & VENDOR_FLAG == 0 ==> fl & 0x7f == fl) && fl & 0x7f & 0x7f == fl & 0x7f)
            by (bit_vector);
    }
    assert(wire_flags(a) == fl);
    assert(avp_wire_len(a) == alen);
    lemma_be32_bytes(b[pos], b[pos + 1], b[pos + 2], b[pos + 3]);
    lemma_be32_bytes(b[pos + 5], b[pos + 6], b[pos + 7], b[pos + 8]);
    if fl & VENDOR_FLAG != 0 {
        lemma_be32_bytes(b[pos + 9], b[pos + 10], b[pos + 11], b[pos + 12]);
    }
    let w = avp_wire(a);
    assert(alen as u32 == u32_of_be(b[pos + 5], b[pos + 6], b[pos + 7], b[pos + 8]));
    assert(w =~= b.subrange(pos, pos + alen)) by {
        assert forall|i: int| 0 <= i < alen implies w[i] == b.subrange(pos, pos + alen)[i] by {
            assert(b.subrange(pos, pos + alen)[i] == b[pos + i]);
            if hlen <= i {
                assert(w[i] == addr_wire(a.value.0)[i - hlen]);
                assert(addr_wire(a.value.0)[i - hlen] == vb[i - hlen]);
                assert(vb[i - hlen] == b[pos + i]);
            }
        }
    }
}

/// A successfully parsed record walk is well formed and spans exactly the
/// concatenated wire bytes of its records.
proof fn lemma_parse_avps_sound(b: Seq<u8>, pos: int, s: Seq<Avp>)
    requires
        0 <= pos <= b.len(),
        parse_avps(b, pos) == Ok::<Seq<Avp>, Error>(s),
    ensures
        forall|i: int| 0 <= i < s.len() ==> encodable(#[trigger] s[i].value.0),
        forall|i: int| 0 <= i < s.len() ==> avp_canonical(#[trigger] s[i]),
        avps_wire(s) == b.subrange(pos, b.len() as int),
    decreases b.len() - pos,
{
    if pos >= b.len() {
        assert(s =~= Seq::<Avp>::empty());
        assert(avps_wire(s) =~= b.subrange(pos, b.len() as int));
    } else {
        let r = parse_avp_at(b, pos);
        assert(r is Ok);
        let a = r->Ok_0.0;
        let next = r->Ok_0.1;
        lemma_parse_avp_sound(b, pos, a, next);
        assert(parse_avps(b, next) is Ok);
        let rest = parse_avps(b, next)->Ok_0;
        assert(s == seq![a] + rest);
        lemma_parse_avps_sound(b, next, rest);
        assert(s[0] == a);
        assert(s.drop_first() =~= rest);
        assert(avps_wire(s) == avp_wire(a) + avps_wire(rest));
        assert(avps_wire(s) =~= b.subrange(pos, b.len() as int)) by {
            assert forall|i: int| 0 <= i < avps_wire(s).len() implies avps_wire(s)[i] == b.subrange(
                pos,
                b.len() as int,
            )[i] by {
                if i < avp_wire(a).len() {
                    assert(avp_wire(a)[i] == b.subrange(pos, next)[i]);
                    assert(b.subrange(pos, next)[i] == b[pos + i]);
                } else {
                    assert(avps_wire(s)[i] == avps_wire(rest)[i - avp_wire(a).len()]);
                    assert(avps_wire(rest)[i - avp_wire(a).len()] == b.subrange(
                        next,
                        b.len() as int,
                    )[i - avp_wire(a).len()]);
                }
            }
        }
        assert forall|i: int| 0 <= i < s.len() implies encodable(#[trigger] s[i].value.0) by {
            if i > 0 {
                assert(s[i] == rest[i - 1]);
            }
        }
        assert forall|i: int| 0 <= i < s.len() implies avp_canonical(#[trigger] s[i]) by {
            if i > 0 {
                assert(s[i] == rest[i - 1]);
            }
        }
    }
}

/// Law: the framer accepts nothing but its own frames — a successfully
/// decoded message is well formed, its attribute flags are canonical, and it
/// encodes back to exactly the bytes it was decoded from, up to the reserved
/// high byte of the length prefix, which decoding ignores and encoding
/// always writes as zero.
pub proof fn lemma_message_decode_sound(b: Seq<u8>, m: MessageView)
    requires
        parse_msg(b) == Ok::<MessageView, Error>(m),
    ensures
        msg_encodable(m),
        forall|i: int| 0 <= i < m.avps.len() ==> avp_canonical(#[trigger] m.avps[i]),
        msg_wire(m) == b.update(0, 0u8),
{
    lemma_parse_avps_sound(b, HEADER_LENGTH as int, m.avps);
    lemma_u24_bytes(b[1], b[2], b[3]);
    assert(avps_wire(m.avps).len() == b.len() - HEADER_LENGTH);
    assert(msg_wire_len(m) == b.len());
    let len32 = msg_wire_len(m) as u32;
    assert(len32 == u24_of_be(b[1], b[2], b[3]));
    lemma_be32_bytes(b[4], b[5], b[6], b[7]);
    lemma_be32_bytes(b[8], b[9], b[10], b[11]);
    lemma_be32_bytes(b[13], b[14], b[15], b[16]);
    lemma_be32_bytes(b[17], b[18], b[19], b[20]);
    assert(msg_wire(m) =~= b.update(0, 0u8)) by {
        assert forall|i: int| 0 <= i < msg_wire(m).len() implies msg_wire(m)[i] == b.update(
            0,
            0u8,
        )[i] by {
            if HEADER_LENGTH <= i {
                assert(msg_wire(m)[i] == avps_wire(m.avps)[i - HEADER_LENGTH]);
                assert(avps_wire(m.avps)[i - HEADER_LENGTH] == b.subrange(
                    HEADER_LENGTH as int,
                    b.len() as int,
                )[i - HEADER_LENGTH]);
            }
        }
    }
}

/// Reads a 32-bit field from four big-endian bytes at `pos`.
fn read_u32(bytes: &[u8], pos: usize) -> (r: u32)
    requires
        pos + 4 <= bytes@.len(),
    ensures
        r == u32_of_be(
            bytes@[pos as int],
            bytes@[pos as int + 1],
            bytes@[pos as int + 2],
            bytes@[pos as int + 3],
        ),
{
    ((bytes[pos] as u32) << 24) | ((bytes[pos + 1] as u32) << 16) | ((bytes[pos + 2] as u32) << 8)
        | (bytes[pos + 3] as u32)
}

/// Appends a 32-bit field as its four big-endian wire bytes.
fn push_be32(buf: &mut Vec<u8>, x: u32)
    ensures
        final(buf)@ == old(buf)@ + be32(x),
{
    proof {
        assert(((x >> 24) & 0xff) < 256 && ((x >> 16) & 0xff) < 256 && ((x >> 8) & 0xff) < 256 && (
        x & 0xff) < 256) by (bit_vector);
    }
    buf.push(((x >> 24) & 0xff) as u8);
    buf.push(((x >> 16) & 0xff) as u8);
    buf.push(((x >> 8) & 0xff) as u8);
    buf.push((x & 0xff) as u8);
    proof {
        assert(buf@ =~= old(buf)@ + be32(x));
    }
}

/// Appends one attribute record's wire bytes: code, flags with the vendor
/// bit derived, the computed record length, the vendor qualifier when
/// present, then the value.
fn encode_avp(buf: &mut Vec<u8>, avp: &Avp)
    requires
        encodable(avp.value.0),
    ensures
        final(buf)@ == old(buf)@ + avp_wire(*avp),
{
    proof {
        lemma_avp_wire_len(*avp);
    }
    push_be32(buf, avp.code);
    let value_len: u32 = match avp.value.length() {
        Ok(n) => n,
        Err(_) => 0,
    };
    match avp.vendor_id {
        Some(v) => {
            buf.push(avp.flags | VENDOR_FLAG);
            push_be32(buf, 13 + value_len);
            push_be32(buf, v);
        },
        None => {
            buf.push(avp.flags & 0x7f);
            push_be32(buf, 9 + value_len);
        },
    }
    let res = avp.value.encode_to(buf);
    proof {
        assert(res is Ok);
        assert(buf@ =~= old(buf)@ + avp_wire(*avp));
    }
}

impl DiameterMessage {
    /// Builds a message with the given header fields and no attributes yet.
    pub fn new(
        command_code: u32,
        application_id: u32,
        flags: u8,
        hop_by_hop_id: u32,
        end_to_end_id: u32,
    ) -> (r: DiameterMessage)
        ensures
            r@.command_code == command_code,
            r@.application_id == application_id,
            r@.flags == flags,
            r@.hop_by_hop_id == hop_by_hop_id,
            r@.end_to_end_id == end_to_end_id,
            r@.avps == Seq::<Avp>::empty(),
    {
        let avps: Vec<Avp> = Vec::new();
        DiameterMessage { command_code, application_id, flags, hop_by_hop_id, end_to_end_id, avps }
    }

    /// Appends one attribute record, keeping caller-supplied order.
    pub fn add_avp(&mut self, avp: Avp)
        ensures
            final(self)@.avps == old(self)@.avps.push(avp),
            final(self)@.command_code == old(self)@.command_code,
            final(self)@.application_id == old(self)@.application_id,
            final(self)@.flags == old(self)@.flags,
            final(self)@.hop_by_hop_id == old(self)@.hop_by_hop_id,
            final(self)@.end_to_end_id == old(self)@.end_to_end_id,
    {
        self.avps.push(avp);
    }

    /// The correlation id that matches a response to this request.
    pub fn get_hop_by_hop_id(&self) -> (r: u32)
        ensures
            r == self@.hop_by_hop_id,
    {
        self.hop_by_hop_id
    }

    /// Appends the whole message to `buf`: the computed length field, the
    /// header, then each attribute in order. A message holding a value this
    /// codec cannot encode, or too long for the 24-bit length field, is
    /// refused with `buf` left unchanged.
    pub fn encode_to(&self, buf: &mut Vec<u8>) -> (r: Result<(), Error>)
        ensures
            r is Ok <==> msg_encodable(self@),
            r is Ok ==> final(buf)@ == old(buf)@ + msg_wire(self@),
            r is Err ==> final(buf)@ == old(buf)@,
            r matches Err(e) ==> e == (if exists|i: int|
                0 <= i < self@.avps.len() && !encodable(#[trigger] self@.avps[i].value.0) {
                Error::UnsupportedValueType
            } else {
                Error::MessageTooLarge
            }),
    {
        let ghost gavps = self@.avps;
        let mut total: u128 = HEADER_LENGTH as u128;
        let mut i: usize = 0;
        while i < self.avps.len()
            invariant
                0 <= i <= gavps.len(),
                gavps == self@.avps,
                total == HEADER_LENGTH + avps_wire(gavps.take(i as int)).len(),
                total <= HEADER_LENGTH + 31 * i,
                forall|j: int| 0 <= j < i ==> encodable(#[trigger] gavps[j].value.0),
            decreases gavps.len() - i,
        {
            match &self.avps[i].value.0 {
                crate::address::AddressValue::E164(_) => {
                    return Err(Error::UnsupportedValueType);
                },
                _ => {},
            }
            proof {
                lemma_avp_wire_len(gavps[i as int]);
                lemma_avps_wire_push(gavps.take(i as int), gavps[i as int]);
                assert(gavps.take(i as int + 1) =~= gavps.take(i as int).push(gavps[i as int]));
            }
            let value_len: u32 = match self.avps[i].value.length() {
                Ok(n) => n,
                Err(_) => 0,
            };
            let header_len: u32 = if self.avps[i].vendor_id.is_some() {
                13
            } else {
                9
            };
            total = total + header_len as u128 + value_len as u128;
            i = i + 1;
        }
        proof {
            assert(gavps.take(gavps.len() as int) =~= gavps);
        }
        if total > MAX_WIRE_LENGTH as u128 {
            return Err(Error::MessageTooLarge);
        }
        let len32: u32 = total as u32;
        proof {
            let len = len32;
            assert(((len >> 16) & 0xff) < 256 && ((len >> 8) & 0xff) < 256 && (len & 0xff) < 256)
                by (bit_vector);
        }
        let ghost buf0 = buf@;
        buf.push(0);
        buf.push(((len32 >> 16) & 0xff) as u8);
        buf.push(((len32 >> 8) & 0xff) as u8);
        buf.push((len32 & 0xff) as u8);
        push_be32(buf, self.command_code);
        push_be32(buf, self.application_id);
        buf.push(self.flags);
        push_be32(buf, self.hop_by_hop_id);
        push_be32(buf, self.end_to_end_id);
        let ghost header = buf@.subrange(buf0.len() as int, buf@.len() as int);
        let mut k: usize = 0;
        while k < self.avps.len()
            invariant
                0 <= k <= gavps.len(),
                gavps == self@.avps,
                forall|j: int| 0 <= j < gavps.len() ==> encodable(#[trigger] gavps[j].value.0),
                buf@ == buf0 + header + avps_wire(gavps.take(k as int)),
            decreases gavps.len() - k,
        {
            proof {
                lemma_avps_wire_push(gavps.take(k as int), gavps[k as int]);
                assert(gavps.take(k as int + 1) =~= gavps.take(k as int).push(gavps[k as int]));
            }
            encode_avp(buf, &self.avps[k]);
            proof {
                assert(buf@ =~= buf0 + header + avps_wire(gavps.take(k as int + 1)));
            }
            k = k + 1;
        }
        proof {
            assert(gavps.take(gavps.len() as int) =~= gavps);
            assert(buf@ =~= buf0 + msg_wire(self@));
        }
        Ok(())
    }

    /// Decodes a whole message buffer, exactly as `parse_msg` says: the
    /// declared length must equal the bytes present, and the attribute walk
    /// must end exactly at the message boundary.
    pub fn decode_from(bytes: &[u8]) -> (r: Result<DiameterMessage, Error>)
        ensures
            r matches Ok(m) ==> parse_msg(bytes@) == Ok::<MessageView, Error>(m@),
            r matches Err(e) ==> parse_msg(bytes@) == Err::<MessageView, Error>(e),
    {
        if bytes.len() < HEADER_LENGTH as usize {
            return Err(Error::InvalidMessageLength);
        }
        let declared: u32 = ((bytes[1] as u32) << 16) | ((bytes[2] as u32) << 8) | (bytes[3]
            as u32);
        if declared as usize != bytes.len() {
            return Err(Error::InvalidMessageLength);
        }
        let command_code = read_u32(bytes, 4);
        let application_id = read_u32(bytes, 8);
        let flags = bytes[12];
        let hop_by_hop_id = read_u32(bytes, 13);
        let end_to_end_id = read_u32(bytes, 17);
        let mut avps: Vec<Avp> = Vec::new();
        let mut pos: usize = HEADER_LENGTH as usize;
        while pos < bytes.len()
            invariant
                HEADER_LENGTH <= pos <= bytes@.len(),
                u24_of_be(bytes@[1], bytes@[2], bytes@[3]) as int == bytes@.len() as int,
                parse_avps(bytes@, pos as int) is Ok ==> parse_avps(bytes@, HEADER_LENGTH as int)
                    == Ok::<Seq<Avp>, Error>(avps@ + parse_avps(bytes@, pos as int)->Ok_0),
                parse_avps(bytes@, pos as int) is Err ==> parse_avps(bytes@, HEADER_LENGTH as int)
                    == parse_avps(bytes@, pos as int),
            decreases bytes@.len() - pos,
        {
            match decode_avp_at(bytes, pos) {
                Ok((avp, next)) => {
                    proof {
                        let b = bytes@;
                        let rec = parse_avps(b, next as int);
                        if rec is Ok {
                            assert(parse_avps(b, pos as int) == Ok::<Seq<Avp>, Error>(
                                seq![avp] + rec->Ok_0,
                            ));
                            assert(avps@ + (seq![avp] + rec->Ok_0) =~= avps@.push(avp)
                                + rec->Ok_0);
                        } else {
                            assert(parse_avps(b, pos as int) == rec);
                        }
                    }
                    avps.push(avp);
                    pos = next;
                },
                Err(e) => {
                    proof {
                        assert(parse_avps(bytes@, pos as int) == Err::<Seq<Avp>, Error>(e));
                        assert(parse_msg(bytes@) == Err::<MessageView, Error>(e));
                    }
                    return Err(e);
                },
            }
        }
        proof {
            assert(avps@ + Seq::<Avp>::empty() =~= avps@);
        }
        Ok(DiameterMessage { command_code, application_id, flags, hop_by_hop_id, end_to_end_id, avps })
    }
}

/// Parses one attribute record at `pos`, exactly as `parse_avp_at` says.
fn decode_avp_at(bytes: &[u8], pos: usize) -> (r: Result<(Avp, usize), Error>)
    requires
        pos < bytes@.len(),
    ensures
        r matches Ok(p) ==> parse_avp_at(bytes@, pos as int) == Ok::<(Avp, int), Error>(
            (p.0, p.1 as int),
        ) && pos < p.1 <= bytes@.len(),
        r matches Err(e) ==> parse_avp_at(bytes@, pos as int) == Err::<(Avp, int), Error>(e),
{
    if bytes.len() - pos < 9 {
        return Err(Error::InvalidMessageLength);
    }
    let code = read_u32(bytes, pos);
    let fl = bytes[pos + 4];
    let alen = read_u32(bytes, pos + 5);
    let header_len: u32 = if fl & VENDOR_FLAG != 0 {
        13
    } else {
        9
    };
    if alen < header_len || alen as usize > bytes.len() - pos {
        return Err(Error::InvalidMessageLength);
    }
    let vendor_id: Option<u32> = if fl & VENDOR_FLAG != 0 {
        Some(read_u32(bytes, pos + 9))
    } else {
        None
    };
    let vstart: usize = pos + header_len as usize;
    let vend: usize = pos + alen as usize;
    let mut vb: Vec<u8> = Vec::new();
    let mut k: usize = vstart;
    while k < vend
        invariant
            vstart <= k <= vend <= bytes@.len(),
            vb@ == bytes@.subrange(vstart as int, k as int),
        decreases vend - k,
    {
        vb.push(bytes[k]);
        k = k + 1;
        proof {
            assert(vb@ =~= bytes@.subrange(vstart as int, k as int));
        }
    }
    match Address::decode_from(vb.as_slice(), (alen - header_len) as usize) {
        Ok(a) => Ok((Avp { code, vendor_id, flags: fl & 0x7f, value: a }, vend)),
        Err(e) => Err(e),
    }
}

/// Interprets the four-byte length prefix of an inbound message: the low
/// three bytes declare the total length, the high byte is ignored. A length
/// above the one-mebibyte ceiling is refused as too large before any body
/// byte is read; one too short to hold the prefix itself is refused as
/// invalid.
pub fn frame_length(header: &[u8; 4]) -> (r: Result<u32, Error>)
    ensures
        r matches Ok(n) ==> n == u24_of_be(header@[1], header@[2], header@[3]),
        r is Ok <==> 4 <= u24_of_be(header@[1], header@[2], header@[3]) <= MAX_MESSAGE_LENGTH,
        r matches Err(e) ==> e == (if u24_of_be(header@[1], header@[2], header@[3])
            > MAX_MESSAGE_LENGTH {
            Error::MessageTooLarge
        } else {
            Error::InvalidMessageLength
        }),
{
    let declared: u32 = ((header[1] as u32) << 16) | ((header[2] as u32) << 8) | (header[3]
        as u32);
    if declared > MAX_MESSAGE_LENGTH {
        Err(Error::MessageTooLarge)
    } else if declared < 4 {
        Err(Error::InvalidMessageLength)
    } else {
        Ok(declared)
    }
}

} // verus!
