//! The typed value codec's exemplar: address values, encoded as a two-byte
//! family discriminator followed by a fixed-width payload whose size must
//! match the attribute length declared outside the value.

use crate::error::Error;
use vstd::prelude::*;

verus! {

/// Address family discriminators carried on the wire.
pub const FAMILY_IPV4: u8 = 1;
pub const FAMILY_IPV6: u8 = 2;
pub const FAMILY_E164: u8 = 8;

/// A typed address value: four octets for IPv4, eight big-endian 16-bit
/// groups for IPv6, or an E164 telephone number (a variable octet string)
/// that this codec does not yet implement.
#[derive(Clone, Debug, PartialEq, Eq)]
pub enum AddressValue {
    IPv4(u8, u8, u8, u8),
    IPv6(u16, u16, u16, u16, u16, u16, u16, u16),
    E164(Vec<u8>),
}

/// An address attribute value.
#[derive(Clone, Debug, PartialEq, Eq)]
pub struct Address(pub AddressValue);

/// The high byte of a 16-bit group, as written on the wire.
pub open spec fn hi(x: u16) -> u8 {
    (x >> 8) as u8
}

/// The low byte of a 16-bit group, as written on the wire.
pub open spec fn lo(x: u16) -> u8 {
    (x & 0xff) as u8
}

/// The 16-bit group read back from its two big-endian wire bytes.
pub open spec fn group(h: u8, l: u8) -> u16 {
    (((h as u16) << 8) | (l as u16)) as u16
}

/// Whether this codec can encode the value: only IPv4 and IPv6 have an
/// encoding; E164 is refused with an explicit error.
pub open spec fn encodable(v: AddressValue) -> bool {
    v is IPv4 || v is IPv6
}

/// The attribute length that a value declares: the discriminator's two bytes
/// plus the fixed payload (6 in all for IPv4, 18 for IPv6).
pub open spec fn addr_wire_len(v: AddressValue) -> int {
    match v {
        AddressValue::IPv4(_, _, _, _) => 6,
        AddressValue::IPv6(_, _, _, _, _, _, _, _) => 18,
        AddressValue::E164(_) => 0,
    }
}

/// The exact bytes a value puts on the wire: the family discriminator, then
/// the payload octets in big-endian order.
pub open spec fn addr_wire(v: AddressValue) -> Seq<u8> {
    match v {
        AddressValue::IPv4(a, b, c, d) => seq![0u8, FAMILY_IPV4, a, b, c, d],
        AddressValue::IPv6(g0, g1, g2, g3, g4, g5, g6, g7) => seq![
            0u8,
            FAMILY_IPV6,
            hi(g0),
            lo(g0),
            hi(g1),
            lo(g1),
            hi(g2),
            lo(g2),
            hi(g3),
            lo(g3),
            hi(g4),
            lo(g4),
            hi(g5),
            lo(g5),
            hi(g6),
            lo(g6),
            hi(g7),
            lo(g7),
        ],
        AddressValue::E164(_) => seq![],
    }
}

/// What decoding yields on every input: the value read from `b`, or the
/// exact error owed to `b` and the declared attribute length `len`.
pub open spec fn addr_decode_spec(b: Seq<u8>, len: int) -> Result<AddressValue, Error> {
    if b.len() < 2 {
        Err(Error::Truncated)
    } else if b[0] == 0 && b[1] == FAMILY_IPV4 {
        if len != 6 {
            Err(Error::InvalidAddressLength)
        } else if b.len() < 6 {
            Err(Error::Truncated)
        } else {
            Ok(AddressValue::IPv4(b[2], b[3], b[4], b[5]))
        }
    } else if b[0] == 0 && b[1] == FAMILY_IPV6 {
        if len != 18 {
            Err(Error::InvalidAddressLength)
        } else if b.len() < 18 {
            Err(Error::Truncated)
        } else {
            Ok(AddressValue::IPv6(
                group(b[2], b[3]),
                group(b[4], b[5]),
                group(b[6], b[7]),
                group(b[8], b[9]),
                group(b[10], b[11]),
                group(b[12], b[13]),
                group(b[14], b[15]),
                group(b[16], b[17]),
            ))
        }
    } else if b[0] == 0 && b[1] == FAMILY_E164 {
        Err(Error::UnsupportedValueType)
    } else {
        Err(Error::UnsupportedAddressType)
    }
}

impl Address {
    /// Wraps a typed value as an address attribute.
    pub fn new(value: AddressValue) -> (r: Address)
        ensures
            r.0 == value,
    {
        Address(value)
    }

    /// Decodes an address from `bytes` against the attribute length `len`
    /// declared outside the value, exactly as `addr_decode_spec` says: a
    /// family whose fixed size disagrees with `len` is a length-mismatch
    /// error, an unknown family an unsupported-type error, never a read past
    /// the end of `bytes`.
    pub fn decode_from(bytes: &[u8], len: usize) -> (r: Result<Address, Error>)
        ensures
            r matches Ok(a) ==> addr_decode_spec(bytes@, len as int) == Ok::<AddressValue, Error>(a.0),
            r matches Err(e) ==> addr_decode_spec(bytes@, len as int) == Err::<AddressValue, Error>(e),
    {
        if bytes.len() < 2 {
            return Err(Error::Truncated);
        }
        if bytes[0] == 0 && bytes[1] == FAMILY_IPV4 {
            if len != 6 {
                Err(Error::InvalidAddressLength)
            } else if bytes.len() < 6 {
                Err(Error::Truncated)
            } else {
                Ok(Address(AddressValue::IPv4(bytes[2], bytes[3], bytes[4], bytes[5])))
            }
        } else if bytes[0] == 0 && bytes[1] == FAMILY_IPV6 {
            if len != 18 {
                Err(Error::InvalidAddressLength)
            } else if bytes.len() < 18 {
                Err(Error::Truncated)
            } else {
                Ok(Address(AddressValue::IPv6(
                    read_group(bytes[2], bytes[3]),
                    read_group(bytes[4], bytes[5]),
                    read_group(bytes[6], bytes[7]),
                    read_group(bytes[8], bytes[9]),
                    read_group(bytes[10], bytes[11]),
                    read_group(bytes[12], bytes[13]),
                    read_group(bytes[14], bytes[15]),
                    read_group(bytes[16], bytes[17]),
                )))
            }
        } else if bytes[0] == 0 && bytes[1] == FAMILY_E164 {
            Err(Error::UnsupportedValueType)
        } else {
            Err(Error::UnsupportedAddressType)
        }
    }

    /// Appends the value's wire bytes to `buf`; an E164 value is refused
    /// with an unsupported-value error and `buf` is left unchanged.
    pub fn encode_to(&self, buf: &mut Vec<u8>) -> (r: Result<(), Error>)
        ensures
            r is Ok <==> encodable(self.0),
            r is Ok ==> final(buf)@ == old(buf)@ + addr_wire(self.0),
            r is Err ==> final(buf)@ == old(buf)@,
            r matches Err(e) ==> e == Error::UnsupportedValueType,
    {
        match &self.0 {
            AddressValue::IPv4(a, b, c, d) => {
                buf.push(0);
                buf.push(FAMILY_IPV4);
                buf.push(*a);
                buf.push(*b);
                buf.push(*c);
                buf.push(*d);
                proof {
                    assert(buf@ =~= old(buf)@ + addr_wire(self.0));
                }
                Ok(())
            }
            AddressValue::IPv6(g0, g1, g2, g3, g4, g5, g6, g7) => {
                buf.push(0);
                buf.push(FAMILY_IPV6);
                push_group(buf, *g0);
                push_group(buf, *g1);
                push_group(buf, *g2);
                push_group(buf, *g3);
                push_group(buf, *g4);
                push_group(buf, *g5);
                push_group(buf, *g6);
                push_group(buf, *g7);
                proof {
                    assert(buf@ =~= old(buf)@ + addr_wire(self.0));
                }
                Ok(())
            }
            AddressValue::E164(_) => Err(Error::UnsupportedValueType),
        }
    }

    /// The attribute length this value declares on the wire; an E164 value
    /// has none until its encoding is implemented, so it is refused.
    pub fn length(&self) -> (r: Result<u32, Error>)
        ensures
            r is Ok <==> encodable(self.0),
            r matches Ok(n) ==> n == addr_wire_len(self.0),
            r matches Err(e) ==> e == Error::UnsupportedValueType,
    {
        match &self.0 {
            AddressValue::IPv4(_, _, _, _) => Ok(6),
            AddressValue::IPv6(_, _, _, _, _, _, _, _) => Ok(18),
            AddressValue::E164(_) => Err(Error::UnsupportedValueType),
        }
    }
}

/// Reads one 16-bit group back from its two big-endian wire bytes.
fn read_group(h: u8, l: u8) -> (r: u16)
    ensures
        r == group(h, l),
{
    ((h as u16) << 8) | (l as u16)
}

/// Appends one 16-bit group as its two big-endian wire bytes.
fn push_group(buf: &mut Vec<u8>, x: u16)
    ensures
        final(buf)@ == old(buf)@ + seq![hi(x), lo(x)],
{
    proof {
        assert((x >> 8) < 256 && (x & 0xff) < 256) by (bit_vector);
    }
    buf.push((x >> 8) as u8);
    buf.push((x & 0xff) as u8);
    proof {
        assert(buf@ =~= old(buf)@ + seq![hi(x), lo(x)]);
    }
}

/// Law: decoding the encoding of a supported address value gives the value
/// back, and the length it declares equals the number of bytes encoded.
pub proof fn lemma_address_round_trip(v: AddressValue)
    requires
        encodable(v),
    ensures
        addr_wire(v).len() == addr_wire_len(v),
        addr_decode_spec(addr_wire(v), addr_wire_len(v)) == Ok::<AddressValue, Error>(v),
{
    match v {
        AddressValue::IPv4(a, b, c, d) => {
        }
        AddressValue::IPv6(g0, g1, g2, g3, g4, g5, g6, g7) => {
            lemma_group_round_trip(g0);
            lemma_group_round_trip(g1);
            lemma_group_round_trip(g2);
            lemma_group_round_trip(g3);
            lemma_group_round_trip(g4);
            lemma_group_round_trip(g5);
            lemma_group_round_trip(g6);
            lemma_group_round_trip(g7);
        }
        AddressValue::E164(_) => {
        }
    }
}

/// A 16-bit group survives the trip through its two wire bytes.
proof fn lemma_group_round_trip(x: u16)
    ensures
        group(hi(x), lo(x)) == x,
{
    assert(((((x >> 8) as u8) as u16) << 8 | (((x & 0xff) as u8) as u16)) as u16 == x)
        by (bit_vector);
}

/// Two wire bytes survive the trip through their 16-bit group.
proof fn lemma_group_bytes(h: u8, l: u8)
    ensures
        hi(group(h, l)) == h,
        lo(group(h, l)) == l,
{
    assert(((((h as u16) << 8) | (l as u16)) as u16 >> 8) as u8 == h && ((((h as u16) << 8) | (
    l as u16)) as u16 & 0xff) as u8 == l) by (bit_vector);
}

/// Law: the decoder accepts nothing but encodings — a value decoded from a
/// buffer of exactly the declared length encodes back to that very buffer,
/// so the wire form of every supported value is canonical.
pub proof fn lemma_address_decode_sound(b: Seq<u8>, len: int, v: AddressValue)
    requires
        b.len() == len,
        addr_decode_spec(b, len) == Ok::<AddressValue, Error>(v),
    ensures
        encodable(v),
        addr_wire_len(v) == len,
        addr_wire(v) == b,
{
    if b[1] == FAMILY_IPV4 {
        assert(addr_wire(v) =~= b);
    } else {
        lemma_group_bytes(b[2], b[3]);
        lemma_group_bytes(b[4], b[5]);
        lemma_group_bytes(b[6], b[7]);
        lemma_group_bytes(b[8], b[9]);
        lemma_group_bytes(b[10], b[11]);
        lemma_group_bytes(b[12], b[13]);
        lemma_group_bytes(b[14], b[15]);
        lemma_group_bytes(b[16], b[17]);
        assert(addr_wire(v) =~= b);
    }
}

/// Law: a recognized family discriminator whose declared attribute length
/// disagrees with the family's fixed size is rejected as a length mismatch,
/// whatever else the input holds.
pub proof fn lemma_length_mismatch_rejected(b: Seq<u8>, len: int)
    requires
        b.len() >= 2,
        b[0] == 0,
        (b[1] == FAMILY_IPV4 && len != 6) || (b[1] == FAMILY_IPV6 && len != 18),
    ensures
        addr_decode_spec(b, len) == Err::<AddressValue, Error>(Error::InvalidAddressLength),
{
}

/// Law: a family discriminator that is neither IPv4, IPv6 nor E164 is
/// rejected as an unsupported address type, whatever the declared length.
pub proof fn lemma_unsupported_family_rejected(b: Seq<u8>, len: int)
    requires
        b.len() >= 2,
        !(b[0] == 0 && (b[1] == FAMILY_IPV4 || b[1] == FAMILY_IPV6 || b[1] == FAMILY_E164)),
    ensures
        addr_decode_spec(b, len) == Err::<AddressValue, Error>(Error::UnsupportedAddressType),
{
}

} // verus!

