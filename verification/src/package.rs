//! The fixed-size record that the XDP program writes into the ring buffer
//! for every TCP or UDP packet it lets through, and its decoding in user space.

use vstd::prelude::*;

verus! {

/// Number of bytes of one encoded [`PackageInfo`] record.
pub const PINFOLEN: usize = 9;

/// The big-endian bytes of a `u32`, most significant first.
pub open spec fn be_bytes_u32(x: u32) -> Seq<u8> {
    seq![
        (x / 0x100_0000) as u8,
        ((x / 0x1_0000) % 0x100) as u8,
        ((x / 0x100) % 0x100) as u8,
        (x % 0x100) as u8,
    ]
}

/// The big-endian bytes of a `u16`, most significant first.
pub open spec fn be_bytes_u16(x: u16) -> Seq<u8> {
    seq![(x / 0x100) as u8, (x % 0x100) as u8]
}

/// The `u32` whose big-endian bytes are `b0 b1 b2 b3`.
pub open spec fn be_u32(b0: u8, b1: u8, b2: u8, b3: u8) -> u32 {
    (b0 * 0x100_0000int + b1 * 0x1_0000int + b2 * 0x100int + b3) as u32
}

/// The `u16` whose big-endian bytes are `b0 b1`.
pub open spec fn be_u16(b0: u8, b1: u8) -> u16 {
    (b0 * 0x100int + b1) as u16
}

/// Transport protocols the user-space side tells apart.
#[derive(Debug, Clone, Copy, PartialEq, Eq)]
pub enum ProtocalType {
    TCP,
    UDP,
    Unknown,
}

/// IP protocol number of TCP.
pub const PROTO_TCP: u8 = 6;

/// IP protocol number of UDP.
pub const PROTO_UDP: u8 = 17;

/// The protocol named by an IP protocol number.
pub open spec fn protocol_of(proto: u8) -> ProtocalType {
    if proto == PROTO_TCP {
        ProtocalType::TCP
    } else if proto == PROTO_UDP {
        ProtocalType::UDP
    } else {
        ProtocalType::Unknown
    }
}

/// What the firewall reports about one packet: source address and ports
/// in host order, and the IP protocol number.
#[derive(Debug, Clone, Copy, PartialEq, Eq)]
pub struct PackageInfo {
    pub source_ip: u32,
    pub source_port: u16,
    pub destination_port: u16,
    pub proto_type: u8,
}

impl PackageInfo {
    /// The record layout: source address (4 bytes), source port (2),
    /// destination port (2), protocol (1), every field big-endian.
    pub open spec fn encoding(self) -> Seq<u8> {
        be_bytes_u32(self.source_ip) + be_bytes_u16(self.source_port) + be_bytes_u16(
            self.destination_port,
        ) + seq![self.proto_type]
    }

    /// The record that a byte sequence of length [`PINFOLEN`] encodes.
    pub open spec fn decoding(b: Seq<u8>) -> PackageInfo {
        PackageInfo {
            source_ip: be_u32(b[0], b[1], b[2], b[3]),
            source_port: be_u16(b[4], b[5]),
            destination_port: be_u16(b[6], b[7]),
            proto_type: b[8],
        }
    }

    pub fn new(source_ip: u32, source_port: u16, destination_port: u16, proto_type: u8) -> (r:
        PackageInfo)
        ensures
            r == (PackageInfo { source_ip, source_port, destination_port, proto_type }),
    {
        PackageInfo { source_ip, source_port, destination_port, proto_type }
    }

    /// Encodes the record for the ring buffer.
    pub fn to_be_bytes(&self) -> (r: [u8; PINFOLEN])
        ensures
            r@ == self.encoding(),
    {
        let ip = self.source_ip;
        let sp = self.source_port;
        let dp = self.destination_port;
        let r: [u8; PINFOLEN] = [
            (ip / 0x100_0000) as u8,
            ((ip / 0x1_0000) % 0x100) as u8,
            ((ip / 0x100) % 0x100) as u8,
            (ip % 0x100) as u8,
            (sp / 0x100) as u8,
            (sp % 0x100) as u8,
            (dp / 0x100) as u8,
            (dp % 0x100) as u8,
            self.proto_type,
        ];
        assert(r@ =~= self.encoding());
        r
    }

    /// Decodes a record read from the ring buffer.
    pub fn from_bytes(bytes: &[u8; PINFOLEN]) -> (r: Self)
        ensures
            r == PackageInfo::decoding(bytes@),
    {
        let source_ip = ((bytes[0] as u32) * 0x100_0000 + (bytes[1] as u32) * 0x1_0000 + (
        bytes[2] as u32) * 0x100 + (bytes[3] as u32));
        let source_port = (bytes[4] as u16) * 0x100 + (bytes[5] as u16);
        let destination_port = (bytes[6] as u16) * 0x100 + (bytes[7] as u16);
        let proto_type = bytes[8];
        PackageInfo { source_ip, source_port, destination_port, proto_type }
    }

    /// The transport protocol named by the record's protocol number.
    pub fn proto_type(&self) -> (r: ProtocalType)
        ensures
            r == protocol_of(self.proto_type),
    {
        match self.proto_type {
            6 => ProtocalType::TCP,
            17 => ProtocalType::UDP,
            _ => ProtocalType::Unknown,
        }
    }
}

/// Decoding the encoding of a `u32` gives it back.
proof fn lemma_be_u32_roundtrip(x: u32)
    ensures
        be_u32(
            be_bytes_u32(x)[0],
            be_bytes_u32(x)[1],
            be_bytes_u32(x)[2],
            be_bytes_u32(x)[3],
        ) == x,
{
    let b0 = (x / 0x100_0000) as u8;
    let b1 = ((x / 0x1_0000) % 0x100) as u8;
    let b2 = ((x / 0x100) % 0x100) as u8;
    let b3 = (x % 0x100) as u8;
    assert(b0 * 0x100_0000int + b1 * 0x1_0000int + b2 * 0x100int + b3 == x);
}

/// Decoding the encoding of a `u16` gives it back.
proof fn lemma_be_u16_roundtrip(x: u16)
    ensures
        be_u16(be_bytes_u16(x)[0], be_bytes_u16(x)[1]) == x,
{
    let b0 = (x / 0x100) as u8;
    let b1 = (x % 0x100) as u8;
    assert(b0 * 0x100int + b1 == x);
}

/// Encoding the `u32` decoded from four bytes gives the bytes back.
proof fn lemma_be_bytes_u32_roundtrip(b0: u8, b1: u8, b2: u8, b3: u8)
    ensures
        be_bytes_u32(be_u32(b0, b1, b2, b3)) == seq![b0, b1, b2, b3],
{
    let x = be_u32(b0, b1, b2, b3);
    let v: int = b0 * 0x100_0000int + b1 * 0x1_0000int + b2 * 0x100int + b3;
    assert(0 <= v < 0x1_0000_0000);
    assert(x == v);
    assert(v / 0x100_0000 == b0) by (nonlinear_arith)
        requires
            v == b0 * 0x100_0000int + b1 * 0x1_0000int + b2 * 0x100int + b3,
            0 <= b1 < 256,
            0 <= b2 < 256,
            0 <= b3 < 256,
    ;
    assert((v / 0x1_0000) % 0x100 == b1) by (nonlinear_arith)
        requires
            v == b0 * 0x100_0000int + b1 * 0x1_0000int + b2 * 0x100int + b3,
            0 <= b0 < 256,
            0 <= b1 < 256,
            0 <= b2 < 256,
            0 <= b3 < 256,
    ;
    assert((v / 0x100) % 0x100 == b2) by (nonlinear_arith)
        requires
            v == b0 * 0x100_0000int + b1 * 0x1_0000int + b2 * 0x100int + b3,
            0 <= b0 < 256,
            0 <= b1 < 256,
            0 <= b2 < 256,
            0 <= b3 < 256,
    ;
    assert(v % 0x100 == b3) by (nonlinear_arith)
        requires
            v == b0 * 0x100_0000int + b1 * 0x1_0000int + b2 * 0x100int + b3,
            0 <= b0 < 256,
            0 <= b1 < 256,
            0 <= b2 < 256,
            0 <= b3 < 256,
    ;
    assert(be_bytes_u32(x) =~= seq![b0, b1, b2, b3]);
}

/// Encoding the `u16` decoded from two bytes gives the bytes back.
proof fn lemma_be_bytes_u16_roundtrip(b0: u8, b1: u8)
    ensures
        be_bytes_u16(be_u16(b0, b1)) == seq![b0, b1],
{
    let x = be_u16(b0, b1);
    assert(x == b0 * 0x100int + b1);
    assert((x / 0x100) as u8 == b0 && (x % 0x100) as u8 == b1);
    assert(be_bytes_u16(x) =~= seq![b0, b1]);
}

/// What user space decodes from a record is exactly what the XDP program
/// encoded: `from_bytes(to_be_bytes(p)) == p`.
pub proof fn lemma_decode_encode(p: PackageInfo)
    ensures
        PackageInfo::decoding(p.encoding()) == p,
        p.encoding().len() == PINFOLEN,
{
    lemma_be_u32_roundtrip(p.source_ip);
    lemma_be_u16_roundtrip(p.source_port);
    lemma_be_u16_roundtrip(p.destination_port);
}

/// Every record of [`PINFOLEN`] bytes is the encoding of the record it
/// decodes to: `to_be_bytes(from_bytes(b)) == b`.
pub proof fn lemma_encode_decode(b: Seq<u8>)
    requires
        b.len() == PINFOLEN,
    ensures
        PackageInfo::decoding(b).encoding() == b,
{
    lemma_be_bytes_u32_roundtrip(b[0], b[1], b[2], b[3]);
    lemma_be_bytes_u16_roundtrip(b[4], b[5]);
    lemma_be_bytes_u16_roundtrip(b[6], b[7]);
    assert(PackageInfo::decoding(b).encoding() =~= b);
}

} // verus!
