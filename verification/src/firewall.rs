//! The XDP firewall's decision on one Ethernet frame: frames that are not
//! IPv4 pass, IPv4 packets from a blocked source are dropped, TCP and UDP
//! packets pass and are reported, anything else is aborted.

use vstd::prelude::*;
use crate::address::std_ipv4_addr;
use crate::blocklist::{load_outcome, lemma_load_blocks_every_row, BlockList};
use crate::package::{be_u16, be_u32, PackageInfo, PROTO_TCP, PROTO_UDP};

verus! {

/// Length of an Ethernet header.
pub const ETH_HDR_LEN: usize = 14;

/// Length of an IPv4 header without options.
pub const IPV4_HDR_LEN: usize = 20;

/// Length of a TCP header without options.
pub const TCP_HDR_LEN: usize = 20;

/// Length of a UDP header.
pub const UDP_HDR_LEN: usize = 8;

/// What the XDP program tells the kernel to do with a frame.
#[derive(Debug, Clone, Copy, PartialEq, Eq)]
pub enum XdpAction {
    Aborted,
    Drop,
    Pass,
}

impl XdpAction {
    /// The kernel's number for the action.
    pub open spec fn spec_code(self) -> u32 {
        match self {
            XdpAction::Aborted => 0,
            XdpAction::Drop => 1,
            XdpAction::Pass => 2,
        }
    }

    /// The kernel's number for the action (`XDP_ABORTED`, `XDP_DROP`, `XDP_PASS`).
    pub fn code(&self) -> (r: u32)
        ensures
            r == self.spec_code(),
    {
        match self {
            XdpAction::Aborted => 0,
            XdpAction::Drop => 1,
            XdpAction::Pass => 2,
        }
    }
}

/// The program's answer for a frame, and the record it hands to user space.
#[derive(Debug, Clone, Copy, PartialEq, Eq)]
pub struct PacketVerdict {
    pub action: XdpAction,
    pub record: Option<PackageInfo>,
}

/// The big-endian `u16` at offset `i` of `p`.
pub open spec fn be16_at(p: Seq<u8>, i: int) -> u16 {
    be_u16(p[i], p[i + 1])
}

/// The big-endian `u32` at offset `i` of `p`.
pub open spec fn be32_at(p: Seq<u8>, i: int) -> u32 {
    be_u32(p[i], p[i + 1], p[i + 2], p[i + 3])
}

/// Whether a header of `len` bytes at `offset` lies within the frame.
pub open spec fn fits(p: Seq<u8>, offset: int, len: int) -> bool {
    offset + len <= p.len()
}

/// Whether the frame's EtherType is IPv4 (0x0800).
pub open spec fn is_ipv4_frame(p: Seq<u8>) -> bool {
    p[12] == 0x08 && p[13] == 0x00
}

/// The source address of the IPv4 header that follows the Ethernet header.
pub open spec fn source_address(p: Seq<u8>) -> u32 {
    be32_at(p, ETH_HDR_LEN + 12)
}

/// The protocol number of the IPv4 header that follows the Ethernet header.
pub open spec fn ip_protocol(p: Seq<u8>) -> u8 {
    p[ETH_HDR_LEN + 9]
}

/// The record for a passed packet whose transport header (holding the
/// source and destination ports first) follows the IPv4 header.
pub open spec fn reported(p: Seq<u8>, proto: u8) -> PackageInfo {
    let l4 = ETH_HDR_LEN + IPV4_HDR_LEN;
    PackageInfo {
        source_ip: source_address(p),
        source_port: be16_at(p, l4),
        destination_port: be16_at(p, l4 + 2),
        proto_type: proto,
    }
}

/// The decision on frame `p` with the blocked addresses `blocked`; `Err`
/// where a header the decision needs runs past the end of the frame, or
/// the IPv4 packet is neither TCP nor UDP.
pub open spec fn firewall_decision(p: Seq<u8>, blocked: Set<u32>) -> Result<PacketVerdict, ()> {
    let l4 = ETH_HDR_LEN + IPV4_HDR_LEN;
    if !fits(p, 0, ETH_HDR_LEN as int) {
        Err(())
    } else if !is_ipv4_frame(p) {
        Ok(PacketVerdict { action: XdpAction::Pass, record: None })
    } else if !fits(p, ETH_HDR_LEN as int, IPV4_HDR_LEN as int) {
        Err(())
    } else if blocked.contains(source_address(p)) {
        Ok(PacketVerdict { action: XdpAction::Drop, record: None })
    } else if ip_protocol(p) == PROTO_TCP {
        if !fits(p, l4, TCP_HDR_LEN as int) {
            Err(())
        } else {
            Ok(PacketVerdict { action: XdpAction::Pass, record: Some(reported(p, PROTO_TCP)) })
        }
    } else if ip_protocol(p) == PROTO_UDP {
        if !fits(p, l4, UDP_HDR_LEN as int) {
            Err(())
        } else {
            Ok(PacketVerdict { action: XdpAction::Pass, record: Some(reported(p, PROTO_UDP)) })
        }
    } else {
        Err(())
    }
}

/// The offset of a header of `len` bytes at `offset`, if it lies within the frame.
fn ptr_at(packet: &[u8], offset: usize, len: usize) -> (r: Result<usize, ()>)
    requires
        offset + len <= usize::MAX,
    ensures
        r is Ok <==> fits(packet@, offset as int, len as int),
        r matches Ok(o) ==> o == offset,
{
    if offset + len > packet.len() {
        return Err(());
    }
    Ok(offset)
}

/// Whether packets from `address` are to be dropped.
fn block_ip(blocklist: &BlockList, address: u32) -> (r: bool)
    ensures
        r == blocklist@.contains(address),
{
    blocklist.contains(address)
}

/// The big-endian `u16` at offset `i` of the frame.
fn read_be16(packet: &[u8], i: usize) -> (r: u16)
    requires
        i + 2 <= packet@.len(),
    ensures
        r == be16_at(packet@, i as int),
{
    (packet[i] as u16) * 0x100 + (packet[i + 1] as u16)
}

/// The big-endian `u32` at offset `i` of the frame.
fn read_be32(packet: &[u8], i: usize) -> (r: u32)
    requires
        i + 4 <= packet@.len(),
    ensures
        r == be32_at(packet@, i as int),
{
    (packet[i] as u32) * 0x100_0000 + (packet[i + 1] as u32) * 0x1_0000 + (packet[i + 2] as u32)
        * 0x100 + (packet[i + 3] as u32)
}

/// Decides on one frame; `Err` as [`firewall_decision`] says.
pub fn try_xdp_firewall(packet: &[u8], blocklist: &BlockList) -> (r: Result<PacketVerdict, ()>)
    ensures
        r == firewall_decision(packet@, blocklist@),
{
    let eth = ptr_at(packet, 0, ETH_HDR_LEN)?;
    if !(packet[eth + 12] == 0x08 && packet[eth + 13] == 0x00) {
        return Ok(PacketVerdict { action: XdpAction::Pass, record: None });
    }
    let ip = ptr_at(packet, ETH_HDR_LEN, IPV4_HDR_LEN)?;
    let source_ip = read_be32(packet, ip + 12);
    if block_ip(blocklist, source_ip) {
        return Ok(PacketVerdict { action: XdpAction::Drop, record: None });
    }
    let proto = packet[ip + 9];
    let l4 = if proto == PROTO_TCP {
        ptr_at(packet, ETH_HDR_LEN + IPV4_HDR_LEN, TCP_HDR_LEN)?
    } else if proto == PROTO_UDP {
        ptr_at(packet, ETH_HDR_LEN + IPV4_HDR_LEN, UDP_HDR_LEN)?
    } else {
        return Err(());
    };
    let source_port = read_be16(packet, l4);
    let destination_port = read_be16(packet, l4 + 2);
    let info = PackageInfo::new(source_ip, source_port, destination_port, proto);
    Ok(PacketVerdict { action: XdpAction::Pass, record: Some(info) })
}

/// The verdict on one frame: the decision of [`try_xdp_firewall`], or an
/// abort without a record where that fails.
pub fn xdp_firewall(packet: &[u8], blocklist: &BlockList) -> (r: PacketVerdict)
    ensures
        r == (match firewall_decision(packet@, blocklist@) {
            Ok(v) => v,
            Err(_) => PacketVerdict { action: XdpAction::Aborted, record: None },
        }),
{
    match try_xdp_firewall(packet, blocklist) {
        Ok(v) => v,
        Err(_) => PacketVerdict { action: XdpAction::Aborted, record: None },
    }
}

/// An IPv4 packet whose source address is blocked is dropped, and nothing
/// is reported about it.
pub proof fn lemma_blocked_source_dropped(p: Seq<u8>, blocked: Set<u32>)
    requires
        p.len() >= ETH_HDR_LEN + IPV4_HDR_LEN,
        is_ipv4_frame(p),
        blocked.contains(source_address(p)),
    ensures
        firewall_decision(p, blocked) == Ok::<PacketVerdict, ()>(
            PacketVerdict { action: XdpAction::Drop, record: None },
        ),
{
}

/// A frame that is not IPv4 passes unreported, whatever is blocked.
pub proof fn lemma_non_ipv4_passes(p: Seq<u8>, blocked: Set<u32>)
    requires
        p.len() >= ETH_HDR_LEN,
        !is_ipv4_frame(p),
    ensures
        firewall_decision(p, blocked) == Ok::<PacketVerdict, ()>(
            PacketVerdict { action: XdpAction::Pass, record: None },
        ),
{
}

/// Only passed TCP and UDP packets from unblocked sources are reported, and
/// every packet from an unblocked source that is reported is passed.
pub proof fn lemma_reports_only_passed_unblocked(p: Seq<u8>, blocked: Set<u32>)
    requires
        firewall_decision(p, blocked) matches Ok(v) && v.record is Some,
    ensures
        ({
            let v = firewall_decision(p, blocked)->Ok_0;
            let rec = v.record->Some_0;
            &&& v.action == XdpAction::Pass
            &&& !blocked.contains(rec.source_ip)
            &&& rec.source_ip == source_address(p)
            &&& rec.proto_type == PROTO_TCP || rec.proto_type == PROTO_UDP
            &&& rec.proto_type == ip_protocol(p)
        }),
{
}

/// Blocking an address through the stored texts takes effect: once the
/// stored texts load into a block list, every IPv4 packet whose source is
/// one of the stored addresses is dropped by the firewall with that list.
pub proof fn lemma_stored_address_dropped(rows: Seq<Seq<char>>, i: int, p: Seq<u8>)
    requires
        load_outcome(rows) is Ok,
        0 <= i < rows.len(),
        std_ipv4_addr(rows[i]) == Some(source_address(p)),
        p.len() >= ETH_HDR_LEN + IPV4_HDR_LEN,
        is_ipv4_frame(p),
    ensures
        firewall_decision(p, load_outcome(rows)->Ok_0) == Ok::<PacketVerdict, ()>(
            PacketVerdict { action: XdpAction::Drop, record: None },
        ),
{
    lemma_load_blocks_every_row(rows);
    assert(std_ipv4_addr(rows[i]) is Some);
    lemma_blocked_source_dropped(p, load_outcome(rows)->Ok_0);
}

/// A well-formed IPv4 TCP or UDP frame whose source address (bytes 26..30)
/// is not blocked passes, reported with its source address, its source and
/// destination ports (the first two big-endian words of the transport
/// header at byte 34) and its protocol number, whatever its destination.
pub proof fn lemma_unblocked_transport_packet_passes(p: Seq<u8>, blocked: Set<u32>)
    requires
        p[12] == 0x08 && p[13] == 0x00,
        p[23] == 6 || p[23] == 17,
        p[23] == 6 ==> p.len() >= 54,
        p[23] == 17 ==> p.len() >= 42,
        !blocked.contains(be_u32(p[26], p[27], p[28], p[29])),
    ensures
        firewall_decision(p, blocked) == Ok::<PacketVerdict, ()>(
            PacketVerdict {
                action: XdpAction::Pass,
                record: Some(
                    PackageInfo {
                        source_ip: be_u32(p[26], p[27], p[28], p[29]),
                        source_port: be_u16(p[34], p[35]),
                        destination_port: be_u16(p[36], p[37]),
                        proto_type: p[23],
                    },
                ),
            },
        ),
{
}

/// A frame is dropped exactly when it is an IPv4 frame with a whole IPv4
/// header whose source address (bytes 26..30) is blocked.
pub proof fn lemma_drop_iff_source_blocked(p: Seq<u8>, blocked: Set<u32>)
    ensures
        (firewall_decision(p, blocked) matches Ok(v) && v.action == XdpAction::Drop) <==> (p.len()
            >= 34 && p[12] == 0x08 && p[13] == 0x00 && blocked.contains(
            be_u32(p[26], p[27], p[28], p[29]),
        )),
{
}

/// The destination address (bytes 30..34) plays no part in the decision:
/// two frames that differ only there are decided alike.
pub proof fn lemma_destination_ignored(p: Seq<u8>, q: Seq<u8>, blocked: Set<u32>)
    requires
        p.len() == q.len(),
        forall|i: int| 0 <= i < p.len() && !(30 <= i < 34) ==> p[i] == q[i],
    ensures
        firewall_decision(p, blocked) == firewall_decision(q, blocked),
{
    if p.len() >= 14 {
        assert(p[12] == q[12] && p[13] == q[13]);
    }
    if p.len() >= 34 {
        assert(p[23] == q[23]);
        assert(p[26] == q[26] && p[27] == q[27] && p[28] == q[28] && p[29] == q[29]);
    }
    if p.len() >= 42 {
        assert(p[34] == q[34] && p[35] == q[35] && p[36] == q[36] && p[37] == q[37]);
    }
}

} // verus!
