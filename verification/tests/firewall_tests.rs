use ebpf_firewall::blocklist::BlockList;
use ebpf_firewall::firewall::{
    try_xdp_firewall, xdp_firewall, XdpAction, ETH_HDR_LEN, IPV4_HDR_LEN, TCP_HDR_LEN, UDP_HDR_LEN,
};
use ebpf_firewall::package::PackageInfo;
use network_types::eth::EthHdr;
use network_types::ip::Ipv4Hdr;
use network_types::tcp::TcpHdr;
use network_types::udp::UdpHdr;

fn frame(ether_type: [u8; 2], proto: u8, src: [u8; 4], sport: u16, dport: u16, l4_len: usize) -> Vec<u8> {
    let mut p = vec![0u8; 12];
    p.extend_from_slice(&ether_type);
    let mut ip = vec![0u8; 20];
    ip[0] = 0x45;
    ip[9] = proto;
    ip[12..16].copy_from_slice(&src);
    ip[16..20].copy_from_slice(&[10, 0, 0, 1]);
    p.extend_from_slice(&ip);
    let mut l4 = vec![0u8; l4_len];
    if l4_len >= 4 {
        l4[0..2].copy_from_slice(&sport.to_be_bytes());
        l4[2..4].copy_from_slice(&dport.to_be_bytes());
    }
    p.extend_from_slice(&l4);
    p
}

#[test]
fn header_lengths_match_network_types() {
    assert_eq!(ETH_HDR_LEN, EthHdr::LEN);
    assert_eq!(IPV4_HDR_LEN, Ipv4Hdr::LEN);
    assert_eq!(TCP_HDR_LEN, TcpHdr::LEN);
    assert_eq!(UDP_HDR_LEN, UdpHdr::LEN);
}

#[test]
fn tcp_packet_passes_and_is_reported() {
    let bl = BlockList::new();
    let p = frame([0x08, 0x00], 6, [192, 168, 1, 7], 51000, 443, 20);
    let v = xdp_firewall(&p, &bl);
    assert_eq!(v.action, XdpAction::Pass);
    assert_eq!(v.action.code(), 2);
    assert_eq!(v.record, Some(PackageInfo::new(0xC0A8_0107, 51000, 443, 6)));
}

#[test]
fn udp_packet_passes_and_is_reported() {
    let bl = BlockList::new();
    let p = frame([0x08, 0x00], 17, [8, 8, 8, 8], 53, 40000, 8);
    let v = xdp_firewall(&p, &bl);
    assert_eq!(v.action, XdpAction::Pass);
    assert_eq!(v.record, Some(PackageInfo::new(0x0808_0808, 53, 40000, 17)));
}

#[test]
fn blocked_source_is_dropped() {
    let mut bl = BlockList::new();
    bl.insert(0xAC00_0001).unwrap();
    let p = frame([0x08, 0x00], 6, [172, 0, 0, 1], 1, 2, 20);
    let v = xdp_firewall(&p, &bl);
    assert_eq!(v.action, XdpAction::Drop);
    assert_eq!(v.action.code(), 1);
    assert_eq!(v.record, None);
    let short = frame([0x08, 0x00], 6, [172, 0, 0, 1], 1, 2, 0);
    assert_eq!(xdp_firewall(&short, &bl).action, XdpAction::Drop);
    let icmp = frame([0x08, 0x00], 1, [172, 0, 0, 1], 0, 0, 8);
    assert_eq!(xdp_firewall(&icmp, &bl).action, XdpAction::Drop);
}

#[test]
fn non_ipv4_frame_passes_unreported() {
    let mut bl = BlockList::new();
    bl.insert(0xAC00_0001).unwrap();
    let p = frame([0x86, 0xDD], 6, [172, 0, 0, 1], 1, 2, 20);
    let v = xdp_firewall(&p, &bl);
    assert_eq!(v.action, XdpAction::Pass);
    assert_eq!(v.record, None);
    let only_eth = vec![0u8; 14];
    assert_eq!(xdp_firewall(&only_eth, &bl).action, XdpAction::Pass);
}

#[test]
fn other_protocols_and_short_frames_abort() {
    let bl = BlockList::new();
    let icmp = frame([0x08, 0x00], 1, [1, 2, 3, 4], 0, 0, 8);
    assert_eq!(try_xdp_firewall(&icmp, &bl), Err(()));
    let v = xdp_firewall(&icmp, &bl);
    assert_eq!(v.action, XdpAction::Aborted);
    assert_eq!(v.action.code(), 0);
    assert_eq!(v.record, None);
    let short_tcp = frame([0x08, 0x00], 6, [1, 2, 3, 4], 1, 2, 19);
    assert_eq!(xdp_firewall(&short_tcp, &bl).action, XdpAction::Aborted);
    let short_udp = frame([0x08, 0x00], 17, [1, 2, 3, 4], 1, 2, 7);
    assert_eq!(xdp_firewall(&short_udp, &bl).action, XdpAction::Aborted);
    assert_eq!(xdp_firewall(&[0u8; 13], &bl).action, XdpAction::Aborted);
    let mut short_ip = frame([0x08, 0x00], 6, [1, 2, 3, 4], 1, 2, 0);
    short_ip.pop();
    assert_eq!(xdp_firewall(&short_ip, &bl).action, XdpAction::Aborted);
}

#[test]
fn reported_packets_are_passed_unblocked_tcp_or_udp() {
    let mut bl = BlockList::new();
    bl.insert(0x0101_0101).unwrap();
    for (proto, src, l4) in [(6u8, [2, 2, 2, 2], 20usize), (17, [3, 3, 3, 3], 8), (6, [1, 1, 1, 1], 20), (1, [4, 4, 4, 4], 8)] {
        let p = frame([0x08, 0x00], proto, src, 7, 9, l4);
        let v = xdp_firewall(&p, &bl);
        if let Some(rec) = v.record {
            assert_eq!(v.action, XdpAction::Pass);
            assert!(!bl.contains(rec.source_ip));
            assert!(rec.proto_type == 6 || rec.proto_type == 17);
            assert_eq!(rec.source_ip, u32::from_be_bytes(src));
        }
    }
}
