use ebpf_firewall::blocklist::{load_blocklist, BlockList};
use ebpf_firewall::firewall::{xdp_firewall, XdpAction};
use ebpf_firewall::package::{PackageInfo as Record, ProtocalType};
use ebpf_firewall::package_info::{event_record, proto_name, PackageInfo};

#[test]
fn protocol_names() {
    assert_eq!(proto_name(&ProtocalType::TCP), "TCP");
    assert_eq!(proto_name(&ProtocalType::UDP), "UDP");
    assert_eq!(proto_name(&ProtocalType::Unknown), "Unknown");
}

#[test]
fn row_from_record() {
    let row = PackageInfo::from_record(&Record::new(0xC0A8_0001, 1234, 80, 6));
    assert_eq!(row.source_ip, "192.168.0.1");
    assert_eq!(row.source_port, 1234);
    assert_eq!(row.destination_port, 80);
    assert_eq!(row.proto_type, "TCP");
    let row = PackageInfo::from_record(&Record::new(1, 65535, 0, 47));
    assert_eq!(row.source_ip, "0.0.0.1");
    assert_eq!(row.source_port, 65535);
    assert_eq!(row.proto_type, "Unknown");
}

#[test]
fn event_needs_a_whole_record() {
    assert_eq!(event_record(&[1, 2, 3, 4, 5, 6, 7, 8]), None);
    let bytes = [10u8, 0, 0, 1, 0, 22, 0x9C, 0x40, 17, 0xFF];
    assert_eq!(event_record(&bytes), Some(Record::new(0x0A00_0001, 22, 40000, 17)));
}

#[test]
fn stored_address_blocks_and_reported_rows_read_back() {
    let bl = load_blocklist(&vec!["172.0.0.1".to_string()]).unwrap();
    let mut p = vec![0u8; 12];
    p.extend_from_slice(&[0x08, 0x00, 0x45, 0, 0, 0, 0, 0, 0, 0, 64, 6, 0, 0, 172, 0, 0, 1, 10, 0, 0, 1]);
    p.extend_from_slice(&[0x1F, 0x90, 0x00, 0x50]);
    p.extend_from_slice(&[0u8; 16]);
    assert_eq!(xdp_firewall(&p, &bl).action, XdpAction::Drop);
    let v = xdp_firewall(&p, &BlockList::new());
    assert_eq!(v.action, XdpAction::Pass);
    let rec = v.record.unwrap();
    let read = event_record(&rec.to_be_bytes()).unwrap();
    let row = PackageInfo::from_record(&read);
    assert_eq!(row.source_ip, "172.0.0.1");
    assert_eq!(row.source_port, 8080);
    assert_eq!(row.destination_port, 80);
    assert_eq!(row.proto_type, "TCP");
}
