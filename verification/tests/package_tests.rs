use ebpf_firewall::package::{PackageInfo, ProtocalType, PINFOLEN};

#[test]
fn record_encodes_big_endian() {
    let p = PackageInfo::new(0xAC00_0001, 443, 0x1F90, 6);
    let b = p.to_be_bytes();
    assert_eq!(b.len(), PINFOLEN);
    assert_eq!(b, [0xAC, 0x00, 0x00, 0x01, 0x01, 0xBB, 0x1F, 0x90, 6]);
}

#[test]
fn record_decodes_big_endian() {
    let b = [192u8, 168, 1, 20, 0x00, 0x35, 0xC3, 0x50, 17];
    let p = PackageInfo::from_bytes(&b);
    assert_eq!(p.source_ip, 0xC0A8_0114);
    assert_eq!(p.source_port, 53);
    assert_eq!(p.destination_port, 50000);
    assert_eq!(p.proto_type, 17);
}

#[test]
fn record_roundtrips() {
    for (ip, sp, dp, proto) in [
        (0u32, 0u16, 0u16, 0u8),
        (u32::MAX, u16::MAX, u16::MAX, u8::MAX),
        (0x0102_0304, 0x0506, 0x0708, 9),
        (0x7F00_0001, 22, 61000, 6),
    ] {
        let p = PackageInfo::new(ip, sp, dp, proto);
        assert_eq!(PackageInfo::from_bytes(&p.to_be_bytes()), p);
    }
    let b = [9u8, 8, 7, 6, 5, 4, 3, 2, 1];
    assert_eq!(PackageInfo::from_bytes(&b).to_be_bytes(), b);
}

#[test]
fn protocol_numbers_name_protocols() {
    assert_eq!(PackageInfo::new(1, 2, 3, 6).proto_type(), ProtocalType::TCP);
    assert_eq!(PackageInfo::new(1, 2, 3, 17).proto_type(), ProtocalType::UDP);
    assert_eq!(PackageInfo::new(1, 2, 3, 1).proto_type(), ProtocalType::Unknown);
    assert_eq!(PackageInfo::new(1, 2, 3, 0).proto_type(), ProtocalType::Unknown);
}
