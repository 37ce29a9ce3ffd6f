use ebpf_firewall::blocklist::{load_blocklist, BlockList, BlockListFull, LoadError, MAX_BLOCKED_IPS};

#[test]
fn insert_then_contains() {
    let mut bl = BlockList::new();
    assert_eq!(bl.len(), 0);
    assert!(!bl.contains(7));
    assert_eq!(bl.insert(7), Ok(()));
    assert!(bl.contains(7));
    assert!(!bl.contains(8));
    assert_eq!(bl.insert(7), Ok(()));
    assert_eq!(bl.len(), 1);
}

#[test]
fn full_list_refuses_only_new_addresses() {
    let mut bl = BlockList::new();
    for a in 0..MAX_BLOCKED_IPS as u32 {
        assert_eq!(bl.insert(a), Ok(()));
    }
    assert_eq!(bl.len(), MAX_BLOCKED_IPS);
    assert_eq!(bl.insert(5), Ok(()));
    assert_eq!(bl.insert(100_000), Err(BlockListFull));
    assert!(!bl.contains(100_000));
    assert_eq!(bl.len(), MAX_BLOCKED_IPS);
}

#[test]
fn load_parses_every_row() {
    let rows = vec!["172.0.0.1".to_string(), "10.0.0.2".to_string(), "172.0.0.1".to_string()];
    let bl = load_blocklist(&rows).unwrap();
    assert_eq!(bl.len(), 2);
    assert!(bl.contains(0xAC00_0001));
    assert!(bl.contains(0x0A00_0002));
}

#[test]
fn load_stops_at_unparsable_row() {
    let rows = vec!["1.1.1.1".to_string(), "01.2.3.4".to_string(), "x".to_string()];
    assert!(matches!(load_blocklist(&rows), Err(LoadError::Unparsable { row: 1 })));
}

#[test]
fn load_stops_when_full() {
    let mut rows = Vec::new();
    for i in 0..(MAX_BLOCKED_IPS + 1) {
        rows.push(format!("10.0.{}.{}", i / 256, i % 256));
    }
    rows.push("bad".to_string());
    assert!(matches!(load_blocklist(&rows), Err(LoadError::Full { row }) if row == MAX_BLOCKED_IPS));
}
