use ebpf_firewall::block_ip::{
    check_known_address, check_known_addresses, check_new_address, check_new_addresses,
    requested_address, requested_addresses, stored_addresses, BlockIpError, BlockedIp, WriteIp,
};

fn s(x: &str) -> String {
    x.to_string()
}

fn entry(x: Option<&str>) -> WriteIp {
    WriteIp { ipv4: x.map(|v| v.to_string()) }
}

#[test]
fn single_request_needs_a_well_formed_address() {
    assert_eq!(requested_address(&entry(None)), Err(BlockIpError::MissingAddress));
    assert_eq!(requested_address(&entry(Some("1.2.3"))), Err(BlockIpError::MalformedAddress));
    assert_eq!(requested_address(&entry(Some("172.0.0.1"))), Ok(s("172.0.0.1")));
    assert!(BlockIpError::MissingAddress.is_invalid_input());
    assert!(BlockIpError::MalformedAddress.is_invalid_input());
}

#[test]
fn single_add_and_remove_consult_stored() {
    let stored = vec![s("10.0.0.1"), s("10.0.0.2")];
    assert_eq!(check_new_address(&s("10.0.0.3"), &stored), Ok(()));
    assert_eq!(check_new_address(&s("10.0.0.2"), &stored), Err(BlockIpError::AlreadyBlocked));
    assert_eq!(check_known_address(&s("10.0.0.1"), &stored), Ok(()));
    assert_eq!(check_known_address(&s("10.0.0.9"), &stored), Err(BlockIpError::NotBlocked));
    assert!(!BlockIpError::AlreadyBlocked.is_invalid_input());
    assert!(!BlockIpError::NotBlocked.is_invalid_input());
}

#[test]
fn batch_refuses_repeated_entries() {
    let e = vec![entry(Some("1.1.1.1")), entry(Some("2.2.2.2")), entry(Some("1.1.1.1"))];
    assert_eq!(requested_addresses(&e), Err(BlockIpError::DuplicateEntries));
    let e = vec![entry(None), entry(Some("2.2.2.2")), entry(None)];
    assert_eq!(requested_addresses(&e), Err(BlockIpError::DuplicateEntries));
    assert!(BlockIpError::DuplicateEntries.is_invalid_input());
}

#[test]
fn batch_lists_given_addresses() {
    let e = vec![entry(None), entry(Some("2.2.2.2")), entry(Some("bad"))];
    assert_eq!(requested_addresses(&e), Ok(vec![s("2.2.2.2"), s("bad")]));
    assert_eq!(requested_addresses(&vec![]), Ok(vec![]));
    assert_eq!(requested_addresses(&vec![entry(None)]), Ok(vec![]));
}

#[test]
fn batch_add_reports_first_problem() {
    let stored = vec![s("3.3.3.3")];
    assert_eq!(check_new_addresses(&vec![s("1.1.1.1"), s("2.2.2.2")], &stored), Ok(()));
    assert_eq!(
        check_new_addresses(&vec![s("1.1.1.1"), s("3.3.3.3"), s("x")], &stored),
        Err(BlockIpError::AlreadyBlockedIn(s("3.3.3.3")))
    );
    assert_eq!(
        check_new_addresses(&vec![s("999.1.1.1"), s("3.3.3.3")], &stored),
        Err(BlockIpError::MalformedAddressIn(s("999.1.1.1")))
    );
    assert!(BlockIpError::MalformedAddressIn(s("x")).is_invalid_input());
    assert!(!BlockIpError::AlreadyBlockedIn(s("x")).is_invalid_input());
}

#[test]
fn batch_remove_reports_first_problem() {
    let stored = vec![s("3.3.3.3"), s("4.4.4.4")];
    assert_eq!(check_known_addresses(&vec![s("4.4.4.4"), s("3.3.3.3")], &stored), Ok(()));
    assert_eq!(
        check_known_addresses(&vec![s("3.3.3.3"), s("5.5.5.5"), s("x")], &stored),
        Err(BlockIpError::NotBlockedIn(s("5.5.5.5")))
    );
    assert_eq!(
        check_known_addresses(&vec![s("3.3.3"), s("5.5.5.5")], &stored),
        Err(BlockIpError::MalformedAddressIn(s("3.3.3")))
    );
    assert!(!BlockIpError::NotBlockedIn(s("x")).is_invalid_input());
}

#[test]
fn stored_rows_give_their_addresses() {
    let rows = vec![
        BlockedIp { id: 1, ipv4: s("1.1.1.1") },
        BlockedIp { id: 4, ipv4: s("2.2.2.2") },
    ];
    assert_eq!(stored_addresses(&rows), vec![s("1.1.1.1"), s("2.2.2.2")]);
}

#[test]
fn added_address_can_then_be_removed() {
    let mut stored = vec![s("9.9.9.9")];
    let a = requested_address(&entry(Some("172.0.0.1"))).unwrap();
    assert_eq!(check_new_address(&a, &stored), Ok(()));
    stored.push(a.clone());
    assert_eq!(check_known_address(&a, &stored), Ok(()));
    assert_eq!(check_new_address(&a, &stored), Err(BlockIpError::AlreadyBlocked));
    stored.retain(|x| *x != a);
    assert_eq!(check_new_address(&a, &stored), Ok(()));
}
