use netsweep::target::{parse_ip_input, resolve_target, InputError, ScanTarget};

fn addr(a: u8, b: u8, c: u8, d: u8) -> u32 {
    u32::from_be_bytes([a, b, c, d])
}

#[test]
fn prefix_gives_its_usable_hosts() {
    assert_eq!(
        parse_ip_input("192.168.0.0/30", None),
        Ok(ScanTarget::Range { start: addr(192, 168, 0, 1), end: addr(192, 168, 0, 2) })
    );
}

#[test]
fn prefix_ignores_the_second_token() {
    assert_eq!(
        parse_ip_input("192.168.0.0/30", Some(String::from("garbage"))),
        Ok(ScanTarget::Range { start: addr(192, 168, 0, 1), end: addr(192, 168, 0, 2) })
    );
}

#[test]
fn prefix_with_host_bits_set_gives_the_hosts_of_its_network() {
    assert_eq!(
        parse_ip_input("10.1.2.77/24", None),
        Ok(ScanTarget::Range { start: addr(10, 1, 2, 1), end: addr(10, 1, 2, 254) })
    );
    assert_eq!(
        parse_ip_input("172.16.123.123/16", None),
        Ok(ScanTarget::Range { start: addr(172, 16, 0, 1), end: addr(172, 16, 255, 254) })
    );
}

#[test]
fn short_networks_keep_all_their_addresses() {
    assert_eq!(
        parse_ip_input("10.0.0.0/31", None),
        Ok(ScanTarget::Range { start: addr(10, 0, 0, 0), end: addr(10, 0, 0, 1) })
    );
    assert_eq!(
        parse_ip_input("10.0.0.7/32", None),
        Ok(ScanTarget::Range { start: addr(10, 0, 0, 7), end: addr(10, 0, 0, 7) })
    );
}

#[test]
fn the_whole_address_space_as_a_prefix() {
    assert_eq!(
        parse_ip_input("1.2.3.4/0", None),
        Ok(ScanTarget::Range { start: 1, end: u32::MAX - 1 })
    );
}

#[test]
fn single_address_alone() {
    assert_eq!(parse_ip_input("10.0.0.5", None), Ok(ScanTarget::Single(addr(10, 0, 0, 5))));
}

#[test]
fn two_addresses_give_a_range() {
    assert_eq!(
        parse_ip_input("192.168.0.1", Some(String::from("192.168.0.4"))),
        Ok(ScanTarget::Range { start: addr(192, 168, 0, 1), end: addr(192, 168, 0, 4) })
    );
}

#[test]
fn descending_range_is_invalid() {
    assert_eq!(
        parse_ip_input("10.0.0.5", Some(String::from("10.0.0.1"))),
        Err(InputError::InvalidRange { start: addr(10, 0, 0, 5), end: addr(10, 0, 0, 1) })
    );
}

#[test]
fn equal_ends_are_an_invalid_range() {
    assert_eq!(
        parse_ip_input("10.0.0.5", Some(String::from("10.0.0.5"))),
        Err(InputError::InvalidRange { start: addr(10, 0, 0, 5), end: addr(10, 0, 0, 5) })
    );
}

#[test]
fn unreadable_first_token_is_named() {
    assert_eq!(
        parse_ip_input("not-an-ip", None),
        Err(InputError::InvalidAddress(String::from("not-an-ip")))
    );
    assert_eq!(
        parse_ip_input("not-an-ip", Some(String::from("10.0.0.1"))),
        Err(InputError::InvalidAddress(String::from("not-an-ip")))
    );
    assert_eq!(
        parse_ip_input("10.0.0.0/33", None),
        Err(InputError::InvalidAddress(String::from("10.0.0.0/33")))
    );
}

#[test]
fn unreadable_second_token_is_named() {
    assert_eq!(
        parse_ip_input("10.0.0.1", Some(String::from("10.0.0"))),
        Err(InputError::InvalidAddress(String::from("10.0.0")))
    );
    assert_eq!(
        parse_ip_input("10.0.0.1", Some(String::from("10.0.0.0/24"))),
        Err(InputError::InvalidAddress(String::from("10.0.0.0/24")))
    );
}

#[test]
fn resolve_uses_the_network_it_is_given() {
    assert_eq!(
        resolve_target(Some((addr(10, 9, 8, 7), 8)), "anything", None),
        Ok(ScanTarget::Range { start: addr(10, 0, 0, 1), end: addr(10, 255, 255, 254) })
    );
    assert_eq!(
        resolve_target(Some((addr(10, 9, 8, 7), 30)), "anything", None),
        Ok(ScanTarget::Range { start: addr(10, 9, 8, 5), end: addr(10, 9, 8, 6) })
    );
}

#[test]
fn resolve_rejects_a_prefix_length_over_32() {
    assert_eq!(
        resolve_target(Some((addr(10, 0, 0, 0), 33)), "10.0.0.0", None),
        Err(InputError::InvalidAddress(String::from("10.0.0.0")))
    );
}

#[test]
fn resolve_without_a_network_reads_the_tokens() {
    assert_eq!(resolve_target(None, "10.0.0.5", None), Ok(ScanTarget::Single(addr(10, 0, 0, 5))));
    assert_eq!(
        resolve_target(None, "10.0.0.5", Some(String::from("10.0.1.5"))),
        Ok(ScanTarget::Range { start: addr(10, 0, 0, 5), end: addr(10, 0, 1, 5) })
    );
    assert_eq!(
        resolve_target(None, "x", None),
        Err(InputError::InvalidAddress(String::from("x")))
    );
}

#[test]
fn diagnostic_names_the_token() {
    let error = parse_ip_input("not-an-ip", None).unwrap_err();
    assert_eq!(error.message(), "Failed to parse 'not-an-ip' as either Ipv4Addr or Ipv4Net");
}

#[test]
fn diagnostic_names_both_ends_of_the_range() {
    let error = parse_ip_input("10.0.0.5", Some(String::from("10.0.0.1"))).unwrap_err();
    assert_eq!(
        error.message(),
        "Invalid IP Range: 10.0.0.5 to 10.0.0.1. Make sure ip_from is logically smaller than ip_to"
    );
}

#[test]
fn target_is_announced_with_its_addresses() {
    assert_eq!(ScanTarget::Single(addr(10, 0, 0, 5)).describe(), "Scanning single IP 10.0.0.5");
    assert_eq!(
        ScanTarget::Range { start: addr(192, 168, 0, 1), end: addr(192, 168, 0, 4) }.describe(),
        "Scanning IP Range 192.168.0.1 to 192.168.0.4"
    );
}
