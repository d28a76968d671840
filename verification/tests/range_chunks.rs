use netsweep::address::parse_address;
use netsweep::network_helpers::{create_ip_from_range, create_ipv4_range, split_ip_range};

fn ip(a: u8, b: u8, c: u8, d: u8) -> u32 {
    u32::from_be_bytes([a, b, c, d])
}

fn pair(a: &str, b: &str) -> (String, String) {
    (a.to_string(), b.to_string())
}

fn check_partition(start: u32, end: u32, chunksize: usize) {
    let (chunks, total) = split_ip_range(start, end, chunksize);
    assert_eq!(total, u64::from(end - start) + 1);
    assert!(!chunks.is_empty());
    let mut expected_start = u64::from(start);
    for (lo, hi) in &chunks {
        let lo = u64::from(parse_address(lo).unwrap());
        let hi = u64::from(parse_address(hi).unwrap());
        assert_eq!(lo, expected_start);
        assert!(lo <= hi);
        assert!(hi <= u64::from(end));
        expected_start = hi + 1;
    }
    assert_eq!(expected_start, u64::from(end) + 1);
    let len = if chunksize as u64 > total { total } else { total / chunksize as u64 };
    assert_eq!(chunks.len() as u64, (total + len - 1) / len);
}

#[test]
fn four_addresses_in_two_chunks() {
    let (chunks, total) = split_ip_range(ip(192, 168, 0, 1), ip(192, 168, 0, 4), 2);
    assert_eq!(total, 4);
    assert_eq!(
        chunks,
        vec![pair("192.168.0.1", "192.168.0.2"), pair("192.168.0.3", "192.168.0.4")]
    );
}

#[test]
fn more_chunks_than_addresses_give_one_chunk() {
    let (chunks, total) = split_ip_range(ip(192, 168, 0, 1), ip(192, 168, 0, 4), 10);
    assert_eq!(total, 4);
    assert_eq!(chunks, vec![pair("192.168.0.1", "192.168.0.4")]);
}

#[test]
fn last_chunk_holds_the_remainder() {
    let (chunks, total) = split_ip_range(ip(10, 0, 0, 0), ip(10, 0, 0, 9), 3);
    assert_eq!(total, 10);
    assert_eq!(
        chunks,
        vec![
            pair("10.0.0.0", "10.0.0.2"),
            pair("10.0.0.3", "10.0.0.5"),
            pair("10.0.0.6", "10.0.0.8"),
            pair("10.0.0.9", "10.0.0.9"),
        ]
    );
}

#[test]
fn one_address_is_one_chunk() {
    let (chunks, total) = split_ip_range(ip(10, 0, 0, 7), ip(10, 0, 0, 7), 1);
    assert_eq!(total, 1);
    assert_eq!(chunks, vec![pair("10.0.0.7", "10.0.0.7")]);
}

#[test]
fn as_many_chunks_as_addresses() {
    let (chunks, total) = split_ip_range(ip(10, 0, 0, 1), ip(10, 0, 0, 3), 3);
    assert_eq!(total, 3);
    assert_eq!(
        chunks,
        vec![
            pair("10.0.0.1", "10.0.0.1"),
            pair("10.0.0.2", "10.0.0.2"),
            pair("10.0.0.3", "10.0.0.3"),
        ]
    );
}

#[test]
fn one_chunk_asked_for() {
    let (chunks, total) = split_ip_range(ip(10, 0, 0, 1), ip(10, 0, 1, 0), 1);
    assert_eq!(total, 256);
    assert_eq!(chunks, vec![pair("10.0.0.1", "10.0.1.0")]);
}

#[test]
fn the_whole_address_space_in_two_chunks() {
    let (chunks, total) = split_ip_range(0, u32::MAX, 2);
    assert_eq!(total, 4_294_967_296);
    assert_eq!(
        chunks,
        vec![pair("0.0.0.0", "127.255.255.255"), pair("128.0.0.0", "255.255.255.255")]
    );
}

#[test]
fn range_that_ends_at_the_highest_address() {
    let (chunks, total) = split_ip_range(u32::MAX - 4, u32::MAX, 2);
    assert_eq!(total, 5);
    assert_eq!(
        chunks,
        vec![
            pair("255.255.255.251", "255.255.255.252"),
            pair("255.255.255.253", "255.255.255.254"),
            pair("255.255.255.255", "255.255.255.255"),
        ]
    );
}

#[test]
fn chunks_part_the_range() {
    for chunksize in 1..=40usize {
        check_partition(ip(192, 168, 0, 1), ip(192, 168, 0, 254), chunksize);
        check_partition(ip(10, 0, 0, 0), ip(10, 0, 0, 30), chunksize);
        check_partition(u32::MAX - 17, u32::MAX, chunksize);
        check_partition(0, 12, chunksize);
    }
    check_partition(ip(10, 0, 0, 0), ip(10, 0, 3, 255), 1000);
    check_partition(ip(10, 0, 0, 0), ip(10, 0, 3, 255), 1024);
    check_partition(ip(10, 0, 0, 0), ip(10, 0, 3, 255), 1025);
}

#[test]
fn lists_the_addresses_of_a_range() {
    assert_eq!(
        create_ipv4_range(ip(10, 0, 0, 254), ip(10, 0, 1, 1)),
        vec![ip(10, 0, 0, 254), ip(10, 0, 0, 255), ip(10, 0, 1, 0), ip(10, 0, 1, 1)]
    );
    assert_eq!(create_ipv4_range(ip(10, 0, 0, 3), ip(10, 0, 0, 3)), vec![ip(10, 0, 0, 3)]);
    assert_eq!(create_ipv4_range(ip(10, 0, 0, 3), ip(10, 0, 0, 2)), Vec::<u32>::new());
    assert_eq!(create_ipv4_range(u32::MAX - 1, u32::MAX), vec![u32::MAX - 1, u32::MAX]);
}

#[test]
fn lists_the_texts_of_a_range() {
    assert_eq!(
        create_ip_from_range(pair("192.168.0.1", "192.168.0.3")),
        vec!["192.168.0.1".to_string(), "192.168.0.2".to_string(), "192.168.0.3".to_string()]
    );
    assert_eq!(
        create_ip_from_range(pair("10.0.0.255", "10.0.1.0")),
        vec!["10.0.0.255".to_string(), "10.0.1.0".to_string()]
    );
    assert_eq!(create_ip_from_range(pair("10.0.0.9", "10.0.0.9")), vec!["10.0.0.9".to_string()]);
    assert_eq!(create_ip_from_range(pair("10.0.0.9", "10.0.0.8")), Vec::<String>::new());
    assert_eq!(
        create_ip_from_range(pair("255.255.255.254", "255.255.255.255")),
        vec!["255.255.255.254".to_string(), "255.255.255.255".to_string()]
    );
}

#[test]
fn chunks_list_every_address_once() {
    let start = ip(192, 168, 0, 1);
    let end = ip(192, 168, 0, 50);
    let (chunks, total) = split_ip_range(start, end, 7);
    let mut all: Vec<String> = Vec::new();
    for chunk in chunks {
        all.extend(create_ip_from_range(chunk));
    }
    assert_eq!(all.len() as u64, total);
    let expected: Vec<String> = create_ipv4_range(start, end)
        .into_iter()
        .map(netsweep::address::format_address)
        .collect();
    assert_eq!(all, expected);
}
