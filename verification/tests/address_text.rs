use netsweep::address::{format_address, parse_address};

#[test]
fn parses_a_plain_address() {
    assert_eq!(parse_address("10.0.0.5"), Some(0x0a00_0005));
    assert_eq!(parse_address("192.168.0.1"), Some(0xc0a8_0001));
}

#[test]
fn parses_the_lowest_and_the_highest_address() {
    assert_eq!(parse_address("0.0.0.0"), Some(0));
    assert_eq!(parse_address("255.255.255.255"), Some(u32::MAX));
}

#[test]
fn rejects_text_that_is_no_address() {
    assert_eq!(parse_address("not-an-ip"), None);
    assert_eq!(parse_address(""), None);
    assert_eq!(parse_address("..."), None);
    assert_eq!(parse_address("1.2.3"), None);
    assert_eq!(parse_address("1.2.3.4.5"), None);
    assert_eq!(parse_address("1..2.3"), None);
    assert_eq!(parse_address("1.2.3.4."), None);
    assert_eq!(parse_address(".1.2.3.4"), None);
    assert_eq!(parse_address("1.2.3.4 "), None);
    assert_eq!(parse_address(" 1.2.3.4"), None);
    assert_eq!(parse_address("1.2.3.a"), None);
    assert_eq!(parse_address("1.2.3.-4"), None);
    assert_eq!(parse_address("1.2.3.+4"), None);
    assert_eq!(parse_address("192.168.0.0/30"), None);
    assert_eq!(parse_address("１.2.3.4"), None);
}

#[test]
fn rejects_an_octet_out_of_range() {
    assert_eq!(parse_address("256.1.1.1"), None);
    assert_eq!(parse_address("1.1.1.256"), None);
    assert_eq!(parse_address("1.1.1.999"), None);
    assert_eq!(parse_address("1.1.1.1000"), None);
    assert_eq!(parse_address("1.1.1.255"), Some(0x0101_01ff));
}

#[test]
fn rejects_a_leading_zero() {
    assert_eq!(parse_address("01.2.3.4"), None);
    assert_eq!(parse_address("1.2.3.04"), None);
    assert_eq!(parse_address("1.2.3.00"), None);
    assert_eq!(parse_address("1.2.3.000"), None);
    assert_eq!(parse_address("1.2.3.0"), Some(0x0102_0300));
}

#[test]
fn parses_octets_of_every_length() {
    assert_eq!(parse_address("1.22.133.4"), Some(0x0116_8504));
    assert_eq!(parse_address("100.200.100.200"), Some(0x64c8_64c8));
    assert_eq!(parse_address("25.5.2.55"), Some(0x1905_0237));
    assert_eq!(parse_address("127.0.0.1"), Some(0x7f00_0001));
    assert_eq!(parse_address("9.99.199.249"), Some(0x0963_c7f9));
}

#[test]
fn formats_an_address() {
    assert_eq!(format_address(0xc0a8_0001), "192.168.0.1");
    assert_eq!(format_address(0), "0.0.0.0");
    assert_eq!(format_address(u32::MAX), "255.255.255.255");
    assert_eq!(format_address(0x0a00_0005), "10.0.0.5");
    assert_eq!(format_address(0x6409_0a63), "100.9.10.99");
}

#[test]
fn formats_octets_of_every_length() {
    assert_eq!(format_address(0x0116_8504), "1.22.133.4");
    assert_eq!(format_address(0x64c8_64c8), "100.200.100.200");
    assert_eq!(format_address(0x0963_c7f9), "9.99.199.249");
    assert_eq!(format_address(0x0a0b_6e6f), "10.11.110.111");
    assert_eq!(format_address(0xc864_0901), "200.100.9.1");
}

#[test]
fn parsing_undoes_formatting() {
    let mut value: u32 = 7;
    for _ in 0..2000 {
        value = value.wrapping_mul(22_695_477).wrapping_add(1);
        assert_eq!(parse_address(&format_address(value)), Some(value));
    }
    for value in [0u32, 1, 9, 10, 99, 100, 255, 256, 65_535, 65_536, 16_777_215, 16_777_216] {
        assert_eq!(parse_address(&format_address(value)), Some(value));
    }
}
