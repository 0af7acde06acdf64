use raw_socket_labs::net::IpAddress as Address;

#[test]
fn ip_address_print() {
    assert_eq!("::", Address::from([0, 0, 0, 0, 0, 0, 0, 0]).to_string());
    assert_eq!("::1", Address::from([0, 0, 0, 0, 0, 0, 0, 1]).to_string());
    assert_eq!(
        "FE80::1234:5678",
        Address::from([0xfe80, 0, 0, 0, 0, 0, 0x1234, 0x5678]).to_string()
    );
    assert_eq!(
        "FF01::101",
        Address::from([0xff01, 0, 0, 0, 0, 0, 0, 0x101]).to_string()
    );
    assert_eq!(
        "2001:DB8::8:800:200C:417A",
        Address::from([0x2001, 0xdb8, 0, 0, 8, 0x800, 0x200c, 0x417a]).to_string()
    );
    assert_eq!(
        "2001:DB8:0:CD30::",
        Address::from([0x2001, 0xdb8, 0, 0xcd30, 0, 0, 0, 0]).to_string()
    );
}

#[test]
fn ip_address_parse() {
    let addrs = [
        "::",
        "::1",
        "FE80::1234:5678",
        "FF01::101",
        "2001:DB8::8:800:200C:417A",
        "2001:DB8:0:CD30::",
        "FD12:3456:7890:ABCD:1122:3344:5566:7788",
        "FD12:3456:7890:ABCD:1122:3344:5566::",
        "FD12:3456:7890:ABCD:1122:3344::",
        "::3456:7890:ABCD:1122:3344:5566:7788",
        "::7890:ABCD:1122:3344:5566:7788",
    ];
    for addr_str in addrs {
        let addr = addr_str.parse::<Address>().unwrap();
        assert_eq!(addr_str, addr.to_string());
    }
    let wrong_addrs = [
        "::1::",
        "FF01:::101",
        "2001:DB8::8:800::200C:417A",
        ":FD12:3456:7890:ABCD:1122:3344:5566:7788",
        "FD12:3456:7890:ABCD:1122:3344:5566:7788:",
        "FD12:3456:7890:ABCD:1122:3344:5566:7788:9",
        "FD12:3456:7890:ABCD:1122:3344:5566:EFGH",
    ];
    for addr_str in wrong_addrs {
        assert!(addr_str.parse::<Address>().is_err());
    }
}

#[test]
fn ip_address_segments_octets() {
    assert_eq!(
        Address::from([0xfe80, 0, 0, 0, 0, 0, 0x1234, 0x5678]).segments(),
        [0xfe80, 0, 0, 0, 0, 0, 0x1234, 0x5678]
    );
    assert_eq!(
        Address::from([0xfe80, 0, 0, 0, 0, 0, 0x1234, 0x5678]).octets(),
        [0xfe, 0x80, 0, 0, 0, 0, 0, 0, 0, 0, 0, 0, 0x12, 0x34, 0x56, 0x78]
    );
}

#[test]
fn ip_address_parse_accepts_lower_case_and_leading_zeros() {
    let addr: Address = "fe80::0215:5dff:feb7:9fa9".parse().unwrap();
    assert_eq!(addr.segments(), [0xfe80, 0, 0, 0, 0x215, 0x5dff, 0xfeb7, 0x9fa9]);
    assert_eq!(addr.to_string(), "FE80::215:5DFF:FEB7:9FA9");
    let addr: Address = "0:0:0:0:0:0:0:1".parse().unwrap();
    assert_eq!(addr, Address::loopback());
    let addr: Address = "0000:0000:0000:0000:0000:0000:0000:0000".parse().unwrap();
    assert_eq!(addr, Address::unspecified());
}

#[test]
fn ip_address_parse_puts_zeros_where_the_double_colon_stands() {
    let addr: Address = "1::8".parse().unwrap();
    assert_eq!(addr.segments(), [1, 0, 0, 0, 0, 0, 0, 8]);
    let addr: Address = "1:2:3::".parse().unwrap();
    assert_eq!(addr.segments(), [1, 2, 3, 0, 0, 0, 0, 0]);
    let addr: Address = "::6:7:8".parse().unwrap();
    assert_eq!(addr.segments(), [0, 0, 0, 0, 0, 6, 7, 8]);
    let addr: Address = "1:2:3:4::6:7:8".parse().unwrap();
    assert_eq!(addr.segments(), [1, 2, 3, 4, 0, 6, 7, 8]);
}

#[test]
fn ip_address_parse_rejects_malformed_text() {
    let wrong = [
        "",
        ":",
        ":::",
        "1",
        "1:2:3:4:5:6:7",
        "12345::",
        "::12345",
        "1:2:3:4:5:6:7:8:9:a",
        "1:2:3:4:5:6:7::8:9",
        "1:2:3:4:5:6:7:8::",
        "::1:2:3:4:5:6:7:8",
        "1:2:3:4::5:6:7:8",
        "1::2:",
        "1::g",
        "1:: 2",
        "::ffff:1.2.3.4",
        "fe80::\u{e9}",
    ];
    for text in wrong {
        assert!(text.parse::<Address>().is_err(), "{}", text);
    }
}

#[test]
fn ip_address_format_compresses_the_leftmost_longest_run() {
    assert_eq!(Address::from_segments([1, 0, 0, 2, 0, 0, 3, 4]).to_string(), "1::2:0:0:3:4");
    assert_eq!(Address::from_segments([1, 0, 0, 2, 0, 0, 0, 4]).to_string(), "1:0:0:2::4");
    assert_eq!(Address::from_segments([0, 0, 1, 0, 0, 0, 0, 0]).to_string(), "0:0:1::");
    assert_eq!(Address::from_segments([0, 1, 2, 3, 4, 5, 6, 7]).to_string(), "::1:2:3:4:5:6:7");
    assert_eq!(Address::from_segments([1, 2, 3, 0, 5, 6, 7, 8]).to_string(), "1:2:3::5:6:7:8");
    assert_eq!(Address::from_segments([1, 2, 3, 4, 5, 6, 7, 0]).to_string(), "1:2:3:4:5:6:7::");
    assert_eq!(
        Address::from_segments([0xa, 0xbc, 0xdef, 0xffff, 0x10, 0x100, 0x1000, 0x9])
            .to_string(),
        "A:BC:DEF:FFFF:10:100:1000:9"
    );
}

#[test]
fn ip_address_format_then_parse_gives_the_address_back() {
    let cases = [
        [0u16, 0, 0, 0, 0, 0, 0, 0],
        [0, 0, 0, 0, 0, 0, 0, 1],
        [1, 0, 0, 0, 0, 0, 0, 0],
        [0xffff; 8],
        [1, 0, 2, 0, 3, 0, 4, 0],
        [0, 1, 0, 0, 1, 0, 0, 0],
        [0x2001, 0xdb8, 0, 0, 8, 0x800, 0x200c, 0x417a],
        [0x1234, 0x0abc, 0x00de, 0x000f, 0, 0, 0x1000, 0x0100],
    ];
    for segments in cases {
        let addr = Address::from_segments(segments);
        let text = addr.to_string();
        assert_eq!(text.parse::<Address>(), Ok(addr), "{}", text);
    }
}

#[test]
fn ip_address_from_bytes_reads_network_order() {
    let bytes = [
        0xfe, 0x80, 0, 0, 0, 0, 0, 0, 0x02, 0x15, 0x5d, 0xff, 0xfe, 0xb7, 0x9f, 0xa9, 0x77,
    ];
    let addr = Address::from_bytes(&bytes);
    assert_eq!(addr.segments(), [0xfe80, 0, 0, 0, 0x215, 0x5dff, 0xfeb7, 0x9fa9]);
    assert_eq!(addr.octets()[..], bytes[..16]);
}

#[test]
fn ip_address_well_known_addresses() {
    assert_eq!(Address::unspecified().segments(), [0; 8]);
    assert_eq!(Address::loopback().segments(), [0, 0, 0, 0, 0, 0, 0, 1]);
    assert_eq!(Address::loopback().octets()[15], 1);
}

#[test]
fn ip_address_from_octets_and_from_segments_agree() {
    let octets = [
        0x20u8, 0x01, 0x0d, 0xb8, 0, 0, 0, 0, 0, 8, 8, 0, 0x20, 0x0c, 0x41, 0x7a,
    ];
    let segments = [0x2001u16, 0xdb8, 0, 0, 8, 0x800, 0x200c, 0x417a];
    assert_eq!(Address::from(octets), Address::from(segments));
    assert_eq!(Address::from(octets).octets(), octets);
    assert_eq!(Address::from(octets).segments(), segments);
}
