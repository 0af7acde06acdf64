use raw_socket_labs::net::{InvalidSubnet, IpAddress as Address, Subnet};

#[test]
fn ip_subnet_print() {
    assert_eq!("FF00::/8", Subnet::multicast().to_string());
    assert_eq!("FE80::/10", Subnet::link_local_unicast().to_string());
    assert_eq!("::1/128", Subnet::loopback().to_string());
    assert_eq!("::/128", Subnet::unspecified().to_string());
}

#[test]
fn ip_subnet_new_rejects_bits_after_the_prefix() {
    let network = Address::from_segments([0xfe80, 0, 0, 0, 0, 0, 0, 1]);
    assert!(Subnet::new(network, 10).is_err());
    assert!(Subnet::new(network, 127).is_err());
    assert!(Subnet::new(network, 128).is_ok());
    let network = Address::from_segments([0xfe80, 0, 0, 0, 0, 0, 0, 0]);
    assert!(Subnet::new(network, 8).is_err());
    assert!(Subnet::new(network, 9).is_ok());
    assert!(Subnet::new(Address::from_segments([0x8000, 0, 0, 0, 0, 0, 0, 0]), 0).is_err());
}

#[test]
fn ip_subnet_new_rejects_a_prefix_over_128() {
    let r: Result<Subnet, InvalidSubnet> = Subnet::new(Address::unspecified(), 129);
    assert!(r.is_err());
    assert!(Subnet::new(Address::unspecified(), 255).is_err());
    assert!(Subnet::new(Address::unspecified(), 0).is_ok());
}

#[test]
fn ip_subnet_new_accepts_the_well_known_subnets() {
    let cases = [
        (Subnet::unspecified(), [0u16, 0, 0, 0, 0, 0, 0, 0], 128u8),
        (Subnet::loopback(), [0, 0, 0, 0, 0, 0, 0, 1], 128),
        (Subnet::multicast(), [0xff00, 0, 0, 0, 0, 0, 0, 0], 8),
        (Subnet::link_local_unicast(), [0xfe80, 0, 0, 0, 0, 0, 0, 0], 10),
    ];
    for (subnet, segments, prefix) in cases {
        assert_eq!(subnet.network().segments(), segments);
        assert_eq!(subnet.prefix(), prefix);
        let made = Subnet::new(Address::from_segments(segments), prefix);
        assert_eq!(made, Ok(subnet));
    }
}

#[test]
fn ip_subnet_print_decimal_prefix() {
    let subnet = Subnet::new(Address::from_segments([0x2001, 0xdb8, 0, 0, 0, 0, 0, 0]), 32);
    assert_eq!(subnet.unwrap().to_string(), "2001:DB8::/32");
    let subnet = Subnet::new(Address::unspecified(), 0);
    assert_eq!(subnet.unwrap().to_string(), "::/0");
    let subnet = Subnet::new(Address::from_segments([1, 2, 3, 4, 5, 6, 7, 0]), 112);
    assert_eq!(subnet.unwrap().to_string(), "1:2:3:4:5:6:7::/112");
}
