use raw_socket_labs::net::{IpAddress, IpPacket, IpProtocol};

fn header() -> Vec<u8> {
    let mut buf = vec![
        0x6a, 0xbc, 0xde, 0xf0, 0x00, 0x40, 0x3a, 0x80, 0xfe, 0x80, 0, 0, 0, 0, 0, 0, 0x02, 0x15,
        0x5d, 0xff, 0xfe, 0xb7, 0x9f, 0xa9, 0xfe, 0x80, 0, 0, 0, 0, 0, 0, 0xd1, 0x9d, 0x00, 0xd7,
        0x76, 0x9c, 0x3a, 0x86,
    ];
    buf.extend_from_slice(&[1, 2, 3]);
    buf
}

#[test]
fn ip_packet_reads_fields() {
    let buf = header();
    let packet = IpPacket::new(&buf[..]);
    assert_eq!(packet.version(), 6);
    assert_eq!(packet.traffic_class(), 0xab);
    assert_eq!(packet.flow_label(), 0xcdef0);
    assert_eq!(packet.payload_len(), 64);
    assert_eq!(packet.next_header(), IpProtocol::Icmpv6);
    assert_eq!(packet.hop_limit(), 128);
    assert_eq!(
        packet.src_addr(),
        "fe80::215:5dff:feb7:9fa9".parse::<IpAddress>().unwrap()
    );
    assert_eq!(
        packet.dst_addr(),
        "fe80::d19d:d7:769c:3a86".parse::<IpAddress>().unwrap()
    );
    assert_eq!(packet.payload(), [1, 2, 3]);
    assert_eq!(packet.into_inner(), &buf[..]);
}

#[test]
fn ip_packet_writes_fields() {
    let mut buf = vec![0u8; 43];
    {
        let mut packet = IpPacket::new(&mut buf[..]);
        packet.set_version(6);
        packet.set_traffic_class(0xab);
        packet.set_flow_label(0xcdef0);
        packet.set_payload_len(64);
        packet.set_next_header(IpProtocol::Icmpv6);
        packet.set_hop_limit(128);
        packet.set_src_addr("fe80::215:5dff:feb7:9fa9".parse().unwrap());
        packet.set_dst_addr("fe80::d19d:d7:769c:3a86".parse().unwrap());
        packet.payload_mut().copy_from_slice(&[1, 2, 3]);
    }
    assert_eq!(buf, header());
}

#[test]
fn ip_packet_packed_fields_do_not_disturb_each_other() {
    let mut buf = vec![0xffu8; 40];
    let mut packet = IpPacket::new(&mut buf[..]);
    packet.set_version(0);
    assert_eq!(packet.version(), 0);
    assert_eq!(packet.traffic_class(), 0xff);
    assert_eq!(packet.flow_label(), 0xfffff);
    packet.set_traffic_class(0x5a);
    assert_eq!(packet.version(), 0);
    assert_eq!(packet.traffic_class(), 0x5a);
    assert_eq!(packet.flow_label(), 0xfffff);
    packet.set_flow_label(0x12345);
    assert_eq!(packet.version(), 0);
    assert_eq!(packet.traffic_class(), 0x5a);
    assert_eq!(packet.flow_label(), 0x12345);
    packet.set_version(0xf);
    assert_eq!(packet.version(), 0xf);
    assert_eq!(packet.traffic_class(), 0x5a);
    assert_eq!(packet.flow_label(), 0x12345);
    assert_eq!(&buf[..4], [0xf5, 0xa1, 0x23, 0x45]);
    assert_eq!(&buf[4..], [0xff; 36]);
}

#[test]
fn ip_packet_set_field_leaves_the_other_fields() {
    let mut buf = header();
    let mut packet = IpPacket::new(&mut buf[..]);
    packet.set_payload_len(0x0102);
    packet.set_hop_limit(1);
    packet.set_next_header(IpProtocol::Unknown(17));
    assert_eq!(packet.payload_len(), 0x0102);
    assert_eq!(packet.hop_limit(), 1);
    assert_eq!(packet.next_header(), IpProtocol::Unknown(17));
    assert_eq!(packet.version(), 6);
    assert_eq!(packet.traffic_class(), 0xab);
    assert_eq!(packet.flow_label(), 0xcdef0);
    packet.set_src_addr(IpAddress::loopback());
    assert_eq!(packet.src_addr(), IpAddress::loopback());
    assert_eq!(
        packet.dst_addr(),
        "fe80::d19d:d7:769c:3a86".parse::<IpAddress>().unwrap()
    );
    packet.set_dst_addr(IpAddress::unspecified());
    assert_eq!(packet.src_addr(), IpAddress::loopback());
    assert_eq!(packet.dst_addr(), IpAddress::unspecified());
    let expected_tail = [0x01, 0x02, 17, 1];
    assert_eq!(&buf[4..8], expected_tail);
    assert_eq!(&buf[40..], [1, 2, 3]);
}

#[test]
fn ip_protocol_keeps_unknown_numbers() {
    for v in 0..=255u8 {
        let protocol = IpProtocol::from(v);
        assert_eq!(u8::from(protocol), v);
        if v == 0x3a {
            assert_eq!(protocol, IpProtocol::Icmpv6);
        } else {
            assert_eq!(protocol, IpProtocol::Unknown(v));
        }
    }
}

#[test]
fn ip_packet_in_an_owned_buffer() {
    let mut packet = IpPacket::new(vec![0u8; 40]);
    packet.set_version(6);
    packet.set_payload_len(8);
    assert_eq!(packet.version(), 6);
    assert_eq!(packet.payload_len(), 8);
    let buf = packet.into_inner();
    assert_eq!(&buf[..6], [0x60, 0, 0, 0, 0, 8]);
}
