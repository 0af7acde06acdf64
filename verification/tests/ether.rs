use raw_socket_labs::link::{EthernetFrame, EthernetProtocol, Eui48};

const FRAME: [u8; 18] = [
    0x00, 0x15, 0x5d, 0x5e, 0x97, 0xb1, 0x01, 0x02, 0x03, 0x04, 0x05, 0x06, 0x86, 0xdd, 0xde,
    0xad, 0xbe, 0xef,
];

#[test]
fn ether_frame_reads_fields() {
    let frame = EthernetFrame::new(&FRAME[..]);
    assert_eq!(frame.dst_addr(), Eui48::new([0x00, 0x15, 0x5d, 0x5e, 0x97, 0xb1]));
    assert_eq!(frame.src_addr(), Eui48::new([1, 2, 3, 4, 5, 6]));
    assert_eq!(frame.ethertype(), EthernetProtocol::Ipv6);
    assert_eq!(frame.payload(), [0xde, 0xad, 0xbe, 0xef]);
    assert_eq!(frame.into_inner(), &FRAME[..]);
}

#[test]
fn ether_frame_writes_fields() {
    let mut buf = vec![0u8; 18];
    {
        let mut frame = EthernetFrame::new(&mut buf[..]);
        frame.set_src_addr("01:02:03:04:05:06".parse().unwrap());
        frame.set_dst_addr("00-15-5D-5E-97-B1".parse().unwrap());
        frame.set_ethertype(EthernetProtocol::Ipv6);
        frame.payload_mut().copy_from_slice(&[0xde, 0xad, 0xbe, 0xef]);
    }
    assert_eq!(buf, FRAME);
}

#[test]
fn ether_frame_in_an_owned_buffer() {
    let mut frame = EthernetFrame::new(vec![0u8; 14]);
    frame.set_ethertype(EthernetProtocol::Unknown(0x0800));
    assert_eq!(frame.ethertype(), EthernetProtocol::Unknown(0x0800));
    let buf = frame.into_inner();
    assert_eq!(&buf[12..], [0x08, 0x00]);
}

#[test]
fn ether_set_field_to_its_value_changes_nothing() {
    let mut buf = FRAME.to_vec();
    let mut frame = EthernetFrame::new(&mut buf[..]);
    let dst = frame.dst_addr();
    frame.set_dst_addr(dst);
    let src = frame.src_addr();
    frame.set_src_addr(src);
    let ty = frame.ethertype();
    frame.set_ethertype(ty);
    assert_eq!(buf, FRAME);
}

#[test]
fn ether_set_field_leaves_the_other_fields() {
    let mut buf = FRAME.to_vec();
    let mut frame = EthernetFrame::new(&mut buf[..]);
    frame.set_dst_addr(Eui48::new([9; 6]));
    assert_eq!(frame.src_addr(), Eui48::new([1, 2, 3, 4, 5, 6]));
    assert_eq!(frame.ethertype(), EthernetProtocol::Ipv6);
    frame.set_src_addr(Eui48::new([8; 6]));
    assert_eq!(frame.dst_addr(), Eui48::new([9; 6]));
    assert_eq!(frame.ethertype(), EthernetProtocol::Ipv6);
    frame.set_ethertype(EthernetProtocol::Unknown(0x1234));
    assert_eq!(frame.dst_addr(), Eui48::new([9; 6]));
    assert_eq!(frame.src_addr(), Eui48::new([8; 6]));
    assert_eq!(frame.ethertype(), EthernetProtocol::Unknown(0x1234));
    assert_eq!(&buf[14..], [0xde, 0xad, 0xbe, 0xef]);
}

#[test]
fn ether_type_keeps_unknown_numbers() {
    for v in [0u16, 1, 0x0800, 0x86dc, 0x86dd, 0x86de, 0xffff] {
        let ty = EthernetProtocol::from(v);
        assert_eq!(u16::from(ty), v);
        if v == 0x86dd {
            assert_eq!(ty, EthernetProtocol::Ipv6);
        } else {
            assert_eq!(ty, EthernetProtocol::Unknown(v));
        }
    }
}
