use raw_socket_labs::net::{EchoRequest, IcmpPacket, IcmpType, IcmpWriter as Buffer};

#[test]
fn icmp_buffer_write() {
    let data: &[u8] = &[1, 2, 3, 4, 5, 6, 7, 8];
    let mut echo = Buffer::echo_request(0x1234, 0x5678, data);
    let mut out = vec![0u8; 3]; // not enough to write whole icmp packet
    let len = echo.consume(&mut out);
    println!("{:x?}", &out[..len]);
    let mut out = vec![0u8; 5];
    let len = echo.consume(&mut out);
    println!("{:x?}", &out[..len]);
    let mut out = vec![0u8; 20];
    let len = echo.consume(&mut out);
    println!("{:x?}", &out[..len]);
}

const WHOLE: [u8; 16] = [
    128, 0, 0x89, 0x01, 0x12, 0x34, 0x56, 0x78, 1, 2, 3, 4, 5, 6, 7, 8,
];

fn write_in_pieces(sizes: &[usize]) -> Vec<u8> {
    let data: &[u8] = &[1, 2, 3, 4, 5, 6, 7, 8];
    let mut echo = Buffer::echo_request(0x1234, 0x5678, data);
    let mut all = Vec::new();
    for size in sizes {
        let mut out = vec![0xeeu8; *size];
        let len = echo.consume(&mut out);
        assert!(len <= *size);
        assert!(out[len..].iter().all(|b| *b == 0xee));
        all.extend_from_slice(&out[..len]);
        assert_eq!(echo.len(), 16);
    }
    all
}

#[test]
fn icmp_writer_one_call_writes_the_whole_message() {
    let data: &[u8] = &[1, 2, 3, 4, 5, 6, 7, 8];
    let mut echo = Buffer::echo_request(0x1234, 0x5678, data);
    let mut out = vec![0u8; 16];
    assert_eq!(echo.consume(&mut out), 16);
    assert_eq!(out, WHOLE);
    assert_eq!(echo.consume(&mut out), 0);
    assert_eq!(out, WHOLE);
}

#[test]
fn icmp_writer_pieces_give_the_same_bytes_as_one_call() {
    assert_eq!(write_in_pieces(&[3, 5, 20]), WHOLE);
    assert_eq!(write_in_pieces(&[16]), WHOLE);
    assert_eq!(write_in_pieces(&[40]), WHOLE);
    assert_eq!(write_in_pieces(&[0, 1, 0, 1, 1, 1, 0, 1, 1, 1, 1, 8, 0]), WHOLE);
    assert_eq!(write_in_pieces(&[1; 16]), WHOLE);
    assert_eq!(write_in_pieces(&[7, 9]), WHOLE);
    assert_eq!(write_in_pieces(&[2, 1, 2, 2, 3, 6]), WHOLE);
}

#[test]
fn icmp_writer_reports_the_bytes_of_each_call() {
    let data: &[u8] = &[1, 2, 3, 4, 5, 6, 7, 8];
    let mut echo = Buffer::echo_request(0x1234, 0x5678, data);
    let mut out = vec![0u8; 3];
    assert_eq!(echo.consume(&mut out), 3);
    assert_eq!(out, [128, 0, 0x89]);
    let mut out = vec![0u8; 5];
    assert_eq!(echo.consume(&mut out), 5);
    assert_eq!(out, [0x01, 0x12, 0x34, 0x56, 0x78]);
    let mut out = vec![0xffu8; 20];
    assert_eq!(echo.consume(&mut out), 8);
    assert_eq!(&out[..8], [1, 2, 3, 4, 5, 6, 7, 8]);
    assert_eq!(&out[8..], [0xff; 12]);
    let mut out: Vec<u8> = Vec::new();
    assert_eq!(echo.consume(&mut out), 0);
}

#[test]
fn icmp_writer_stops_when_pieces_are_too_small() {
    assert_eq!(write_in_pieces(&[3, 5]), WHOLE[..8]);
    assert_eq!(write_in_pieces(&[]), WHOLE[..0]);
    assert_eq!(write_in_pieces(&[0, 0]), WHOLE[..0]);
}

#[test]
fn icmp_writer_len_is_eight_and_the_data() {
    let empty: &[u8] = &[];
    let mut echo = Buffer::echo_request(1, 2, empty);
    assert_eq!(echo.len(), 8);
    let mut out = vec![0u8; 32];
    assert_eq!(echo.consume(&mut out), 8);
    assert_eq!(&out[..8], [128, 0, 0x89, 0x01, 0, 1, 0, 2]);
    assert_eq!(echo.len(), 8);
    let echo = Buffer::echo_request(1, 2, vec![0u8; 56]);
    assert_eq!(echo.len(), 64);
    let echo = Buffer::echo_request(1, 2, [7u8; 3]);
    assert_eq!(echo.len(), 11);
}

#[test]
fn icmp_packet_reads_fields() {
    let bytes: &[u8] = &[128, 0, 0xa6, 0x88, 0x34, 0x3b, 0x00, 0x01, 9, 8, 7];
    let icmp = IcmpPacket::new(bytes);
    assert_eq!(icmp.packet_type(), IcmpType::EchoRequest);
    assert_eq!(icmp.code(), 0);
    assert_eq!(icmp.checksum(), 0xa688);
    assert_eq!(icmp.payload(), [0x34, 0x3b, 0x00, 0x01, 9, 8, 7]);
    let echo = EchoRequest::new(icmp.payload());
    assert_eq!(echo.identifier(), 0x343b);
    assert_eq!(echo.sequence_number(), 1);
    assert_eq!(echo.data(), [9, 8, 7]);
}

#[test]
fn icmp_packet_writes_fields() {
    let mut buf = vec![0xffu8; 10];
    {
        let mut icmp = IcmpPacket::new(&mut buf[..]);
        icmp.set_packet_type(IcmpType::EchoRequest);
        icmp.set_code(3);
        icmp.set_checksum(0x0102);
        assert_eq!(icmp.packet_type(), IcmpType::EchoRequest);
        assert_eq!(icmp.code(), 3);
        assert_eq!(icmp.checksum(), 0x0102);
        let mut echo = EchoRequest::new(icmp.payload_mut());
        echo.set_identifier(0x0a0b);
        echo.set_sequence_number(0x0c0d);
        assert_eq!(echo.identifier(), 0x0a0b);
        assert_eq!(echo.sequence_number(), 0x0c0d);
        echo.data_mut().copy_from_slice(&[0x11, 0x22]);
    }
    assert_eq!(buf, [128, 3, 0x01, 0x02, 0x0a, 0x0b, 0x0c, 0x0d, 0x11, 0x22]);
}

#[test]
fn icmp_type_keeps_unknown_numbers() {
    for v in 0..=255u8 {
        let ty = IcmpType::from(v);
        assert_eq!(u8::from(ty), v);
        if v == 128 {
            assert_eq!(ty, IcmpType::EchoRequest);
        } else {
            assert_eq!(ty, IcmpType::Unknown(v));
        }
    }
    let mut buf = vec![0u8; 4];
    let mut icmp = IcmpPacket::new(&mut buf[..]);
    icmp.set_packet_type(IcmpType::Unknown(129));
    assert_eq!(icmp.packet_type(), IcmpType::Unknown(129));
}
