use raw_socket_labs::packet_write::PacketWrite;

fn write_echo(buf: &mut [u8], byte_idx: usize) -> (usize, usize) {
    let mut w = PacketWrite::new(buf, byte_idx);
    w.write_u8_at(0..1, 128);
    w.write_u8_at(1..2, 0);
    w.write_u16_at(2..4, 0x8901);
    w.write_u16_at(4..6, 0x1234);
    w.write_u16_at(6..8, 0x5678);
    w.write_slice_at(8, &[1, 2, 3, 4, 5, 6, 7, 8]);
    (w.buffer_index(), w.bytes_written())
}

const WHOLE: [u8; 16] = [
    128, 0, 0x89, 0x01, 0x12, 0x34, 0x56, 0x78, 1, 2, 3, 4, 5, 6, 7, 8,
];

#[test]
fn packet_write_whole_message() {
    let mut buf = [0u8; 16];
    assert_eq!(write_echo(&mut buf, 0), (16, 16));
    assert_eq!(buf, WHOLE);
    let mut buf = [0xeeu8; 20];
    assert_eq!(write_echo(&mut buf, 0), (16, 16));
    assert_eq!(buf[..16], WHOLE);
    assert_eq!(buf[16..], [0xee; 4]);
}

#[test]
fn packet_write_resumes_at_the_cursor() {
    let mut all = Vec::new();
    let mut byte_idx = 0;
    for size in [3usize, 5, 0, 1, 20] {
        let mut buf = vec![0u8; size];
        let (next, written) = write_echo(&mut buf, byte_idx);
        assert_eq!(next, byte_idx + written);
        all.extend_from_slice(&buf[..written]);
        byte_idx = next;
    }
    assert_eq!(all, WHOLE);
}

#[test]
fn packet_write_splits_a_two_byte_field() {
    let mut buf = [0u8; 1];
    let mut w = PacketWrite::new(&mut buf[..], 2);
    w.write_u16_at(2..4, 0xabcd);
    assert_eq!(w.buffer_index(), 3);
    assert_eq!(w.bytes_written(), 1);
    assert_eq!(buf, [0xab]);
    let mut buf = [0u8; 4];
    let mut w = PacketWrite::new(&mut buf[..], 3);
    w.write_u16_at(2..4, 0xabcd);
    assert_eq!(w.buffer_index(), 4);
    assert_eq!(w.bytes_written(), 1);
    assert_eq!(buf, [0xcd, 0, 0, 0]);
}

#[test]
fn packet_write_skips_fields_the_cursor_is_not_in() {
    let mut buf = [0u8; 4];
    let mut w = PacketWrite::new(&mut buf[..], 5);
    w.write_u8_at(0..1, 1);
    w.write_u16_at(2..4, 0x0203);
    w.write_u8_at(6..7, 4);
    w.write_slice_at(6, &[5, 6]);
    assert_eq!(w.buffer_index(), 5);
    assert_eq!(w.bytes_written(), 0);
    assert_eq!(buf, [0; 4]);
}

#[test]
fn packet_write_into_a_full_buffer_writes_nothing() {
    let mut buf: Vec<u8> = Vec::new();
    let mut w = PacketWrite::new(&mut buf[..], 0);
    w.write_u8_at(0..1, 1);
    w.write_u16_at(1..3, 0x0203);
    w.write_slice_at(0, &[5, 6]);
    assert_eq!(w.buffer_index(), 0);
    assert_eq!(w.bytes_written(), 0);
}
