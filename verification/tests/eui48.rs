use raw_socket_labs::link::{Eui48, Eui48ParseError};

#[test]
fn eui48_parse() {
    assert_eq!("00-01-02-03-04-05".parse(), Ok(Eui48::new([0, 1, 2, 3, 4, 5])));
    assert_eq!(
        "1a-b2-3C-D4-50-06".parse(),
        Ok(Eui48::new([0x1a, 0xb2, 0x3c, 0xd4, 0x50, 0x06]))
    );
    assert!("1a-b2-3C-D4-50-6".parse::<Eui48>().is_err());
    assert!("1a-b2b-3C-D4-50-06".parse::<Eui48>().is_err());
    assert!("1a-b2-3C-D4-50-".parse::<Eui48>().is_err());
    assert!("1a-b2-3C-D4-50-06-07".parse::<Eui48>().is_err());
    assert!("1a-b2-3G-D4-50-06".parse::<Eui48>().is_err());
    assert!("1a-b2-3G-D4-50-6".parse::<Eui48>().is_err());
}

#[test]
fn eui48_parse_colons_and_mixed_separators() {
    let expected = Eui48::new([0x00, 0x15, 0x5d, 0xb7, 0x9f, 0xa9]);
    assert_eq!("00:15:5d:b7:9f:a9".parse(), Ok(expected));
    assert_eq!("00:15-5D:B7-9f:A9".parse(), Ok(expected));
}

#[test]
fn eui48_parse_rejects_other_shapes() {
    let r: Result<Eui48, Eui48ParseError> = "".parse();
    assert!(r.is_err());
    assert!("00-01-02-03-04".parse::<Eui48>().is_err());
    assert!("00-01-02-03-04-05-".parse::<Eui48>().is_err());
    assert!("-00-01-02-03-04-05".parse::<Eui48>().is_err());
    assert!("00_01_02_03_04_05".parse::<Eui48>().is_err());
    assert!("000102030405".parse::<Eui48>().is_err());
    assert!("00-01-02-03-04-0\u{e9}".parse::<Eui48>().is_err());
}

#[test]
fn eui48_format_is_upper_case_with_hyphens() {
    let addr = Eui48::new([0x1a, 0xb2, 0x3c, 0xd4, 0x50, 0x06]);
    assert_eq!(addr.to_string(), "1A-B2-3C-D4-50-06");
    assert_eq!(Eui48::new([0, 0, 0, 0, 0, 0]).to_string(), "00-00-00-00-00-00");
    assert_eq!(Eui48::new([0xff; 6]).to_string(), "FF-FF-FF-FF-FF-FF");
}

#[test]
fn eui48_format_then_parse_gives_the_bytes_back() {
    let cases = [
        [0u8, 1, 2, 3, 4, 5],
        [0x9a, 0xbc, 0xde, 0xf0, 0x12, 0x34],
        [0xff, 0x00, 0xff, 0x00, 0xff, 0x00],
    ];
    for bytes in cases {
        let text = Eui48::new(bytes).to_string();
        assert_eq!(text.parse(), Ok(Eui48::new(bytes)));
        let with_colons = text.replace('-', ":");
        assert_eq!(with_colons.parse(), Ok(Eui48::new(bytes)));
    }
}

#[test]
fn eui48_parse_then_format_keeps_canonical_text() {
    for text in ["00-15-5D-5E-97-B1", "01-02-03-04-05-06", "AB-CD-EF-09-87-65"] {
        let addr: Eui48 = text.parse().unwrap();
        assert_eq!(addr.to_string(), text);
    }
}

#[test]
fn eui48_bytes_round_trip() {
    let addr = Eui48::from_bytes(&[1, 2, 3, 4, 5, 6]);
    assert_eq!(addr.to_bytes(), [1, 2, 3, 4, 5, 6]);
    assert_eq!(addr, Eui48::new([1, 2, 3, 4, 5, 6]));
}
