use aprsmsg::ax25::{parse_path, Address, UiFrame};

fn addr(text: &str) -> Address {
    Address::parse(text).unwrap()
}

#[test]
fn encodes_address_fields() {
    let frame = UiFrame {
        dest: addr("APZRST"),
        src: addr("SA0KAM-1"),
        digis: vec![],
        info: b"x".to_vec(),
    };
    let bytes = frame.encode();
    let shifted = |s: &[u8]| s.iter().map(|b| b << 1).collect::<Vec<_>>();
    assert_eq!(bytes[..6], shifted(b"APZRST")[..]);
    assert_eq!(bytes[6], 0xE0);
    assert_eq!(bytes[7..13], shifted(b"SA0KAM")[..]);
    assert_eq!(bytes[13], 0x60 | (1 << 1) | 1);
    assert_eq!(&bytes[14..], &[0x03, 0xF0, b'x']);
}

#[test]
fn round_trip_with_path() {
    let frame = UiFrame {
        dest: addr("APZRST"),
        src: addr("SA0KAM-1"),
        digis: vec![
            (addr("SK0TM-10"), true),
            (addr("WIDE1"), true),
            (addr("WIDE2-1"), false),
        ],
        info: b":EMAIL-2  :hi{1".to_vec(),
    };
    let decoded = UiFrame::decode(&frame.encode()).unwrap();
    assert_eq!(decoded.header(), "SA0KAM-1>APZRST,SK0TM-10,WIDE1*,WIDE2-1");
    assert_eq!(decoded.repeated_by().as_deref(), Some("SK0TM-10"));
    assert_eq!(decoded.info, frame.info);
}

#[test]
fn rejects_invalid_callsigns() {
    for bad in ["", "TOOLONG1", "SA0KAM-16", "SA0KAM-", "SA0/AM"] {
        assert!(Address::parse(bad).is_err(), "{bad:?} should be rejected");
    }
    assert_eq!(addr("sa0kam-1").to_string(), "SA0KAM-1");
}

#[test]
fn rejects_non_ui_frames() {
    let mut bytes = UiFrame {
        dest: addr("SM0YOS"),
        src: addr("SA0KAM"),
        digis: vec![],
        info: vec![],
    }
    .encode();
    bytes[14] = 0x3F; // SABM
    assert!(UiFrame::decode(&bytes).is_none());
}

#[test]
fn says_why_a_callsign_is_refused() {
    assert_eq!(Address::parse("SA0KAM-x").unwrap_err(), "invalid SSID in \"SA0KAM-x\"");
    assert_eq!(Address::parse("SA0KAM-256").unwrap_err(), "invalid SSID in \"SA0KAM-256\"");
    assert_eq!(Address::parse("SA0KAM-16").unwrap_err(), "invalid callsign \"SA0KAM-16\"");
    assert_eq!(Address::parse("å").unwrap_err(), "invalid callsign \"å\"");
    assert_eq!(addr("  sk0tm-010 "), Address { call: "SK0TM".into(), ssid: 10 });
    assert_eq!(addr("SA0KAM-0").to_string(), "SA0KAM");
}

#[test]
fn every_address_parses_from_its_own_text() {
    for ssid in 0..16u8 {
        let a = Address { call: "SM0YOS".into(), ssid };
        assert_eq!(addr(&a.to_string()), a);
    }
}

#[test]
fn frames_with_the_poll_bit_or_cut_short() {
    let frame = UiFrame {
        dest: addr("APRS"),
        src: addr("SA0KAM"),
        digis: vec![(addr("WIDE1-1"), false)],
        info: b">hi".to_vec(),
    };
    let mut bytes = frame.encode();
    bytes[21] |= 0x10;
    assert_eq!(UiFrame::decode(&bytes).unwrap().info, b">hi");
    assert!(UiFrame::decode(&bytes[..22]).is_none());
    assert!(UiFrame::decode(&bytes[..20]).is_none());
    assert!(UiFrame::decode(b"").is_none());
    bytes[22] = 0xCF;
    assert!(UiFrame::decode(&bytes).is_none());
}

#[test]
fn a_path_has_at_most_eight_digipeaters() {
    let with = |n: usize| UiFrame {
        dest: addr("APRS"),
        src: addr("SA0KAM"),
        digis: (0..n).map(|i| (Address { call: "DIGI".into(), ssid: i as u8 }, i % 2 == 0)).collect(),
        info: b"x".to_vec(),
    };
    let eight = UiFrame::decode(&with(8).encode()).unwrap();
    assert_eq!(eight.digis, with(8).digis);
    assert!(UiFrame::decode(&with(9).encode()).is_none());
    assert!(UiFrame::decode(&with(20).encode()).is_none());
}

#[test]
fn paths_are_read_from_text() {
    assert_eq!(parse_path("WIDE1-1,wide2-1").unwrap(), vec![addr("WIDE1-1"), addr("WIDE2-1")]);
    assert_eq!(parse_path("none").unwrap(), vec![]);
    assert_eq!(parse_path("NONE").unwrap(), vec![]);
    assert_eq!(parse_path("  ").unwrap(), vec![]);
    assert_eq!(parse_path("WIDE1-1,,X").unwrap_err(), "invalid callsign \"\"");
}
