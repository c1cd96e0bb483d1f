use aprsmsg::ax25::{Address, UiFrame};
use aprsmsg::heard::{passcode, Heard, Hop};

fn addr(text: &str) -> Address {
    Address::parse(text).unwrap()
}

#[test]
fn heard_passcode_matches_reference() {
    assert_eq!(passcode("N0CALL"), 13023);
    assert_eq!(passcode("n0call-9"), 13023);
}

#[test]
fn heard_parses_aprs_is_line_from_rf() {
    let heard =
        Heard::parse_tnc2(b"SM0ABC-9>APRS,SK0RYG-1*,WIDE1*,qAR,SK0TM-10:!5921.09N/01757.36E>").unwrap();
    assert_eq!(heard.source, "SM0ABC-9");
    assert_eq!(heard.dest_call(), "APRS");
    assert_eq!(heard.header(), "SM0ABC-9>APRS,SK0RYG-1,WIDE1*,qAR,SK0TM-10");
    assert_eq!(heard.route(), "APRS-IS, iGate SK0TM-10");
    assert_eq!(heard.info, b"!5921.09N/01757.36E>");
}

#[test]
fn heard_parses_internet_only_message() {
    let heard = Heard::parse_tnc2(b"WXBOT>APRS,TCPIP*,qAC,T2TEST::SA0KAM-1 :ack12").unwrap();
    assert_eq!(heard.route(), "APRS-IS");
    assert_eq!(heard.repeated_by(), None);
    assert!(Heard::parse_tnc2(b"# comment without packet").is_none());
}

#[test]
fn heard_route_and_repeats_for_radio_frames() {
    let frame = UiFrame {
        dest: addr("APZRST"),
        src: addr("SA0KAM-1"),
        digis: vec![
            (addr("SK0TM-10"), true),
            (addr("WIDE1"), true),
            (addr("WIDE2-1"), false),
        ],
        info: b">test".to_vec(),
    };
    let heard = Heard::from_frame(frame);
    assert_eq!(heard.header(), "SA0KAM-1>APZRST,SK0TM-10,WIDE1*,WIDE2-1");
    assert_eq!(heard.repeated_by().as_deref(), Some("SK0TM-10"));
    assert_eq!(heard.route(), "via SK0TM-10");
}

#[test]
fn passcodes_ignore_case_and_ssid_and_have_fifteen_bits() {
    for call in ["SA0KAM", "sm0yos", "a", "", "ÅÄÖ", "W1AW-15-x"] {
        assert!(passcode(call) < 0x8000);
        assert_eq!(passcode(call), passcode(&call.to_ascii_lowercase()));
        assert_eq!(passcode(call), passcode(&format!("{call}-7")));
    }
    assert_eq!(passcode(""), 0x73E2);
    assert_eq!(passcode("A"), 0x73E2 ^ 0x4100);
    assert_eq!(passcode("AB"), 0x73E2 ^ 0x4142);
}

#[test]
fn lines_that_are_no_packet() {
    assert!(Heard::parse_tnc2(b"no colon>at all").is_none());
    assert!(Heard::parse_tnc2(b"no arrow:info").is_none());
    assert!(Heard::parse_tnc2(b">APRS:info").is_none());
    assert!(Heard::parse_tnc2(b"SRC>:info").is_none());
    assert!(Heard::parse_tnc2(b"SRC>,X:info").is_none());
    assert!(Heard::parse_tnc2(b"S\xff>APRS:info").is_none());
}

#[test]
fn empty_hops_are_skipped_and_stars_trimmed() {
    let heard = Heard::parse_tnc2(b"A>B,,C**,:x").unwrap();
    assert_eq!(heard.path.len(), 1);
    assert_eq!((heard.path[0].call.as_str(), heard.path[0].used), ("C", true));
    assert!(heard.from_internet);
}

#[test]
fn aliases_and_q_constructs_name_no_station() {
    let hop = |call: &str| Hop { call: call.into(), used: true };
    let heard = |call: &str| Heard {
        source: "A".into(),
        dest: "B-1-2".into(),
        path: vec![hop("SK0TM"), hop(call)],
        info: vec![],
        from_internet: false,
    };
    for alias in ["WIDE2-1", "TRACE3", "RELAY", "TEMP1", "ECHO", "GATE", "TCPIP", "TCPXX", "qAC", "q\u{e5}"] {
        assert_eq!(heard(alias).repeated_by().as_deref(), Some("SK0TM"), "{alias}");
    }
    for station in ["qABC", "wide1", "SM0YOS"] {
        assert_eq!(heard(station).repeated_by().as_deref(), Some(station));
    }
    assert_eq!(heard("X").dest_call(), "B");
    assert_eq!(heard("X").route(), "via X");
}

#[test]
fn routes_in_words() {
    let mut heard = Heard::parse_tnc2(b"A>B,qAO:x").unwrap();
    assert_eq!(heard.route(), "APRS-IS");
    heard = Heard::parse_tnc2(b"A>B,qAO,IGATE:x").unwrap();
    assert_eq!(heard.route(), "APRS-IS, iGate IGATE");
    heard.from_internet = false;
    assert_eq!(heard.route(), "direct");
    heard.info = b"}X>Y:z".to_vec();
    assert_eq!(heard.route(), "iGate A");
}
