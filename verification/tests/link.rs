use aprsmsg::ax25::{Address, UiFrame};
use aprsmsg::kiss::Decoder;
use aprsmsg::link::{
    closed_reason, internet_packet, kiss_packet, passcode, read_aprs_is, read_kiss, AprsIsLogin,
    Heard, Link, LinkEvent, KEEPALIVE,
};

fn addr(text: &str) -> Address {
    Address::parse(text).unwrap()
}

#[test]
fn link_passcode_matches_reference() {
    assert_eq!(passcode("N0CALL"), 13023);
    assert_eq!(passcode("n0call-9"), 13023);
}

#[test]
fn link_parses_aprs_is_line_from_rf() {
    let heard =
        Heard::parse_tnc2(b"SM0ABC-9>APRS,SK0RYG-1*,WIDE1*,qAR,SK0TM-10:!5921.09N/01757.36E>").unwrap();
    assert_eq!(heard.source, "SM0ABC-9");
    assert_eq!(heard.dest_call(), "APRS");
    assert_eq!(heard.header(), "SM0ABC-9>APRS,SK0RYG-1,WIDE1*,qAR,SK0TM-10");
    assert_eq!(heard.route(), "APRS-IS, iGate SK0TM-10");
    assert_eq!(heard.info, b"!5921.09N/01757.36E>");
}

#[test]
fn link_parses_internet_only_message() {
    let heard = Heard::parse_tnc2(b"WXBOT>APRS,TCPIP*,qAC,T2TEST::SA0KAM-1 :ack12").unwrap();
    assert_eq!(heard.route(), "APRS-IS");
    assert_eq!(heard.repeated_by(), None);
    assert!(Heard::parse_tnc2(b"# comment without packet").is_none());
}

#[test]
fn link_route_and_repeats_for_radio_frames() {
    let frame = UiFrame {
        dest: addr("APZRST"),
        src: addr("SA0KAM-1"),
        digis: vec![(addr("SK0TM-10"), true), (addr("WIDE1"), true), (addr("WIDE2-1"), false)],
        info: b">test".to_vec(),
    };
    let heard = Heard::from_frame(frame);
    assert_eq!(heard.header(), "SA0KAM-1>APZRST,SK0TM-10,WIDE1*,WIDE2-1");
    assert_eq!(heard.repeated_by().as_deref(), Some("SK0TM-10"));
    assert_eq!(heard.route(), "via SK0TM-10");
}

#[test]
fn a_radio_packet_is_heard_as_sent() {
    let wire = kiss_packet(3, &addr("SA0KAM-1"), &addr("APZRST"), &[addr("WIDE1-1")], b">hi");
    let mut decoder = Decoder::default();
    let heard = read_kiss(&mut decoder, 3, &wire);
    assert_eq!(heard.len(), 1);
    assert_eq!(heard[0].header(), "SA0KAM-1>APZRST,WIDE1-1");
    assert_eq!(heard[0].info, b">hi");
    assert!(!heard[0].from_internet);
    assert!(read_kiss(&mut decoder, 2, &wire).is_empty());
    let wire = kiss_packet(12, &addr("SA0KAM-1"), &addr("APZRST"), &[], b">hi");
    assert_eq!(read_kiss(&mut decoder, 12, &wire)[0].header(), "SA0KAM-1>APZRST");
}

#[test]
fn an_internet_packet_is_heard_as_sent() {
    let line = internet_packet(&addr("SA0KAM-1"), &addr("APZRST"), b":EMAIL-2  :hi{1");
    assert_eq!(line, b"SA0KAM-1>APZRST,TCPIP*::EMAIL-2  :hi{1\r\n");
    let Some(LinkEvent::Heard(heard)) = read_aprs_is(&line) else { panic!("expected a packet") };
    assert_eq!(heard.source, "SA0KAM-1");
    assert_eq!(heard.dest, "APZRST");
    assert_eq!(heard.path.len(), 1);
    assert_eq!((heard.path[0].call.as_str(), heard.path[0].used), ("TCPIP", true));
    assert_eq!(heard.info, b":EMAIL-2  :hi{1");
}

#[test]
fn server_comments() {
    assert!(read_aprs_is(b"# javAPRSSrvr 4.3\r\n").is_none());
    assert!(read_aprs_is(b"\r\n").is_none());
    assert!(read_aprs_is(b"junk\r\n").is_none());
    let Some(LinkEvent::Notice(text)) = read_aprs_is(b"#  logresp SA0KAM verified \r\n") else {
        panic!("expected a notice")
    };
    assert_eq!(text, "logresp SA0KAM verified");
}

#[test]
fn login_and_keepalive() {
    let login = AprsIsLogin { server: "host:14580", call: "SA0KAM-1", passcode: 13023, filter: "g/SA0KAM-1" };
    let (mut link, line) = Link::aprs_is(&login, 1_000);
    assert_eq!(line, b"user SA0KAM-1 pass 13023 vers aprsmsg 0.1.0 filter g/SA0KAM-1\r\n");
    assert!(!link.is_radio());
    assert_eq!(link.next_deadline(), Some(1_000 + KEEPALIVE));
    assert_eq!(link.maintain(999 + KEEPALIVE), None);
    assert_eq!(link.maintain(1_000 + KEEPALIVE).unwrap(), b"# aprsmsg keepalive\r\n");
    assert_eq!(link.maintain(1_001 + KEEPALIVE), None);
    let sent = link.send(&addr("A"), &addr("B"), &[addr("WIDE1-1")], b"x", 5 * KEEPALIVE);
    assert_eq!(sent, b"A>B,TCPIP*:x\r\n");
    assert_eq!(link.next_deadline(), Some(6 * KEEPALIVE));
}

#[test]
fn radio_links_need_no_keepalive() {
    let mut link = Link::kiss(1);
    assert!(link.is_radio());
    assert_eq!(link.next_deadline(), None);
    assert_eq!(link.maintain(u128::MAX), None);
    let sent = link.send(&addr("A"), &addr("B"), &[], b"x", 0);
    assert_eq!(sent, kiss_packet(1, &addr("A"), &addr("B"), &[], b"x"));
}

#[test]
fn why_a_link_was_closed() {
    assert_eq!(closed_reason(true, None), "Direwolf closed the KISS connection");
    assert_eq!(closed_reason(false, None), "APRS-IS server closed the connection");
    assert_eq!(closed_reason(true, Some("boom".into())), "KISS connection error: boom");
    assert_eq!(closed_reason(false, Some("boom".into())), "APRS-IS connection error: boom");
}
