use aprsmsg::base64::base64_encode;
use aprsmsg::client::{Action, UiMsg};
use aprsmsg::clock::SECOND;
use aprsmsg::decode::{Figures, Packet};
use aprsmsg::link::{internet_packet, kiss_packet};
use aprsmsg::session::{compute_passcode, format_ui, ui_kind, JsAction, Session};
use aprsmsg::Heard;

fn no_figures() -> Figures {
    Figures { kmh: String::new(), altitude: String::new() }
}

fn open(call: &str, mode: &str, path: &str) -> Result<Session, String> {
    Session::new_at(call, mode, path, "APZRST", 0, None, "", false, false, 0)
}

fn encode(session: &Session, actions: Vec<Action>) -> Vec<JsAction> {
    session.encode_actions(&actions.into_iter().map(|a| (a, no_figures())).collect())
}

#[test]
fn base64_matches_known_values() {
    for (bytes, text) in [
        ("", ""),
        ("f", "Zg=="),
        ("fo", "Zm8="),
        ("foo", "Zm9v"),
        ("foob", "Zm9vYg=="),
        ("fooba", "Zm9vYmE="),
        ("foobar", "Zm9vYmFy"),
    ] {
        assert_eq!(base64_encode(bytes.as_bytes()), text);
    }
    assert_eq!(base64_encode(&[0xfb, 0xef, 0xff, 0x00, 0x10, 0x83]), "++//ABCD");
}

#[test]
fn different_bytes_have_different_base64() {
    let value = |c: char| "ABCDEFGHIJKLMNOPQRSTUVWXYZabcdefghijklmnopqrstuvwxyz0123456789+/".find(c);
    for len in 0..20usize {
        let bytes: Vec<u8> = (0..len).map(|i| (i * 89 + len * 7) as u8).collect();
        let text = base64_encode(&bytes);
        assert_eq!(text.len(), (len + 2) / 3 * 4);
        let mut bits: Vec<u8> = Vec::new();
        for v in text.chars().filter_map(value) {
            bits.extend((0..6).rev().map(|b| (v >> b & 1) as u8));
        }
        let back: Vec<u8> = bits.chunks_exact(8).map(|c| c.iter().fold(0, |a, b| a << 1 | b)).collect();
        assert_eq!(back, bytes);
    }
}

#[test]
fn options_are_checked_in_order() {
    let why = |call: &str, mode: &str, path: &str, tocall: &str| {
        Session::new(call, mode, path, tocall, 0, None, "", false, false).err().unwrap()
    };
    assert_eq!(why("bad!", "x", "?", "!"), "invalid callsign \"bad!\"");
    assert_eq!(why("SA0KAM", "x", "?", "!"), "invalid callsign \"!\"");
    assert_eq!(why("SA0KAM", "x", "WIDE1-1,?", "APRS"), "invalid callsign \"?\"");
    assert_eq!(why("SA0KAM", "x", "none", "APRS"), "mode must be kiss or aprs-is, not \"x\"");
    assert!(Session::new("SA0KAM", "kiss", "", "APRS", 0, None, "", false, false).is_ok());
}

#[test]
fn logs_in_with_the_computed_or_given_passcode() {
    let session = Session::new_at("n0call-9", "aprs-is", "none", "APZRST", 0, None, " r/59/18/50 ", false, false, 0).unwrap();
    assert_eq!(session.passcode(), 13023);
    assert_eq!(
        session.login_bytes(),
        b"user N0CALL-9 pass 13023 vers aprsmsg 0.1.0 filter g/N0CALL-9  r/59/18/50\r\n"
    );
    let session = Session::new_at("N0CALL", "aprs-is", "", "APZRST", 0, Some(1), "", false, false, 0).unwrap();
    assert_eq!(session.passcode(), 1);
    assert_eq!(session.keepalive_bytes(), b"# aprsmsg keepalive\r\n");
    assert_eq!(compute_passcode("n0call"), 13023);
}

#[test]
fn a_session_over_the_radio() {
    let mut session = open("SA0KAM-1", "kiss", "WIDE1-1").unwrap();
    let actions = session.on_command_at("msg SM0YOS-1 hello", 0);
    assert_eq!(session.pending(), 1);
    let js = encode(&session, actions);
    let addr = |text: &str| aprsmsg::ax25::Address::parse(text).unwrap();
    let packet = kiss_packet(0, &addr("SA0KAM-1"), &addr("APZRST"), &[addr("WIDE1-1")], b":SM0YOS-1 :hello{1");
    assert_eq!(
        js,
        vec![
            JsAction::Send { data: base64_encode(&packet) },
            JsAction::Log { kind: "sent".into(), text: "→ SM0YOS-1 #1 hello  try 1/5".into() },
        ]
    );
    let ack = kiss_packet(0, &addr("SM0YOS-1"), &addr("APRS"), &[], b":SA0KAM-1 :ack1");
    assert_eq!(session.on_bytes_at(&ack[..9], SECOND), vec![]);
    let actions = session.on_bytes_at(&ack[9..], SECOND);
    assert_eq!(
        encode(&session, actions),
        vec![JsAction::Log { kind: "ok".into(), text: "✓ SM0YOS-1 #1 delivered after 1 try".into() }]
    );
    assert_eq!(session.pending(), 0);
    let elsewhere = kiss_packet(1, &addr("SM0YOS-1"), &addr("APRS"), &[], b":SA0KAM-1 :hi{1");
    assert_eq!(session.on_bytes_at(&elsewhere, SECOND), vec![]);
}

#[test]
fn a_session_over_the_internet() {
    let mut session = open("SA0KAM-1", "aprs-is", "none").unwrap();
    let data = b"# logresp SA0KAM-1 verified\r\n#\r\n\r\nSM0YOS-1>APRS,TCPIP*::SA0KAM-1 :hi{5";
    let actions = session.on_bytes_at(data, 0);
    assert_eq!(actions.len(), 3);
    assert_eq!(actions[0], Action::Ui(UiMsg::Info("logresp SA0KAM-1 verified".into())));
    assert!(matches!(&actions[1], Action::Ui(UiMsg::Incoming { text, .. }) if text == "hi"));
    let js = encode(&session, actions);
    let addr = |text: &str| aprsmsg::ax25::Address::parse(text).unwrap();
    let line = internet_packet(&addr("SA0KAM-1"), &addr("APZRST"), b":SM0YOS-1 :ack5");
    assert_eq!(js[0], JsAction::Log { kind: "info".into(), text: "logresp SA0KAM-1 verified".into() });
    assert_eq!(js[1], JsAction::Log { kind: "in".into(), text: "← SM0YOS-1 hi  #5 APRS-IS".into() });
    assert_eq!(js[2], JsAction::Send { data: base64_encode(&line) });
    let notice = session.on_bytes_at(b"# server is going down", 0);
    assert_eq!(notice, vec![Action::Ui(UiMsg::Info("server is going down".into()))]);
    let last = session.on_command_at("quit", 0);
    assert_eq!(encode(&session, last), vec![JsAction::Quit]);
}

#[test]
fn sessions_start_raw_and_monitoring_when_asked() {
    let mut session =
        Session::new_at("SA0KAM-1", "aprs-is", "", "APZRST", 0, None, "", true, true, 0).unwrap();
    let actions = session.on_bytes_at(b"SM0ABC>APRS,qAC,X:>up\n", 0);
    let js = encode(&session, actions);
    assert_eq!(
        js,
        vec![
            JsAction::Log { kind: "mon".into(), text: "SM0ABC>APRS,qAC,X:>up".into() },
            JsAction::Log { kind: "mon".into(), text: "· SM0ABC Status: up  APRS-IS".into() },
        ]
    );
}

#[test]
fn retries_run_in_a_session() {
    let mut session = open("SA0KAM-1", "aprs-is", "none").unwrap();
    session.on_command_at("msg SM0YOS-1 hello", 0);
    assert_eq!(session.poll_at(29 * SECOND), vec![]);
    assert_eq!(session.poll_at(30 * SECOND).len(), 2);
    assert_eq!(session.poll(), session_retry());
    assert!(matches!(session.on_command("p").as_slice(), [Action::Ui(UiMsg::Print(_))]));
    assert_eq!(session.on_bytes(b"#\n"), vec![]);
}

fn session_retry() -> Vec<Action> {
    vec![
        Action::Send(b":SM0YOS-1 :hello{1".to_vec()),
        Action::Ui(UiMsg::Retry { to: "SM0YOS-1".into(), id: "1".into(), attempt: 3, max: 5 }),
    ]
}

#[test]
fn log_lines_and_kinds() {
    let s = |text: &str| text.to_owned();
    let log = |msg: UiMsg| (ui_kind(&msg), format_ui(&msg, &no_figures()));
    assert_eq!(log(UiMsg::Info(s("x"))), ("info", s("x")));
    assert_eq!(log(UiMsg::Print(s("x"))), ("info", s("x")));
    assert_eq!(log(UiMsg::Error(s("x"))), ("error", s("x")));
    assert_eq!(log(UiMsg::Raw(s("x"))), ("mon", s("x")));
    assert_eq!(
        log(UiMsg::Retry { to: s("A"), id: s("1"), attempt: 2, max: 5 }),
        ("sent", s("→ A #1  retry 2/5"))
    );
    assert_eq!(log(UiMsg::Repeated { digi: s("D"), id: s("1") }), ("repeat", s("↻ D repeated your #1")));
    assert_eq!(
        log(UiMsg::Delivered { from: s("A"), id: s("1"), tries: 2 }),
        ("ok", s("✓ A #1 delivered after 2 tries"))
    );
    assert_eq!(log(UiMsg::Rejected { from: s("A"), id: s("1") }), ("fail", s("✗ A #1 rejected")));
    assert_eq!(
        log(UiMsg::GaveUp { to: s("A"), id: s("1"), tries: 5 }),
        ("fail", s("✗ A #1 not delivered (no ack after 5 tries)"))
    );
    assert_eq!(log(UiMsg::Cancelled { to: s("A"), id: s("1") }), ("fail", s("✗ A #1 cancelled")));
    assert_eq!(
        log(UiMsg::Incoming { from: s("A"), text: s("t"), id: None, route: s("r") }),
        ("in", s("← A t  r"))
    );
    assert_eq!(
        log(UiMsg::Monitor { station: s("A"), packet: Packet::Unknown, route: s("r") }),
        ("mon", s("· A Not decoded  r"))
    );
    assert!(Heard::parse_tnc2(b"A>B:c").is_some());
}
