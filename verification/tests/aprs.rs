use aprsmsg::aprs::{format_ack, format_message, parse_message, unwrap_third_party, Message};

fn text(to: &str, text: &str, id: Option<&str>, reply_ack: Option<&str>) -> Message {
    Message::Text {
        to: to.into(),
        text: text.into(),
        id: id.map(Into::into),
        reply_ack: reply_ack.map(Into::into),
    }
}

fn ack(to: &str, id: &str) -> Message {
    Message::Ack { to: to.into(), id: id.into() }
}

fn rej(to: &str, id: &str) -> Message {
    Message::Rej { to: to.into(), id: id.into() }
}

#[test]
fn formats_padded_message_and_ack() {
    assert_eq!(
        format_message("EMAIL-2", "a@b.se hi", "12").unwrap(),
        b":EMAIL-2  :a@b.se hi{12"
    );
    assert_eq!(
        format_message("SM0YOS-12", "hi", "7").unwrap(),
        b":SM0YOS-12:hi{7"
    );
    assert_eq!(format_ack("EMAIL-2", "AB").unwrap(), b":EMAIL-2  :ackAB");
}

#[test]
fn rejects_invalid_messages() {
    assert!(format_message("EMAIL-2", &"x".repeat(68), "1").is_err());
    assert!(format_message("EMAIL-2", "a{b", "1").is_err());
    assert!(format_message("EMAIL-2", "a|b", "1").is_err());
    assert!(format_message("EMAIL-2", "", "1").is_err());
    assert!(format_message("TOOLONGCALL", "hi", "1").is_err());
    assert!(format_message("EMAIL-2", "hi", "123456").is_err());
}

#[test]
fn parses_ack_and_rej() {
    assert_eq!(
        parse_message(b":SA0KAM-1 :ack12"),
        Some(Message::Ack { to: "SA0KAM-1".into(), id: "12".into() })
    );
    assert_eq!(
        parse_message(b":SA0KAM-1 :rej7\r"),
        Some(Message::Rej { to: "SA0KAM-1".into(), id: "7".into() })
    );
    assert_eq!(
        parse_message(b":SA0KAM-1 :ack12}"),
        Some(Message::Ack { to: "SA0KAM-1".into(), id: "12".into() })
    );
}

#[test]
fn parses_text_with_id_and_reply_ack() {
    assert_eq!(
        parse_message(b":SA0KAM-1 :Email sent{AB}12"),
        Some(text("SA0KAM-1", "Email sent", Some("AB"), Some("12")))
    );
    assert_eq!(
        parse_message(b":SA0KAM-1 :hello{3"),
        Some(text("SA0KAM-1", "hello", Some("3"), None))
    );
    assert_eq!(
        parse_message(b":SA0KAM   :no id here"),
        Some(text("SA0KAM", "no id here", None, None))
    );
    assert_eq!(
        parse_message(b":SA0KAM   :acknowledged"),
        Some(text("SA0KAM", "acknowledged", None, None))
    );
    assert_eq!(parse_message(b"!5924.00N/01757.00E-"), None);
}

#[test]
fn unwraps_third_party_packets() {
    let (source, info) = unwrap_third_party(
        "SK0TM-10",
        b"}EMAIL-2>APJIE4,TCPIP,SK0TM-10*::SA0KAM-1 :ack12",
    );
    assert_eq!(source, "EMAIL-2");
    assert_eq!(
        parse_message(&info),
        Some(Message::Ack { to: "SA0KAM-1".into(), id: "12".into() })
    );
    let (source, info) = unwrap_third_party("SM0YOS-12", b":SA0KAM-1 :hi{1");
    assert_eq!(source, "SM0YOS-12");
    assert_eq!(info, b":SA0KAM-1 :hi{1");
}

#[test]
fn says_why_a_message_is_refused() {
    let why = |to: &str, text: &str, id: &str| format_message(to, text, id).unwrap_err();
    assert_eq!(why("A:B", "hi", "1"), "invalid addressee \"A:B\" (1-9 characters)");
    assert_eq!(why("", "hi", "1"), "invalid addressee \"\" (1-9 characters)");
    assert_eq!(why("EMAIL-2", "", "1"), "empty message");
    assert_eq!(
        why("EMAIL-2", &"ö".repeat(34), "1"),
        "message is 68 bytes; APRS allows at most 67"
    );
    assert_eq!(why("EMAIL-2", "a~b|c", "1"), "character '~' is not allowed in APRS messages");
    assert_eq!(why("EMAIL-2", "a\nb", "1"), "character '\\n' is not allowed in APRS messages");
    assert_eq!(why("EMAIL-2", "hi", "a-b"), "invalid message id \"a-b\"");
    assert_eq!(format_ack("EMAIL-2", "").unwrap_err(), "invalid message id \"\"");
    assert_eq!(format_ack("TOO LONG", "1").unwrap_err(), "invalid addressee \"TOO LONG\" (1-9 characters)");
    assert!(format_message("EMAIL-2", &"x".repeat(67), "1").is_ok());
}

#[test]
fn built_messages_read_back() {
    for (to, body, id) in [("SA0KAM-1", "hello there", "1"), ("A", "räksmörgås", "ab9Z0"), ("SM0YOS-12", "ack", "99999")] {
        let info = format_message(to, body, id).unwrap();
        assert_eq!(parse_message(&info), Some(text(to, body, Some(id), None)));
        let info = format_ack(to, id).unwrap();
        assert_eq!(parse_message(&info), Some(ack(to, id)));
    }
}

#[test]
fn a_text_that_looks_like_an_ack_reads_as_one() {
    let info = format_message("SA0KAM-1", "ack12}x", "3").unwrap();
    assert_eq!(parse_message(&info), Some(ack("SA0KAM-1", "12")));
    let info = format_message("SA0KAM-1", "rej7}", "3").unwrap();
    assert_eq!(parse_message(&info), Some(rej("SA0KAM-1", "7")));
}

#[test]
fn line_ends_do_not_change_messages() {
    for info in [
        &b":SA0KAM-1 :ack12"[..],
        &b":SA0KAM-1 :rej7}"[..],
        &b":SA0KAM-1 :hello{3}12"[..],
        ":SA0KAM-1 :hej på dig".as_bytes(),
        &b":SA0KAM-1 :ack12}\xff"[..],
        &b":SA0KAM-1 :h\xe2\x82"[..],
        &b":SA0KAM-1 :"[..],
        &b":SA0KAM-1"[..],
    ] {
        let plain = parse_message(info);
        for line_end in [&b"\r"[..], &b"\n"[..], &b"\r\n"[..], &b"\n\n\r"[..]] {
            assert_eq!(parse_message(&[info, line_end].concat()), plain);
        }
    }
}

#[test]
fn odd_ids_are_left_in_the_text() {
    assert_eq!(
        parse_message(b":SA0KAM-1 :brace{toolong"),
        Some(text("SA0KAM-1", "brace{toolong", None, None))
    );
    assert_eq!(
        parse_message(b":SA0KAM-1 :hi{12}!"),
        Some(text("SA0KAM-1", "hi", Some("12"), None))
    );
    assert_eq!(parse_message(b":SA0KAM-1 :ack 12"), Some(text("SA0KAM-1", "ack 12", None, None)));
    assert_eq!(parse_message(b":SA0KAM-1"), None);
    assert_eq!(parse_message(b":SA0KAM-1 x"), None);
}

#[test]
fn text_that_is_not_utf8_is_read_with_substitutes() {
    assert_eq!(
        parse_message(b":SA0KAM-1 :h\xffi{1"),
        Some(text("SA0KAM-1", "h\u{fffd}i", Some("1"), None))
    );
    assert_eq!(parse_message(b":SA0KAM-1 :ack12}\xff\r\n"), Some(ack("SA0KAM-1", "12")));
    assert_eq!(
        parse_message(b":SA0KAM-1 :h\xe2\x82\r\n"),
        Some(text("SA0KAM-1", "h\u{fffd}", None, None))
    );
}

#[test]
fn a_line_end_is_the_same_before_and_after_decoding() {
    for first in 0x7f..=0xffu8 {
        for second in (0..=0xffu8).filter(|b| *b != b'{') {
            for body in [
                vec![first, b'\r'],
                vec![first, second, b'\n'],
                vec![0xe2, first, second, b'\r', b'\n'],
                vec![0xf0, 0x9f, first, second, b'\n', b'\r'],
            ] {
                let decoded = String::from_utf8_lossy(&body).into_owned();
                let expected = decoded.trim_end_matches(['\r', '\n']);
                let info = [&b":SA0KAM-1 :"[..], &body].concat();
                assert_eq!(parse_message(&info), Some(text("SA0KAM-1", expected, None, None)));
            }
        }
    }
}

#[test]
fn at_most_three_wrappers_come_off() {
    let (source, info) = unwrap_third_party("X", b"}A>B:}C>D:}E>F:}G>H:done");
    assert_eq!(source, "E");
    assert_eq!(info, b"}G>H:done");
    let (source, info) = unwrap_third_party("X", b"}no colon");
    assert_eq!((source.as_str(), info.as_slice()), ("X", b"}no colon".as_slice()));
    let (source, info) = unwrap_third_party("X", b"}no arrow:rest");
    assert_eq!((source.as_str(), info.as_slice()), ("X", b"}no arrow:rest".as_slice()));
}
