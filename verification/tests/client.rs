use aprsmsg::aprs::{format_ack, format_message, parse_message, Message};
use aprsmsg::ax25::Address;
use aprsmsg::client::{
    addressed_to_me, message_group_filter, Action, Client, ClientConfig, UiMsg, ACK_HOLDOFF,
    COMMANDS, MAX_TRIES, RETRY_BASE, SEEN_TTL,
};
use aprsmsg::clock::{now, SECOND};
use aprsmsg::decode::Packet;
use aprsmsg::heard::{Heard, Hop};

fn cfg(call: &str) -> ClientConfig {
    ClientConfig {
        call: Address::parse(call).unwrap(),
        path: vec![Address::parse("WIDE1-1").unwrap()],
        tocall: Address::parse("APZRST").unwrap(),
        monitor: false,
        radio: true,
    }
}

fn packet(source: &str, info: Vec<u8>) -> Heard {
    Heard { source: source.into(), dest: "APRS".into(), path: vec![], info, from_internet: true }
}

fn print(text: &str) -> Vec<Action> {
    vec![Action::Ui(UiMsg::Print(text.into()))]
}

#[test]
fn sends_and_acks_message() {
    let mut client = Client::new(cfg("SA0KAM-1"));
    let actions = client.on_command("msg SM0YOS-1 hello");
    assert!(actions.iter().any(|a| matches!(a, Action::Send(_))));
    assert_eq!(client.pending_count(), 1);

    let id = match &actions[1] {
        Action::Ui(UiMsg::Sent { id, .. }) => id.clone(),
        _ => panic!("expected Sent"),
    };
    let info = format_ack("SA0KAM-1", &id).unwrap();
    let heard = Heard {
        source: "SM0YOS-1".into(),
        dest: "APRS".into(),
        path: vec![],
        info,
        from_internet: true,
    };
    let actions = client.on_heard(heard);
    assert!(actions.iter().any(|a| matches!(
        a,
        Action::Ui(UiMsg::Delivered { .. })
    )));
    assert_eq!(client.pending_count(), 0);
}

#[test]
fn acks_incoming_once_within_holdoff() {
    let mut client = Client::new(cfg("SA0KAM-1"));
    let info = format_message("SA0KAM-1", "hi", "7").unwrap();
    let heard = Heard {
        source: "SM0YOS-1".into(),
        dest: "APRS".into(),
        path: vec![],
        info,
        from_internet: false,
    };
    let first = client.on_heard(heard.clone());
    assert_eq!(
        first.iter().filter(|a| matches!(a, Action::Send(_))).count(),
        1
    );
    let second = client.on_heard(heard);
    assert_eq!(
        second.iter().filter(|a| matches!(a, Action::Send(_))).count(),
        0
    );
    assert!(second.iter().all(|a| !matches!(a, Action::Ui(UiMsg::Incoming { .. }))));
}

#[test]
fn bare_callsign_matches_all_ssids() {
    let mine = Address::parse("SA0KAM").unwrap();
    assert!(addressed_to_me(&mine, "SA0KAM"));
    assert!(addressed_to_me(&mine, "SA0KAM-1"));
    assert!(addressed_to_me(&mine, "sa0kam-9"));
    assert!(addressed_to_me(&mine, "SA0KAM-15"));
    assert!(!addressed_to_me(&mine, "SA0KAMX"));
    assert!(!addressed_to_me(&mine, "SM0YOS-1"));

    let mine = Address::parse("SA0KAM-1").unwrap();
    assert!(addressed_to_me(&mine, "SA0KAM-1"));
    assert!(addressed_to_me(&mine, "sa0kam-1"));
    assert!(!addressed_to_me(&mine, "SA0KAM"));
    assert!(!addressed_to_me(&mine, "SA0KAM-2"));
}

#[test]
fn message_filter_wildcards_bare_call() {
    assert_eq!(
        message_group_filter(&Address::parse("SA0KAM").unwrap(), ""),
        "g/SA0KAM*"
    );
    assert_eq!(
        message_group_filter(&Address::parse("SA0KAM-1").unwrap(), "r/59/18/50"),
        "g/SA0KAM-1 r/59/18/50"
    );
}

#[test]
fn bare_call_receives_ssid_message() {
    let mut client = Client::new(cfg("SA0KAM"));
    let info = format_message("SA0KAM-7", "ping", "3").unwrap();
    let heard = Heard {
        source: "SM0YOS-1".into(),
        dest: "APRS".into(),
        path: vec![],
        info,
        from_internet: true,
    };
    let actions = client.on_heard(heard);
    assert!(actions.iter().any(|a| matches!(a, Action::Ui(UiMsg::Incoming { .. }))));
    assert!(actions.iter().any(|a| matches!(a, Action::Send(_))));
}

#[test]
fn the_clock_goes_forward_from_this_century() {
    let first = now();
    let second = now();
    assert!(first > 1_600_000_000 * SECOND);
    assert!(second >= first);
}

#[test]
fn ids_start_from_the_clock_and_wrap() {
    let mut client = Client::new_at(cfg("SA0KAM-1"), 1_234_567_041 * SECOND + 5);
    let actions = client.on_command_at("m sm0yos-1  hello there ", 0);
    assert_eq!(
        actions,
        vec![
            Action::Send(b":SM0YOS-1 :hello there{42".to_vec()),
            Action::Ui(UiMsg::Sent {
                to: "SM0YOS-1".into(),
                id: "42".into(),
                text: "hello there".into(),
                attempt: 1,
                max: MAX_TRIES,
            }),
        ]
    );
    for _ in 43..=99_999 {
        client.on_command_at("m x |", 0);
    }
    let actions = client.on_command_at("m x y", 0);
    assert_eq!(actions[0], Action::Send(b":X        :y{1".to_vec()));
}

#[test]
fn a_message_is_retried_then_given_up() {
    let mut client = Client::new_at(cfg("SA0KAM-1"), 0);
    let mut at = 1_000 * SECOND;
    client.on_command_at("msg SM0YOS-1 hello", at);
    let info = b":SM0YOS-1 :hello{1".to_vec();
    for (attempt, wait) in [(2, 30), (3, 60), (4, 120), (5, 240)] {
        assert_eq!(client.next_deadline(), Some(at + wait * SECOND));
        assert_eq!(client.time_until_deadline_at(at + SECOND), Some((wait - 1) * SECOND));
        assert_eq!(client.poll_at(at + wait * SECOND - 1), vec![]);
        at += wait * SECOND;
        assert_eq!(
            client.poll_at(at),
            vec![
                Action::Send(info.clone()),
                Action::Ui(UiMsg::Retry { to: "SM0YOS-1".into(), id: "1".into(), attempt, max: 5 }),
            ]
        );
        assert!(client.next_deadline().unwrap() > at);
    }
    assert_eq!(client.poll_at(at + 239 * SECOND), vec![]);
    assert_eq!(
        client.poll_at(at + 240 * SECOND),
        vec![Action::Ui(UiMsg::GaveUp { to: "SM0YOS-1".into(), id: "1".into(), tries: 5 })]
    );
    assert_eq!(client.pending_count(), 0);
    assert_eq!(client.next_deadline(), None);
    assert_eq!(client.time_until_deadline(), None);
    assert_eq!(RETRY_BASE, 30 * SECOND);
}

#[test]
fn a_message_is_given_up_once_whenever_timers_run() {
    for step in [1, 7, 31, 100, 1_000] {
        let mut client = Client::new_at(cfg("SA0KAM-1"), 0);
        client.on_command_at("msg AAA other", 0);
        let mut actions = client.on_command_at("msg SM0YOS-1 hello", 5 * SECOND);
        for i in 0..2_000 {
            // Each time comes twice.
            actions.extend(client.poll_at((5 + i / 2 * step) * SECOND));
        }
        let sent = Action::Send(b":SM0YOS-1 :hello{2".to_vec());
        let given_up = Action::Ui(UiMsg::GaveUp { to: "SM0YOS-1".into(), id: "2".into(), tries: 5 });
        assert_eq!(actions.iter().filter(|a| **a == sent).count(), 5);
        assert_eq!(actions.iter().filter(|a| **a == given_up).count(), 1);
        let last_sent = actions.iter().rposition(|a| *a == sent).unwrap();
        assert!(last_sent < actions.iter().position(|a| *a == given_up).unwrap());
        assert_eq!(client.pending_count(), 0);
        assert_eq!(client.poll_at(1_000_000_000 * SECOND), vec![]);
    }
}

#[test]
fn each_waiting_message_has_its_own_timer() {
    let mut client = Client::new_at(cfg("SA0KAM-1"), 0);
    client.on_command_at("msg AAA one", 0);
    client.on_command_at("msg BBB two", 10 * SECOND);
    client.on_command_at("msg CCC three", 20 * SECOND);
    assert_eq!(client.next_deadline(), Some(30 * SECOND));
    let actions = client.poll_at(40 * SECOND);
    assert_eq!(actions.len(), 4);
    assert_eq!(actions[0], Action::Send(b":AAA      :one{1".to_vec()));
    assert_eq!(actions[2], Action::Send(b":BBB      :two{2".to_vec()));
    assert_eq!(client.next_deadline(), Some(50 * SECOND));
}

#[test]
fn two_clients_exchange_a_message() {
    let mut alice = Client::new_at(cfg("SA0KAM-1"), 0);
    let mut bob = Client::new_at(cfg("SM0YOS"), 0);
    let sent = alice.on_command_at("msg SM0YOS räksmörgås", 0);
    let Action::Send(info) = &sent[0] else { panic!("expected Send") };
    let received = bob.on_heard_at(packet("SA0KAM-1", info.clone()), SECOND);
    assert_eq!(
        received[0],
        Action::Ui(UiMsg::Incoming {
            from: "SA0KAM-1".into(),
            text: "räksmörgås".into(),
            id: Some("1".into()),
            route: "APRS-IS".into(),
        })
    );
    let Action::Send(ack) = &received[1] else { panic!("expected Send") };
    assert_eq!(received.len(), 2);
    let acked = alice.on_heard_at(packet("SM0YOS", ack.clone()), 2 * SECOND);
    assert_eq!(
        acked,
        vec![Action::Ui(UiMsg::Delivered { from: "SM0YOS".into(), id: "1".into(), tries: 1 })]
    );
    assert_eq!(alice.pending_count(), 0);
}

#[test]
fn acks_must_come_from_the_addressee() {
    let mut client = Client::new_at(cfg("SA0KAM-1"), 0);
    client.on_command_at("msg SM0YOS-1 hello", 0);
    let ack = format_ack("SA0KAM-1", "1").unwrap();
    assert_eq!(client.on_heard_at(packet("SM0YOS-2", ack.clone()), 0), vec![]);
    assert_eq!(client.on_heard_at(packet("SM0YOS-1", format_ack("SA0KAM-1", "2").unwrap()), 0), vec![]);
    assert_eq!(client.on_heard_at(packet("SM0YOS-1", format_ack("SA0KAM-2", "1").unwrap()), 0), vec![]);
    assert_eq!(client.pending_count(), 1);
    let actions = client.on_heard_at(packet("sm0yos-1", ack), 0);
    assert_eq!(
        actions,
        vec![Action::Ui(UiMsg::Delivered { from: "sm0yos-1".into(), id: "1".into(), tries: 1 })]
    );
}

#[test]
fn rejected_messages_are_not_retried() {
    let mut client = Client::new_at(cfg("SA0KAM-1"), 0);
    client.on_command_at("msg SM0YOS-1 hello", 0);
    let actions = client.on_heard_at(packet("SM0YOS-1", b":SA0KAM-1 :rej1".to_vec()), 0);
    assert_eq!(actions, vec![Action::Ui(UiMsg::Rejected { from: "SM0YOS-1".into(), id: "1".into() })]);
    assert_eq!(client.poll_at(1_000 * SECOND), vec![]);
}

#[test]
fn a_reply_can_carry_an_ack() {
    let mut client = Client::new_at(cfg("SA0KAM-1"), 0);
    client.on_command_at("msg SM0YOS-1 hello", 0);
    let actions = client.on_heard_at(packet("SM0YOS-1", b":SA0KAM-1 :hi back{AB}1".to_vec()), 0);
    assert_eq!(actions.len(), 3);
    assert_eq!(
        actions[0],
        Action::Ui(UiMsg::Delivered { from: "SM0YOS-1".into(), id: "1".into(), tries: 1 })
    );
    assert!(matches!(&actions[1], Action::Ui(UiMsg::Incoming { text, .. }) if text == "hi back"));
    assert_eq!(actions[2], Action::Send(b":SM0YOS-1 :ackAB".to_vec()));
}

#[test]
fn copies_are_acked_again_after_the_holdoff_and_shown_again_after_a_while() {
    let mut client = Client::new_at(cfg("SA0KAM-1"), 0);
    let info = format_message("SA0KAM-1", "hi", "7").unwrap();
    let start = 5_000 * SECOND;
    assert_eq!(client.on_heard_at(packet("SM0YOS-1", info.clone()), start).len(), 2);
    assert_eq!(client.on_heard_at(packet("sm0yos-1", info.clone()), start + ACK_HOLDOFF - 1), vec![]);
    assert_eq!(
        client.on_heard_at(packet("SM0YOS-1", info.clone()), start + ACK_HOLDOFF),
        vec![Action::Send(b":SM0YOS-1 :ack7".to_vec())]
    );
    assert_eq!(client.on_heard_at(packet("SM0YOS-1", info.clone()), start + ACK_HOLDOFF + 1), vec![]);
    assert_eq!(client.on_heard_at(packet("SM0YOS-2", info.clone()), start + 1).len(), 2);
    assert_eq!(client.on_heard_at(packet("SM0YOS-1", info.clone()), start + SEEN_TTL - 1).len(), 1);
    assert_eq!(client.on_heard_at(packet("SM0YOS-1", info), start + SEEN_TTL).len(), 2);
}

#[test]
fn unnumbered_messages_are_shown_and_not_acked() {
    let mut client = Client::new_at(cfg("SA0KAM-1"), 0);
    let heard = packet("SM0YOS-1", b":SA0KAM-1 :no number".to_vec());
    for _ in 0..2 {
        let actions = client.on_heard_at(heard.clone(), 0);
        assert_eq!(
            actions,
            vec![Action::Ui(UiMsg::Incoming {
                from: "SM0YOS-1".into(),
                text: "no number".into(),
                id: None,
                route: "APRS-IS".into(),
            })]
        );
    }
}

#[test]
fn senders_that_cannot_be_addressed_get_no_ack() {
    let mut client = Client::new_at(cfg("SA0KAM-1"), 0);
    let actions = client.on_heard_at(packet("TOO-LONG-NAME", b":SA0KAM-1 :hi{1".to_vec()), 0);
    assert_eq!(
        actions[1],
        Action::Ui(UiMsg::Error(
            "cannot ack TOO-LONG-NAME: invalid addressee \"TOO-LONG-NAME\" (1-9 characters)".into()
        ))
    );
}

#[test]
fn own_packets_tell_who_repeated_them() {
    let mut client = Client::new_at(cfg("SA0KAM-1"), 0);
    client.on_command_at("msg SM0YOS-1 hello", 0);
    let echo = |digi: &str| Heard {
        source: "SA0KAM-1".into(),
        dest: "APZRST".into(),
        path: vec![Hop { call: digi.into(), used: true }, Hop { call: "WIDE1".into(), used: true }],
        info: b":SM0YOS-1 :hello{1".to_vec(),
        from_internet: false,
    };
    let told = |digi: &str| vec![Action::Ui(UiMsg::Repeated { digi: digi.into(), id: "1".into() })];
    assert_eq!(client.on_heard_at(echo("SK0TM-10"), 0), told("SK0TM-10"));
    assert_eq!(client.on_heard_at(echo("SK0TM-10"), 0), vec![]);
    assert_eq!(client.on_heard_at(echo("SK0RYG"), 0), told("SK0RYG"));
    assert_eq!(client.on_heard_at(echo("WIDE2"), 0), vec![]);
    assert_eq!(client.pending_count(), 1);
}

#[test]
fn messages_through_an_igate_are_answered_to_their_source() {
    let mut client = Client::new_at(cfg("SA0KAM-1"), 0);
    let mut heard = packet("SK0TM-10", b"}EMAIL-2>APJIE4,TCPIP,SK0TM-10*::SA0KAM-1 :mail{9".to_vec());
    heard.from_internet = false;
    let actions = client.on_heard_at(heard, 0);
    assert_eq!(
        actions,
        vec![
            Action::Ui(UiMsg::Incoming {
                from: "EMAIL-2".into(),
                text: "mail".into(),
                id: Some("9".into()),
                route: "iGate SK0TM-10".into(),
            }),
            Action::Send(b":EMAIL-2  :ack9".to_vec()),
        ]
    );
}

#[test]
fn the_monitor_shows_other_traffic() {
    let mut client = Client::new_at(cfg("SA0KAM-1"), 0);
    let heard = packet("SM0ABC", b">on air".to_vec());
    assert_eq!(client.on_heard_at(heard.clone(), 0), vec![]);
    assert_eq!(client.on_command_at("MON", 0), vec![Action::Ui(UiMsg::Info("monitor on".into()))]);
    assert_eq!(
        client.on_heard_at(heard, 0),
        vec![Action::Ui(UiMsg::Monitor {
            station: "SM0ABC".into(),
            packet: Packet::Status("on air".into()),
            route: "APRS-IS".into(),
        })]
    );
    let relayed = client.on_heard_at(packet("SK0TM", b"}WXBOT>APRS:>inner".to_vec()), 0);
    assert_eq!(
        relayed,
        vec![Action::Ui(UiMsg::Monitor {
            station: "WXBOT".into(),
            packet: Packet::Status("inner".into()),
            route: "iGate SK0TM".into(),
        })]
    );
    let other = client.on_heard_at(packet("SM0ABC", b":SM0YOS   :ack1".to_vec()), 0);
    assert!(matches!(&other[0], Action::Ui(UiMsg::Monitor { packet: Packet::Message(_), .. })));
    assert_eq!(client.on_command_at("mon", 0), vec![Action::Ui(UiMsg::Info("monitor off".into()))]);
}

#[test]
fn other_traffic_settles_nothing() {
    let mut client = Client::new_at(cfg("SA0KAM-1"), 0);
    client.on_command_at("mon", 0);
    client.on_command_at("raw", 0);
    client.on_command_at("msg SM0YOS-1 hello", 0);
    for (source, info) in [
        ("SA0KAM-1", &b":SA0KAM-1 :ack1"[..]),
        ("sa0kam-1", &b":SA0KAM-1 :hi{7"[..]),
        ("SM0YOS-1", &b">status"[..]),
        ("SM0YOS-1", &b":SA0KAM-2 :ack1"[..]),
        ("SM0YOS-1", &b":SA0KAM-2 :rej1"[..]),
        ("SM0YOS-1", &b":SA0KAM-2 :hi{7}1"[..]),
        ("SK0TM-10", &b"}SM0YOS-1>APRS,TCPIP*::SA0KAM-2 :ack1"[..]),
    ] {
        let actions = client.on_heard_at(packet(source, info.to_vec()), SECOND);
        assert!(actions.iter().all(|a| matches!(
            a,
            Action::Ui(UiMsg::Raw(_)) | Action::Ui(UiMsg::Monitor { .. })
        )));
        assert_eq!(client.pending_count(), 1);
    }
    client.on_heard_at(packet("SM0YOS-1", b":SA0KAM-1 :ack1".to_vec()), SECOND);
    assert_eq!(client.pending_count(), 0);
}

#[test]
fn raw_lines_come_first() {
    let mut client = Client::new_at(cfg("SA0KAM-1"), 0);
    assert_eq!(client.on_command_at("raw", 0), vec![Action::Ui(UiMsg::Info("raw packets on".into()))]);
    let actions = client.on_heard_at(packet("SM0ABC", b">x\r".to_vec()), 0);
    assert_eq!(actions, vec![Action::Ui(UiMsg::Raw("SM0ABC>APRS:>x<0x0d>".into()))]);
    assert_eq!(client.on_command_at("raw", 0), vec![Action::Ui(UiMsg::Info("raw packets off".into()))]);
}

#[test]
fn commands_and_their_answers() {
    let mut client = Client::new_at(cfg("SA0KAM-1"), 0);
    assert_eq!(client.on_command_at("   ", 0), vec![]);
    assert_eq!(client.on_command_at("msg", 0), print("usage: msg CALL text"));
    assert_eq!(client.on_command_at("msg SM0YOS", 0), print("usage: msg CALL text"));
    assert_eq!(client.on_command_at("help", 0), print(COMMANDS));
    assert_eq!(client.on_command_at("H", 0), print(COMMANDS));
    assert_eq!(client.on_command_at("?", 0), print(COMMANDS));
    assert_eq!(client.on_command_at("Nope x", 0), print("unknown command \"nope\"; type help"));
    for quit in ["q", "quit", "exit", "QUIT now"] {
        assert_eq!(client.on_command_at(quit, 0), vec![Action::Quit]);
    }
    assert_eq!(client.on_command_at("p", 0), print("no messages waiting for an ack"));
    assert_eq!(
        client.on_command_at("msg TOOLONGCALL hi", 0),
        vec![Action::Ui(UiMsg::Error(
            "not sent: invalid addressee \"TOOLONGCALL\" (1-9 characters)".into()
        ))]
    );
    assert!(COMMANDS.starts_with("commands:\n  msg CALL text   send a numbered message"));
    assert!(COMMANDS.ends_with("← message for you   · other traffic (mon)"));
}

#[test]
fn waiting_messages_are_listed() {
    let mut client = Client::new_at(cfg("SA0KAM-1"), 0);
    client.on_command_at("msg aaa one", 0);
    client.on_command_at("msg bbb two", 10 * SECOND);
    assert_eq!(
        client.on_command_at("pending", 12 * SECOND + 1),
        print("  #1 to AAA: try 1/5, next in 17 s\n  #2 to BBB: try 1/5, next in 27 s")
    );
    client.poll_at(35 * SECOND);
    assert_eq!(
        client.on_command_at("p", 50 * SECOND),
        print("  #1 to AAA: try 2/5, next in 45 s\n  #2 to BBB: try 1/5, next in 0 s")
    );
}

#[test]
fn messages_can_be_cancelled() {
    let mut client = Client::new_at(cfg("SA0KAM-1"), 0);
    for text in ["one", "two", "three"] {
        client.on_command_at(&format!("msg AAA {text}"), 0);
    }
    let gone = |id: &str| Action::Ui(UiMsg::Cancelled { to: "AAA".into(), id: id.into() });
    assert_eq!(client.on_command_at("cancel", 0), print("usage: cancel ID | cancel all"));
    assert_eq!(client.on_command_at("cancel ##", 0), print("usage: cancel ID | cancel all"));
    assert_eq!(
        client.on_command_at("cancel 9", 0),
        print("no pending message #9; type pending to list them")
    );
    assert_eq!(client.on_command_at("cancel #2", 0), vec![gone("2")]);
    assert_eq!(client.pending_count(), 2);
    assert_eq!(client.on_command_at("cancel ALL", 0), vec![gone("1"), gone("3")]);
    assert_eq!(client.pending_count(), 0);
    assert_eq!(client.poll_at(1_000 * SECOND), vec![]);
}

#[test]
fn digipeaters_are_ranked() {
    let mut client = Client::new_at(cfg("SA0KAM-1"), 0);
    let repeated = |digi: &str| Heard {
        source: "SM0ABC".into(),
        dest: "APRS".into(),
        path: vec![Hop { call: digi.into(), used: true }],
        info: b">x".to_vec(),
        from_internet: false,
    };
    assert_eq!(
        client.on_command_at("digis", 0),
        print("no digipeaters heard yet (only stations heard directly)")
    );
    for (digi, at) in [("ZULU", 1), ("SK0TM-10", 2), ("SK0RYG", 3), ("SK0TM-10", 4), ("ALFA", 5)] {
        client.on_heard_at(repeated(digi), at * SECOND);
    }
    let mut from_internet = repeated("NET");
    from_internet.from_internet = true;
    client.on_heard_at(from_internet, 6 * SECOND);
    assert_eq!(
        client.on_command_at("d", 10 * SECOND),
        print(
            "  SK0TM-10      2 packets, last 6 s ago\n  \
             ALFA          1 packets, last 5 s ago\n  \
             SK0RYG        1 packets, last 7 s ago\n  \
             ZULU          1 packets, last 9 s ago"
        )
    );
    let mut internet = cfg("SA0KAM-1");
    internet.radio = false;
    let mut client = Client::new_at(internet, 0);
    assert_eq!(
        client.on_command_at("digis", 0),
        print("digipeaters are only tracked on the radio link")
    );
}

#[test]
fn notices_from_the_server() {
    let mut client = Client::new_at(cfg("SA0KAM-1"), 0);
    assert_eq!(
        client.on_notice("logresp SA0KAM-1 verified"),
        vec![Action::Ui(UiMsg::Info("logresp SA0KAM-1 verified".into()))]
    );
    assert_eq!(
        client.on_notice("logresp SA0KAM-1 unverified"),
        vec![Action::Ui(UiMsg::Error(
            "logresp SA0KAM-1 unverified — wrong passcode? packets you send will be dropped".into()
        ))]
    );
}

#[test]
fn the_configuration_can_be_read_back() {
    let mut client = Client::new_at(cfg("SA0KAM-1"), 0);
    assert_eq!(client.call().to_string(), "SA0KAM-1");
    assert_eq!(client.tocall().to_string(), "APZRST");
    assert_eq!(client.path(), [Address::parse("WIDE1-1").unwrap()]);
    assert!(client.is_radio());
    client.set_raw(true);
    assert_eq!(client.on_heard_at(packet("X", b"x".to_vec()), 0).len(), 1);
}

#[test]
fn every_id_of_the_client_is_a_valid_one() {
    for id in [1, 9, 10, 999, 12_345, 99_999] {
        let info = format_message("SA0KAM-1", "x", &id.to_string()).unwrap();
        let Some(Message::Text { id: Some(read), .. }) = parse_message(&info) else { panic!("expected an id") };
        assert_eq!(read, id.to_string());
    }
}

#[test]
fn poll_and_deadlines_follow_the_real_clock() {
    let mut client = Client::new(cfg("SA0KAM-1"));
    client.on_command("msg SM0YOS-1 hello");
    assert_eq!(client.poll(), vec![]);
    let left = client.time_until_deadline().unwrap();
    assert!(left <= RETRY_BASE && left > RETRY_BASE - 20 * SECOND);
}
