use aprsmsg::ax25::Address;
use aprsmsg::bridge::{from_browser, from_tcp, unreachable_reason, FromBrowser, Relay};
use aprsmsg::cli::{
    before_quit, help_text, parse_args, Config, Event, Invocation, Outcome, Run, Transport,
    IDLE_WAIT, LINGER, USAGE,
};
use aprsmsg::client::{Action, Client, ClientConfig, UiMsg, COMMANDS};
use aprsmsg::clock::SECOND;
use aprsmsg::heard::Heard;
use aprsmsg::link::{Link, LinkEvent, KEEPALIVE};

fn args(line: &str) -> Vec<String> {
    line.split_whitespace().map(Into::into).collect()
}

fn config(line: &str) -> Config {
    match parse_args(&args(line)) {
        Ok(Invocation::Run(config)) => config,
        Ok(Invocation::Help) => panic!("expected a configuration, got help"),
        Err(e) => panic!("{e}"),
    }
}

fn refused(line: &str) -> String {
    match parse_args(&args(line)) {
        Err(e) => e,
        Ok(_) => panic!("expected an error"),
    }
}

fn client() -> Client {
    Client::new_at(
        ClientConfig {
            call: Address::parse("SA0KAM-1").unwrap(),
            path: vec![],
            tocall: Address::parse("APZRST").unwrap(),
            monitor: false,
            radio: true,
        },
        0,
    )
}

#[test]
fn defaults_are_for_the_radio() {
    let config = config("--call sa0kam-1");
    assert_eq!(config.call.to_string(), "SA0KAM-1");
    assert_eq!(config.tocall.to_string(), "APZRST");
    assert_eq!(config.path.iter().map(|a| a.to_string()).collect::<Vec<_>>(), ["WIDE1-1", "WIDE2-1"]);
    assert!(!config.monitor && !config.no_color && config.is_radio());
    let Transport::Radio { kiss, chan } = &config.transport else { panic!("expected radio") };
    assert_eq!((kiss.as_str(), *chan), ("127.0.0.1:8001", 0));
    assert_eq!(config.description(), "radio via Direwolf 127.0.0.1:8001, channel 0");
    assert_eq!(config.banner(), "SA0KAM-1 on radio via Direwolf 127.0.0.1:8001, channel 0 — type help");
}

#[test]
fn internet_options() {
    let config = config("--call N0CALL --aprs-is --monitor --no-color --filter r/59/18/50 --path none");
    assert!(config.monitor && config.no_color && !config.is_radio());
    assert!(config.path.is_empty());
    let Transport::Internet { server, passcode, filter } = &config.transport else { panic!("expected internet") };
    assert_eq!((server.as_str(), *passcode, filter.as_str()), ("euro.aprs2.net:14580", 13023, "g/N0CALL* r/59/18/50"));
    assert_eq!(config.description(), "APRS-IS euro.aprs2.net:14580, filter g/N0CALL* r/59/18/50");
}

#[test]
fn all_values_are_taken() {
    let config = config("--call N0CALL --kiss h:1 --chan 15 --tocall APRS --path X-1 --server s:2 --passcode 7");
    let Transport::Radio { kiss, chan } = &config.transport else { panic!("expected radio") };
    assert_eq!((kiss.as_str(), *chan, config.tocall.to_string().as_str()), ("h:1", 15, "APRS"));
    let config = self::config("--call N0CALL --server s:2 --passcode 7 --aprs-is");
    let Transport::Internet { server, passcode, .. } = &config.transport else { panic!("expected internet") };
    assert_eq!((server.as_str(), *passcode), ("s:2", 7));
}

#[test]
fn bad_arguments_are_named() {
    assert_eq!(refused(""), "--call is required");
    assert_eq!(refused("--call"), "--call needs a value");
    assert_eq!(refused("--call X --chan"), "--chan needs a value");
    assert_eq!(refused("--call X --chan 16"), "--chan must be 0-15");
    assert_eq!(refused("--call X --chan x"), "--chan must be 0-15");
    assert_eq!(refused("--call X --passcode 65536"), "--passcode must be a number");
    assert_eq!(refused("--call X --bogus"), "unknown argument \"--bogus\"");
    assert_eq!(refused("--call X!"), "invalid callsign \"X!\"");
    assert_eq!(refused("--call X --path A,B,C,D,E,F,G,H,I"), "--path allows at most 8 digipeaters");
    assert_eq!(refused("--call X --path A,?"), "invalid callsign \"?\"");
    assert_eq!(refused("--call X --tocall ?"), "invalid callsign \"?\"");
}

#[test]
fn help_wins_over_what_follows_it() {
    assert!(matches!(parse_args(&args("--monitor -h --bogus")), Ok(Invocation::Help)));
    assert!(matches!(parse_args(&args("--help")), Ok(Invocation::Help)));
    assert_eq!(help_text(), format!("{USAGE}\n\n{COMMANDS}"));
    assert!(USAGE.starts_with("usage: aprsmsg --call MYCALL"));
    assert!(USAGE.contains("digipeater path, or \"none\""));
}

#[test]
fn the_loop_waits_for_whatever_comes_first() {
    let mut run = Run::new();
    assert_eq!(run.wait(None, None, 0), IDLE_WAIT);
    assert_eq!(run.wait(Some(5), None, 0), 5);
    assert_eq!(run.wait(Some(500), Some(130), 100), 30);
    assert_eq!(run.wait(Some(500), Some(90), 100), 0);
    run.linger_until = Some(110);
    assert_eq!(run.wait(Some(500), Some(130), 100), 10);
}

#[test]
fn events_and_what_they_lead_to() {
    let mut run = Run::new();
    let mut client = client();
    let (actions, outcome) = run.on_event(&mut client, Event::Line("msg SM0YOS-1 hello".into()), 0);
    assert!(matches!(outcome, Outcome::Continue));
    assert_eq!(actions.len(), 2);
    let (actions, outcome) = run.on_event(&mut client, Event::Timeout, 0);
    assert!(actions.is_empty() && matches!(outcome, Outcome::Continue));
    let notice = Event::Link(LinkEvent::Notice("logresp".into()));
    let (actions, outcome) = run.on_event(&mut client, notice, 0);
    assert_eq!(actions, vec![Action::Ui(UiMsg::Info("logresp".into()))]);
    assert!(matches!(outcome, Outcome::Continue));
    let (actions, outcome) = run.on_event(&mut client, Event::InputClosed, 0);
    assert_eq!(
        actions,
        vec![Action::Ui(UiMsg::Info("input closed; waiting for 1 pending message(s)".into()))]
    );
    assert!(matches!(outcome, Outcome::Continue) && !run.input_open);
    let ack = Heard::parse_tnc2(b"SM0YOS-1>APRS::SA0KAM-1 :ack1").unwrap();
    let (actions, _) = run.on_event(&mut client, Event::Link(LinkEvent::Heard(ack)), 0);
    assert!(matches!(&actions[0], Action::Ui(UiMsg::Delivered { .. })));
    let (_, outcome) = run.on_event(&mut client, Event::InputClosed, 0);
    assert!(matches!(outcome, Outcome::Stop));
    let (actions, outcome) = run.on_event(&mut client, Event::Line("quit".into()), 0);
    assert!(actions.is_empty() && matches!(outcome, Outcome::Stop));
    let (_, outcome) = run.on_event(&mut client, Event::Disconnected, 0);
    assert!(matches!(outcome, Outcome::Stop));
    let closed = Event::Link(LinkEvent::Closed("gone".into()));
    let (_, outcome) = run.on_event(&mut client, closed, 0);
    assert!(matches!(outcome, Outcome::Fail(reason) if reason == "gone"));
}

#[test]
fn the_loop_lingers_before_it_ends() {
    let mut run = Run::new();
    assert!(!run.settle(0, 5 * SECOND));
    run.input_open = false;
    assert!(!run.settle(1, 5 * SECOND));
    assert_eq!(run.linger_until, None);
    assert!(!run.settle(0, 5 * SECOND));
    assert_eq!(run.linger_until, Some(5 * SECOND + LINGER));
    assert!(!run.settle(0, 5 * SECOND + LINGER - 1));
    assert!(run.settle(0, 5 * SECOND + LINGER));
}

#[test]
fn timers_run_after_each_event() {
    let mut run = Run::new();
    let mut client = client();
    let mut link = Link::AprsIs { last_tx: 0 };
    run.on_event(&mut client, Event::Line("msg SM0YOS-1 hello".into()), 0);
    let (keepalive, actions, over) = run.on_timers(&mut client, &mut link, 29 * SECOND, KEEPALIVE - 1);
    assert!(keepalive.is_none() && actions.is_empty() && !over);
    let (keepalive, actions, over) = run.on_timers(&mut client, &mut link, 30 * SECOND, KEEPALIVE);
    assert_eq!(keepalive.unwrap(), b"# aprsmsg keepalive\r\n");
    assert_eq!((actions.len(), over), (2, false));
    assert_eq!(link, Link::AprsIs { last_tx: KEEPALIVE });
    run.on_event(&mut client, Event::Line("cancel all".into()), 0);
    run.input_open = false;
    let (_, _, over) = run.on_timers(&mut client, &mut link, 0, KEEPALIVE);
    assert!(!over);
    let (_, _, over) = run.on_timers(&mut client, &mut link, 0, KEEPALIVE + LINGER);
    assert!(over);
}

#[test]
fn nothing_is_applied_after_quit() {
    let note = || Action::Ui(UiMsg::Info("x".into()));
    assert_eq!(before_quit(vec![note(), Action::Quit, note()]), (vec![note()], true));
    assert_eq!(before_quit(vec![note()]), (vec![note()], false));
    assert_eq!(before_quit(vec![]), (vec![], false));
}

#[test]
fn bridge_arguments() {
    let read = |line: &str| match aprsmsg::bridge::parse_args(&args(line)) {
        Ok(aprsmsg::bridge::Invocation::Run { listen, tcp }) => format!("{listen} {tcp}"),
        Ok(aprsmsg::bridge::Invocation::Help) => "help".to_owned(),
        Err(e) => e,
    };
    assert_eq!(read(""), "127.0.0.1:8765 127.0.0.1:8001");
    assert_eq!(read("--tcp a:1 --listen b:2"), "b:2 a:1");
    assert_eq!(read("--listen"), "--listen needs a value");
    assert_eq!(read("--tcp"), "--tcp needs a value");
    assert_eq!(read("-h --x"), "help");
    assert_eq!(read("--x"), "unknown argument \"--x\"");
    assert_eq!(
        aprsmsg::bridge::help_text(),
        "usage: aprsmsg-bridge [--listen 127.0.0.1:8765] [--tcp 127.0.0.1:8001]\n\nProxies browser WebSocket clients to Direwolf's KISS TCP port."
    );
}

#[test]
fn bridge_relays() {
    assert!(matches!(from_browser(FromBrowser::Binary(vec![1, 2])), Relay::ToTcp(d) if d == [1, 2]));
    assert!(matches!(from_browser(FromBrowser::Text("é".into())), Relay::ToTcp(d) if d == [0xc3, 0xa9]));
    assert!(matches!(from_browser(FromBrowser::Ping(vec![3])), Relay::Pong(d) if d == [3]));
    assert!(matches!(from_browser(FromBrowser::Close), Relay::Stop));
    assert!(matches!(from_browser(FromBrowser::Other), Relay::Nothing));
    assert!(matches!(from_tcp(&[]), Relay::Stop));
    assert!(matches!(from_tcp(b"x"), Relay::ToBrowser(d) if d == b"x"));
    assert_eq!(
        unreachable_reason("h:1", "refused"),
        "Direwolf not reachable at h:1 (refused) — start Direwolf with KISS TCP enabled"
    );
}
