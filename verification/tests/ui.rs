use aprsmsg::client::UiMsg;
use aprsmsg::clock::SECOND;
use aprsmsg::decode::{Figures, Packet};
use aprsmsg::ui::{stamp, Ui};

const AT: u128 = (8 * 3600 + 51 * 60 + 7) * SECOND;

fn plain() -> Ui {
    Ui::new(false, false, false)
}

fn no_figures() -> Figures {
    Figures { kmh: String::new(), altitude: String::new() }
}

#[test]
fn times_of_day() {
    assert_eq!(stamp(AT), "08:51:07Z");
    assert_eq!(stamp(0), "00:00:00Z");
    assert_eq!(stamp(86_399 * SECOND + SECOND - 1), "23:59:59Z");
    assert_eq!(stamp(86_400 * SECOND), "00:00:00Z");
}

#[test]
fn plain_lines() {
    let ui = plain();
    assert_eq!(ui.info("hello", AT), "08:51:07Z hello");
    assert_eq!(ui.error("oops", AT), "08:51:07Z oops");
    assert_eq!(ui.sent("SM0YOS-1", "7", "hi", 1, 5, AT), "08:51:07Z → SM0YOS-1  #7 hi  try 1/5");
    assert_eq!(ui.retry("SM0YOS-1", "7", 2, 5, AT), "08:51:07Z → SM0YOS-1  #7  retry 2/5");
    assert_eq!(ui.repeated("SK0TM-10", "7", AT), "08:51:07Z ↻ SK0TM-10  repeated your #7");
    assert_eq!(ui.delivered("SM0YOS-1", "7", 1, AT), "08:51:07Z ✓ SM0YOS-1  #7 delivered  after 1 try");
    assert_eq!(ui.delivered("SM0YOS-1", "7", 2, AT), "08:51:07Z ✓ SM0YOS-1  #7 delivered  after 2 tries");
    assert_eq!(ui.rejected("SM0YOS-1", "7", AT), "08:51:07Z ✗ SM0YOS-1  #7 rejected");
    assert_eq!(ui.gave_up("SM0YOS-1", "7", 5, AT), "08:51:07Z ✗ SM0YOS-1  #7 not delivered  no ack after 5 tries");
    assert_eq!(ui.cancelled("SM0YOS-1", "7", AT), "08:51:07Z ✗ SM0YOS-1  #7 cancelled  no more retries");
    assert_eq!(
        ui.incoming("WXBOT", "Send an APRS message", Some("AB"), "iGate SM0RGQ-4", AT),
        "08:51:07Z ← WXBOT     Send an APRS message  #AB iGate SM0RGQ-4"
    );
    assert_eq!(ui.incoming("WXBOT", "", None, "direct", AT), "08:51:07Z ← WXBOT      direct");
    assert_eq!(ui.monitor("SM0ABC-12X", "Status: x", "", AT), "08:51:07Z · SM0ABC-12X Status: x");
    assert_eq!(ui.raw("A>B:c"), "                      A>B:c");
}

#[test]
fn colors_only_on_a_terminal_and_never_when_refused() {
    for (no_color, set, terminal, colored) in [
        (false, false, true, true),
        (true, false, true, false),
        (false, true, true, false),
        (false, false, false, false),
    ] {
        let line = Ui::new(no_color, set, terminal).info("x", AT);
        assert_eq!(line.contains('\u{1b}'), colored);
    }
    let ui = Ui::new(false, false, true);
    assert_eq!(ui.error("oops", AT), "\u{1b}[2m08:51:07Z\u{1b}[0m \u{1b}[1;31moops\u{1b}[0m");
    assert_eq!(
        ui.repeated("SK0TM", "7", AT),
        "\u{1b}[2m08:51:07Z\u{1b}[0m \u{1b}[1;34m↻\u{1b}[0m \u{1b}[1mSK0TM    \u{1b}[0m repeated your #7"
    );
    assert_eq!(
        ui.incoming("A", "hi", None, "r", AT),
        "\u{1b}[2m08:51:07Z\u{1b}[0m \u{1b}[1;33m←\u{1b}[0m \u{1b}[1mA        \u{1b}[0m \u{1b}[33mhi\u{1b}[0m  \u{1b}[2mr\u{1b}[0m"
    );
    assert_eq!(
        ui.delivered("A", "1", 1, AT),
        "\u{1b}[2m08:51:07Z\u{1b}[0m \u{1b}[1;32m✓\u{1b}[0m \u{1b}[1mA        \u{1b}[0m \u{1b}[1;32m#1 delivered\u{1b}[0m  \u{1b}[2mafter 1 try\u{1b}[0m"
    );
    assert_eq!(
        ui.retry("A", "1", 2, 5, AT),
        "\u{1b}[2m08:51:07Z\u{1b}[0m \u{1b}[1;36m→\u{1b}[0m \u{1b}[1mA        \u{1b}[0m #1  \u{1b}[2mretry 2/5\u{1b}[0m"
    );
}

#[test]
fn messages_are_dispatched() {
    let ui = plain();
    let line = |msg: UiMsg| ui.apply(&msg, &no_figures(), AT);
    let s = |text: &str| text.to_owned();
    assert_eq!(line(UiMsg::Info(s("x"))), ui.info("x", AT));
    assert_eq!(line(UiMsg::Error(s("x"))), ui.error("x", AT));
    assert_eq!(line(UiMsg::Print(s("a\nb"))), "a\nb");
    assert_eq!(line(UiMsg::Raw(s("x"))), ui.raw("x"));
    assert_eq!(
        line(UiMsg::Sent { to: s("A"), id: s("1"), text: s("t"), attempt: 1, max: 5 }),
        ui.sent("A", "1", "t", 1, 5, AT)
    );
    assert_eq!(line(UiMsg::Retry { to: s("A"), id: s("1"), attempt: 2, max: 5 }), ui.retry("A", "1", 2, 5, AT));
    assert_eq!(line(UiMsg::Repeated { digi: s("A"), id: s("1") }), ui.repeated("A", "1", AT));
    assert_eq!(line(UiMsg::Delivered { from: s("A"), id: s("1"), tries: 3 }), ui.delivered("A", "1", 3, AT));
    assert_eq!(line(UiMsg::Rejected { from: s("A"), id: s("1") }), ui.rejected("A", "1", AT));
    assert_eq!(line(UiMsg::GaveUp { to: s("A"), id: s("1"), tries: 5 }), ui.gave_up("A", "1", 5, AT));
    assert_eq!(line(UiMsg::Cancelled { to: s("A"), id: s("1") }), ui.cancelled("A", "1", AT));
    assert_eq!(
        line(UiMsg::Incoming { from: s("A"), text: s("t"), id: Some(s("1")), route: s("r") }),
        ui.incoming("A", "t", Some("1"), "r", AT)
    );
    assert_eq!(
        line(UiMsg::Monitor { station: s("A"), packet: Packet::Status(s("up")), route: s("r") }),
        ui.monitor("A", "Status: up", "r", AT)
    );
}

#[test]
fn plain_columns_are_fixed() {
    let line: Vec<char> = plain().sent("SM0YOS", "7", "hi", 1, 5, AT).chars().collect();
    assert_eq!(line[..9].iter().collect::<String>(), "08:51:07Z");
    assert_eq!(line[10], '→');
    assert_eq!(line[12..18].iter().collect::<String>(), "SM0YOS");
    assert_eq!(line[22..27].iter().collect::<String>(), "#7 hi");
}
