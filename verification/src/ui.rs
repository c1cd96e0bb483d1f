//! Terminal output: one line per event with a fixed layout
//!
//!   08:51:07Z ← WXBOT     Send an APRS message ...   #AB iGate SM0RGQ-4
//!   time      │ station   text                        details (dimmed)
//!             └ event marker
//!
//! ANSI colors are used only when stdout is a terminal, and never when
//! `--no-color` is given or the NO_COLOR environment variable is set.
//!
//! The lines are returned; the caller prints them. Each takes the time that it shows.

use vstd::prelude::*;

use crate::action::{UiMsg, UiMsgView};

use crate::clock::{seconds, spec_seconds};

use crate::numeral::{
    decimal, push_pad_left, push_pad_right, push_repeat, spec_decimal, spec_pad_left,
    spec_pad_right, spec_repeat,
};
use crate::decode::PacketView;
use crate::position::{lemma_padded, spec_two_places, Figures, FiguresView};

verus! {

pub const CALL_WIDTH: usize = 9;

/// Width of "08:51:07Z ← " plus the station column and its trailing space.
pub const BODY_INDENT: usize = 10 + 2 + CALL_WIDTH + 1;

#[derive(Clone, Copy, Debug, PartialEq, Eq, Structural)]
pub enum Style {
    Dim,
    Bold,
    Cyan,
    Green,
    Yellow,
    YellowText,
    Red,
    Blue,
}

impl Style {
    pub open spec fn spec_sgr(self) -> Seq<char> {
        match self {
            Style::Dim => "2"@,
            Style::Bold => "1"@,
            Style::Cyan => "1;36"@,
            Style::Green => "1;32"@,
            Style::Yellow => "1;33"@,
            Style::YellowText => "33"@,
            Style::Red => "1;31"@,
            Style::Blue => "1;34"@,
        }
    }

    fn sgr(self) -> (r: &'static str)
        ensures
            r@ == self.spec_sgr(),
    {
        match self {
            Style::Dim => "2",
            Style::Bold => "1",
            Style::Cyan => "1;36",
            Style::Green => "1;32",
            Style::Yellow => "1;33",
            Style::YellowText => "33",
            Style::Red => "1;31",
            Style::Blue => "1;34",
        }
    }
}

pub struct Ui {
    color: bool,
}

/// What a line looks like, given whether colors are on.
pub struct UiView {
    pub color: bool,
}

impl View for Ui {
    type V = UiView;

    closed spec fn view(&self) -> UiView {
        UiView { color: self.color }
    }
}

/// `08:51:07Z` for a time in nanoseconds since the Unix epoch.
pub open spec fn spec_stamp(at: u128) -> Seq<char> {
    let secs = spec_seconds(at as int) % 86_400;
    spec_pad_left(spec_decimal(secs / 3600), '0', 2) + ":"@ + spec_pad_left(
        spec_decimal(secs / 60 % 60),
        '0',
        2,
    ) + ":"@ + spec_pad_left(spec_decimal(secs % 60), '0', 2) + "Z"@
}

/// `#ID` and what follows it.
pub open spec fn spec_numbered(id: Seq<char>, rest: Seq<char>) -> Seq<char> {
    "#"@ + id + rest
}

impl UiView {
    pub open spec fn paint(self, style: Style, text: Seq<char>) -> Seq<char> {
        if self.color && text.len() > 0 {
            "\u{1b}["@ + style.spec_sgr() + "m"@ + text + "\u{1b}[0m"@
        } else {
            text
        }
    }

    pub open spec fn event(
        self,
        marker: Seq<char>,
        marker_style: Style,
        station: Seq<char>,
        body: Seq<char>,
        detail: Seq<char>,
        at: u128,
    ) -> Seq<char> {
        self.paint(Style::Dim, spec_stamp(at)) + " "@ + self.paint(marker_style, marker) + " "@
            + self.paint(Style::Bold, spec_pad_right(station, CALL_WIDTH as int)) + (if body.len()
            > 0 {
            " "@ + body
        } else {
            Seq::empty()
        }) + (if detail.len() > 0 {
            "  "@ + self.paint(Style::Dim, detail)
        } else {
            Seq::empty()
        })
    }

    pub open spec fn note(self, style: Style, text: Seq<char>, at: u128) -> Seq<char> {
        self.paint(Style::Dim, spec_stamp(at)) + " "@ + self.paint(style, text)
    }

    pub open spec fn sent(
        self,
        to: Seq<char>,
        id: Seq<char>,
        text: Seq<char>,
        attempt: u32,
        max: u32,
        at: u128,
    ) -> Seq<char> {
        self.event(
            "→"@,
            Style::Cyan,
            to,
            spec_numbered(id, " "@ + text),
            "try "@ + spec_decimal(attempt as nat) + "/"@ + spec_decimal(max as nat),
            at,
        )
    }

    pub open spec fn retry(
        self,
        to: Seq<char>,
        id: Seq<char>,
        attempt: u32,
        max: u32,
        at: u128,
    ) -> Seq<char> {
        self.event(
            "→"@,
            Style::Cyan,
            to,
            spec_numbered(id, Seq::empty()),
            "retry "@ + spec_decimal(attempt as nat) + "/"@ + spec_decimal(max as nat),
            at,
        )
    }

    pub open spec fn repeated(self, digi: Seq<char>, id: Seq<char>, at: u128) -> Seq<char> {
        self.event("↻"@, Style::Blue, digi, "repeated your #"@ + id, Seq::empty(), at)
    }

    pub open spec fn delivered(self, from: Seq<char>, id: Seq<char>, tries: u32, at: u128) -> Seq<
        char,
    > {
        self.event(
            "✓"@,
            Style::Green,
            from,
            self.paint(Style::Green, spec_numbered(id, " delivered"@)),
            "after "@ + spec_decimal(tries as nat) + (if tries == 1 {
                " try"@
            } else {
                " tries"@
            }),
            at,
        )
    }

    pub open spec fn rejected(self, from: Seq<char>, id: Seq<char>, at: u128) -> Seq<char> {
        self.event(
            "✗"@,
            Style::Red,
            from,
            self.paint(Style::Red, spec_numbered(id, " rejected"@)),
            Seq::empty(),
            at,
        )
    }

    pub open spec fn gave_up(self, to: Seq<char>, id: Seq<char>, tries: u32, at: u128) -> Seq<
        char,
    > {
        self.event(
            "✗"@,
            Style::Red,
            to,
            self.paint(Style::Red, spec_numbered(id, " not delivered"@)),
            "no ack after "@ + spec_decimal(tries as nat) + " tries"@,
            at,
        )
    }

    pub open spec fn cancelled(self, to: Seq<char>, id: Seq<char>, at: u128) -> Seq<char> {
        self.event(
            "✗"@,
            Style::Dim,
            to,
            spec_numbered(id, " cancelled"@),
            "no more retries"@,
            at,
        )
    }

    pub open spec fn incoming(
        self,
        from: Seq<char>,
        text: Seq<char>,
        id: Option<Seq<char>>,
        route: Seq<char>,
        at: u128,
    ) -> Seq<char> {
        self.event(
            "←"@,
            Style::Yellow,
            from,
            self.paint(Style::YellowText, text),
            match id {
                Some(id) => spec_numbered(id, " "@ + route),
                None => route,
            },
            at,
        )
    }

    pub open spec fn monitor(
        self,
        station: Seq<char>,
        summary: Seq<char>,
        route: Seq<char>,
        at: u128,
    ) -> Seq<char> {
        self.event("·"@, Style::Dim, station, summary, route, at)
    }

    pub open spec fn raw(self, frame: Seq<char>) -> Seq<char> {
        spec_repeat(' ', BODY_INDENT as int) + self.paint(Style::Dim, frame)
    }

    /// The line for a message of the client. The figures are those of the packet in it, if any.
    pub open spec fn apply(self, msg: UiMsgView, figures: FiguresView, at: u128) -> Seq<char> {
        match msg {
            UiMsgView::Info(text) => self.note(Style::Dim, text, at),
            UiMsgView::Error(text) => self.note(Style::Red, text, at),
            UiMsgView::Sent { to, id, text, attempt, max } => self.sent(
                to,
                id,
                text,
                attempt,
                max,
                at,
            ),
            UiMsgView::Retry { to, id, attempt, max } => self.retry(to, id, attempt, max, at),
            UiMsgView::Repeated { digi, id } => self.repeated(digi, id, at),
            UiMsgView::Delivered { from, id, tries } => self.delivered(from, id, tries, at),
            UiMsgView::Rejected { from, id } => self.rejected(from, id, at),
            UiMsgView::GaveUp { to, id, tries } => self.gave_up(to, id, tries, at),
            UiMsgView::Cancelled { to, id } => self.cancelled(to, id, at),
            UiMsgView::Incoming { from, text, id, route } => self.incoming(
                from,
                text,
                id,
                route,
                at,
            ),
            UiMsgView::Monitor { station, packet, route } => self.monitor(
                station,
                packet.describe(figures),
                route,
                at,
            ),
            UiMsgView::Raw(frame) => self.raw(frame),
            UiMsgView::Print(text) => text,
        }
    }
}

/// `08:51:07Z` for a time in nanoseconds since the Unix epoch.
pub fn stamp(at: u128) -> (r: String)
    ensures
        r@ == spec_stamp(at),
{
    let secs: u128 = seconds(at) % 86_400;
    let mut out = String::new();
    push_pad_left(&mut out, decimal(secs / 3600).as_str(), '0', 2);
    out.append(":");
    push_pad_left(&mut out, decimal(secs / 60 % 60).as_str(), '0', 2);
    out.append(":");
    push_pad_left(&mut out, decimal(secs % 60).as_str(), '0', 2);
    out.append("Z");
    assert(out@ =~= spec_stamp(at));
    out
}

fn numbered(id: &str, rest: &str) -> (r: String)
    ensures
        r@ == spec_numbered(id@, rest@),
{
    let mut out = String::from_str("#");
    out.append(id);
    out.append(rest);
    out
}

/// `WORD N/MAX`
fn count_of(word: &str, n: u32, max: u32) -> (r: String)
    ensures
        r@ == word@ + spec_decimal(n as nat) + "/"@ + spec_decimal(max as nat),
{
    let mut out = String::from_str(word);
    out.append(decimal(n as u128).as_str());
    out.append("/");
    out.append(decimal(max as u128).as_str());
    out
}

/// `BEFORE N AFTER`
fn count_between(before: &str, n: u32, after: &str) -> (r: String)
    ensures
        r@ == before@ + spec_decimal(n as nat) + after@,
{
    let mut out = String::from_str(before);
    out.append(decimal(n as u128).as_str());
    out.append(after);
    out
}

/// Two texts, one behind the other.
fn joined(first: &str, second: &str) -> (r: String)
    ensures
        r@ == first@ + second@,
{
    let mut out = String::from_str(first);
    out.append(second);
    out
}

impl Ui {
    /// `no_color` is the option, `no_color_set` tells whether the environment variable is set, and
    /// `terminal` whether the lines go to a terminal.
    pub fn new(no_color: bool, no_color_set: bool, terminal: bool) -> (r: Ui)
        ensures
            r@ == (UiView { color: !no_color && !no_color_set && terminal }),
    {
        Ui { color: !no_color && !no_color_set && terminal }
    }

    fn paint(&self, style: Style, text: &str) -> (r: String)
        ensures
            r@ == self@.paint(style, text@),
    {
        if self.color && text.unicode_len() > 0 {
            let mut out = String::from_str("\u{1b}[");
            out.append(style.sgr());
            out.append("m");
            out.append(text);
            out.append("\u{1b}[0m");
            out
        } else {
            String::from_str(text)
        }
    }

    fn event(
        &self,
        marker: &str,
        marker_style: Style,
        station: &str,
        body: &str,
        detail: &str,
        at: u128,
    ) -> (r: String)
        ensures
            r@ == self@.event(marker@, marker_style, station@, body@, detail@, at),
    {
        let mut line = self.paint(Style::Dim, stamp(at).as_str());
        line.append(" ");
        line.append(self.paint(marker_style, marker).as_str());
        line.append(" ");
        let mut padded = String::new();
        push_pad_right(&mut padded, station, CALL_WIDTH);
        assert(padded@ =~= spec_pad_right(station@, CALL_WIDTH as int));
        line.append(self.paint(Style::Bold, padded.as_str()).as_str());
        if body.unicode_len() > 0 {
            line.append(" ");
            line.append(body);
        }
        if detail.unicode_len() > 0 {
            line.append("  ");
            line.append(self.paint(Style::Dim, detail).as_str());
        }
        assert(line@ =~= self@.event(marker@, marker_style, station@, body@, detail@, at));
        line
    }

    fn note(&self, style: Style, text: &str, at: u128) -> (r: String)
        ensures
            r@ == self@.note(style, text@, at),
    {
        let mut line = self.paint(Style::Dim, stamp(at).as_str());
        line.append(" ");
        line.append(self.paint(style, text).as_str());
        line
    }

    // ---- general ----------------------------------------------------------

    pub fn info(&self, text: &str, at: u128) -> (r: String)
        ensures
            r@ == self@.note(Style::Dim, text@, at),
    {
        self.note(Style::Dim, text, at)
    }

    pub fn error(&self, text: &str, at: u128) -> (r: String)
        ensures
            r@ == self@.note(Style::Red, text@, at),
    {
        self.note(Style::Red, text, at)
    }

    // ---- outgoing messages ------------------------------------------------

    pub fn sent(&self, to: &str, id: &str, text: &str, attempt: u32, max: u32, at: u128) -> (r:
        String)
        ensures
            r@ == self@.sent(to@, id@, text@, attempt, max, at),
    {
        let body = numbered(id, joined(" ", text).as_str());
        let detail = count_of("try ", attempt, max);
        self.event("→", Style::Cyan, to, body.as_str(), detail.as_str(), at)
    }

    pub fn retry(&self, to: &str, id: &str, attempt: u32, max: u32, at: u128) -> (r: String)
        ensures
            r@ == self@.retry(to@, id@, attempt, max, at),
    {
        let empty = String::new();
        assert(empty@ =~= Seq::<char>::empty());
        let body = numbered(id, empty.as_str());
        let detail = count_of("retry ", attempt, max);
        self.event("→", Style::Cyan, to, body.as_str(), detail.as_str(), at)
    }

    pub fn repeated(&self, digi: &str, id: &str, at: u128) -> (r: String)
        ensures
            r@ == self@.repeated(digi@, id@, at),
    {
        let empty = String::new();
        assert(empty@ =~= Seq::<char>::empty());
        let body = joined("repeated your #", id);
        self.event("↻", Style::Blue, digi, body.as_str(), empty.as_str(), at)
    }

    pub fn delivered(&self, from: &str, id: &str, tries: u32, at: u128) -> (r: String)
        ensures
            r@ == self@.delivered(from@, id@, tries, at),
    {
        let detail = if tries == 1 {
            count_between("after ", tries, " try")
        } else {
            count_between("after ", tries, " tries")
        };
        let body = self.paint(Style::Green, numbered(id, " delivered").as_str());
        self.event("✓", Style::Green, from, body.as_str(), detail.as_str(), at)
    }

    pub fn rejected(&self, from: &str, id: &str, at: u128) -> (r: String)
        ensures
            r@ == self@.rejected(from@, id@, at),
    {
        let empty = String::new();
        assert(empty@ =~= Seq::<char>::empty());
        let body = self.paint(Style::Red, numbered(id, " rejected").as_str());
        self.event("✗", Style::Red, from, body.as_str(), empty.as_str(), at)
    }

    pub fn gave_up(&self, to: &str, id: &str, tries: u32, at: u128) -> (r: String)
        ensures
            r@ == self@.gave_up(to@, id@, tries, at),
    {
        let body = self.paint(Style::Red, numbered(id, " not delivered").as_str());
        let detail = count_between("no ack after ", tries, " tries");
        self.event("✗", Style::Red, to, body.as_str(), detail.as_str(), at)
    }

    pub fn cancelled(&self, to: &str, id: &str, at: u128) -> (r: String)
        ensures
            r@ == self@.cancelled(to@, id@, at),
    {
        let body = numbered(id, " cancelled");
        self.event("✗", Style::Dim, to, body.as_str(), "no more retries", at)
    }

    // ---- incoming ---------------------------------------------------------

    pub fn incoming(&self, from: &str, text: &str, id: Option<&str>, route: &str, at: u128) -> (r:
        String)
        ensures
            r@ == self@.incoming(
                from@,
                text@,
                match id {
                    Some(id) => Some(id@),
                    None => None,
                },
                route@,
                at,
            ),
    {
        let detail = match id {
            Some(id) => numbered(id, joined(" ", route).as_str()),
            None => String::from_str(route),
        };
        let body = self.paint(Style::YellowText, text);
        self.event("←", Style::Yellow, from, body.as_str(), detail.as_str(), at)
    }

    pub fn monitor(&self, station: &str, summary: &str, route: &str, at: u128) -> (r: String)
        ensures
            r@ == self@.monitor(station@, summary@, route@, at),
    {
        self.event("·", Style::Dim, station, summary, route, at)
    }

    pub fn raw(&self, frame: &str) -> (r: String)
        ensures
            r@ == self@.raw(frame@),
    {
        let mut out = String::new();
        push_repeat(&mut out, ' ', BODY_INDENT);
        assert(out@ =~= spec_repeat(' ', BODY_INDENT as int));
        out.append(self.paint(Style::Dim, frame).as_str());
        out
    }

    /// The line for a message of the client. The figures are those of the packet in it, if any.
    pub fn apply(&self, msg: &UiMsg, figures: &Figures, at: u128) -> (r: String)
        ensures
            r@ == self@.apply(msg@, figures@, at),
    {
        match msg {
            UiMsg::Info(text) => self.info(text.as_str(), at),
            UiMsg::Error(text) => self.error(text.as_str(), at),
            UiMsg::Sent { to, id, text, attempt, max } => self.sent(
                to.as_str(),
                id.as_str(),
                text.as_str(),
                *attempt,
                *max,
                at,
            ),
            UiMsg::Retry { to, id, attempt, max } => self.retry(
                to.as_str(),
                id.as_str(),
                *attempt,
                *max,
                at,
            ),
            UiMsg::Repeated { digi, id } => self.repeated(digi.as_str(), id.as_str(), at),
            UiMsg::Delivered { from, id, tries } => self.delivered(
                from.as_str(),
                id.as_str(),
                *tries,
                at,
            ),
            UiMsg::Rejected { from, id } => self.rejected(from.as_str(), id.as_str(), at),
            UiMsg::GaveUp { to, id, tries } => self.gave_up(to.as_str(), id.as_str(), *tries, at),
            UiMsg::Cancelled { to, id } => self.cancelled(to.as_str(), id.as_str(), at),
            UiMsg::Incoming { from, text, id, route } => self.incoming(
                from.as_str(),
                text.as_str(),
                match id {
                    Some(id) => Some(id.as_str()),
                    None => None,
                },
                route.as_str(),
                at,
            ),
            UiMsg::Monitor { station, packet, route } => self.monitor(
                station.as_str(),
                packet.describe(figures).as_str(),
                route.as_str(),
                at,
            ),
            UiMsg::Raw(frame) => self.raw(frame.as_str()),
            UiMsg::Print(text) => text.clone(),
        }
    }
}

// ---------------------------------------------------------------------------
// Laws
// ---------------------------------------------------------------------------

/// A time of day has two digits in each place, whatever the time.
pub proof fn law_stamp_has_fixed_width(at: u128)
    ensures
        spec_stamp(at).len() == 9,
{
    reveal_strlit(":");
    reveal_strlit("Z");
    let secs = spec_seconds(at as int) % 86_400;
    reveal_with_fuel(spec_decimal, 3);
    assert(secs / 3600 < 24);
    assert(spec_decimal(secs / 3600).len() <= 2);
    assert(spec_decimal(secs / 60 % 60).len() <= 2);
    assert(spec_decimal(secs % 60).len() <= 2);
}

/// Without colors a line is the time, the marker and the station in their columns, then the text
/// and the details as they are.
pub proof fn law_plain_line_has_fixed_columns(
    marker: Seq<char>,
    style: Style,
    station: Seq<char>,
    body: Seq<char>,
    detail: Seq<char>,
    at: u128,
)
    requires
        marker.len() == 1,
        station.len() <= CALL_WIDTH,
        body.len() > 0,
    ensures
        ({
            let line = (UiView { color: false }).event(marker, style, station, body, detail, at);
            &&& line.take(9) == spec_stamp(at)
            &&& line[10] == marker[0]
            &&& line.subrange(12, 12 + station.len() as int) == station
            &&& line.subrange(BODY_INDENT as int, BODY_INDENT + body.len()) == body
            &&& detail.len() > 0 ==> line.subrange(line.len() - detail.len(), line.len() as int)
                == detail
        }),
{
    reveal_strlit(" ");
    reveal_strlit("  ");
    law_stamp_has_fixed_width(at);
    let line = (UiView { color: false }).event(marker, style, station, body, detail, at);
    assert(line.take(9) =~= spec_stamp(at));
    assert(line.subrange(12, 12 + station.len() as int) =~= station);
    assert(line.subrange(BODY_INDENT as int, BODY_INDENT + body.len()) =~= body);
    if detail.len() > 0 {
        assert(line.subrange(line.len() - detail.len(), line.len() as int) =~= detail);
    }
}

/// A time of day is shown in hours, minutes and seconds, two digits each.
pub proof fn law_stamp_shows_the_time_of_day(
    at: u128,
    days: int,
    hours: int,
    minutes: int,
    secs: int,
    rest: int,
)
    requires
        0 <= days && 0 <= hours < 24 && 0 <= minutes < 60 && 0 <= secs < 60,
        0 <= rest < 1_000_000_000,
        at == (days * 86_400 + hours * 3600 + minutes * 60 + secs) * 1_000_000_000 + rest,
    ensures
        spec_stamp(at) == spec_two_places(hours) + ":"@ + spec_two_places(minutes) + ":"@
            + spec_two_places(secs) + "Z"@,
{
    let whole = days * 86_400 + hours * 3600 + minutes * 60 + secs;
    assert((whole * 1_000_000_000 + rest) / 1_000_000_000 == whole);
    let day = hours * 3600 + minutes * 60 + secs;
    assert((days * 86_400 + day) % 86_400 == day);
    assert(day / 3600 == hours && day / 60 % 60 == minutes && day % 60 == secs);
    lemma_padded(hours as nat);
    lemma_padded(minutes as nat);
    lemma_padded(secs as nat);
}

/// Text in the color that `code` names, or as it is.
pub open spec fn spec_in_color(color: bool, code: Seq<char>, text: Seq<char>) -> Seq<char> {
    if color && text.len() > 0 {
        "\u{1b}["@ + code + "m"@ + text + "\u{1b}[0m"@
    } else {
        text
    }
}

/// A line: the time, the marker in its color, the station in bold, the text, and the details behind
/// two spaces.
pub open spec fn spec_line(
    color: bool,
    at: u128,
    marker: Seq<char>,
    code: Seq<char>,
    station: Seq<char>,
    body: Seq<char>,
    detail: Seq<char>,
) -> Seq<char> {
    spec_in_color(color, "2"@, spec_stamp(at)) + " "@ + spec_in_color(color, code, marker) + " "@
        + spec_in_color(color, "1"@, spec_pad_right(station, 9)) + (if body.len() > 0 {
        " "@ + body
    } else {
        Seq::empty()
    }) + (if detail.len() > 0 {
        "  "@ + spec_in_color(color, "2"@, detail)
    } else {
        Seq::empty()
    })
}

/// What is shown of each event.
pub proof fn law_lines_on_the_terminal(
    color: bool,
    figures: FiguresView,
    at: u128,
    a: Seq<char>,
    id: Seq<char>,
    text: Seq<char>,
    route: Seq<char>,
    packet: PacketView,
    n: u32,
    max: u32,
)
    ensures
        ({
            let ui = UiView { color };
            let line = |msg: UiMsgView| ui.apply(msg, figures, at);
            let count = spec_decimal(n as nat);
            let of = count + "/"@ + spec_decimal(max as nat);
            let number = "#"@ + id;
            let stamp = spec_in_color(color, "2"@, spec_stamp(at)) + " "@;
            let none = Seq::<char>::empty();
            &&& line(UiMsgView::Print(text)) == text
            &&& line(UiMsgView::Info(text)) == stamp + spec_in_color(color, "2"@, text)
            &&& line(UiMsgView::Error(text)) == stamp + spec_in_color(color, "1;31"@, text)
            &&& line(UiMsgView::Raw(text)) == spec_repeat(' ', 22) + spec_in_color(
                color,
                "2"@,
                text,
            )
            &&& line(UiMsgView::Sent { to: a, id, text, attempt: n, max }) == spec_line(
                color,
                at,
                "→"@,
                "1;36"@,
                a,
                number + (" "@ + text),
                "try "@ + count + "/"@ + spec_decimal(max as nat),
            )
            &&& line(UiMsgView::Retry { to: a, id, attempt: n, max }) == spec_line(
                color,
                at,
                "→"@,
                "1;36"@,
                a,
                number + none,
                "retry "@ + count + "/"@ + spec_decimal(max as nat),
            )
            &&& line(UiMsgView::Repeated { digi: a, id }) == spec_line(
                color,
                at,
                "↻"@,
                "1;34"@,
                a,
                "repeated your #"@ + id,
                none,
            )
            &&& line(UiMsgView::Delivered { from: a, id, tries: 1 }) == spec_line(
                color,
                at,
                "✓"@,
                "1;32"@,
                a,
                spec_in_color(color, "1;32"@, number + " delivered"@),
                "after "@ + spec_decimal(1) + " try"@,
            )
            &&& n != 1 ==> line(UiMsgView::Delivered { from: a, id, tries: n }) == spec_line(
                color,
                at,
                "✓"@,
                "1;32"@,
                a,
                spec_in_color(color, "1;32"@, number + " delivered"@),
                "after "@ + count + " tries"@,
            )
            &&& line(UiMsgView::Rejected { from: a, id }) == spec_line(
                color,
                at,
                "✗"@,
                "1;31"@,
                a,
                spec_in_color(color, "1;31"@, number + " rejected"@),
                none,
            )
            &&& line(UiMsgView::GaveUp { to: a, id, tries: n }) == spec_line(
                color,
                at,
                "✗"@,
                "1;31"@,
                a,
                spec_in_color(color, "1;31"@, number + " not delivered"@),
                "no ack after "@ + count + " tries"@,
            )
            &&& line(UiMsgView::Cancelled { to: a, id }) == spec_line(
                color,
                at,
                "✗"@,
                "2"@,
                a,
                number + " cancelled"@,
                "no more retries"@,
            )
            &&& line(UiMsgView::Incoming { from: a, text, id: Some(id), route }) == spec_line(
                color,
                at,
                "←"@,
                "1;33"@,
                a,
                spec_in_color(color, "33"@, text),
                number + (" "@ + route),
            )
            &&& line(UiMsgView::Incoming { from: a, text, id: None, route }) == spec_line(
                color,
                at,
                "←"@,
                "1;33"@,
                a,
                spec_in_color(color, "33"@, text),
                route,
            )
            &&& line(UiMsgView::Monitor { station: a, packet, route }) == spec_line(
                color,
                at,
                "·"@,
                "2"@,
                a,
                packet.describe(figures),
                route,
            )
        }),
{
}

} // verus!
