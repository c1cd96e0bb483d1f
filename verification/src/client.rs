//! Event-driven APRS messaging client shared by the CLI and the web UI.
//!
//! The client never touches the network: callers feed events and apply the
//! returned [`Action`]s (transmit an info field, show UI, quit).

use vstd::arithmetic::power2::{lemma2_to64, pow2};
use vstd::prelude::*;
use vstd::slice::slice_to_vec;

pub use crate::action::{Action, UiMsg};
use crate::action::{append_actions, none, one, push_action, spec_actions, ActionView, UiMsgView};
use crate::aprs::{
    clone_opt, format_ack, format_message, parse_message, spec_format_ack, spec_format_message,
    spec_opt, spec_parse_message, spec_unwrap, unwrap_third_party, Message, MessageView,
    MAX_THIRD_PARTY_DEPTH,
};
use crate::ax25::{spec_parse_address, spec_path, Address, AddressView};
use crate::clock::{now, seconds, since, spec_seconds, spec_since, MAX_TIME};
use crate::decode::{decode, printable, spec_decode, spec_printable};
use crate::digis::{spec_ranking_text, spec_record, DigiHeard, Digis};
use crate::encoding::{debug_text, spec_debug_text};
use crate::heard::{Heard, HeardView};
use crate::numeral::{decimal, join, spec_decimal, spec_join};
use crate::seen::{spec_ack_due, spec_is_new, spec_register, Seen, SeenTable};
pub use crate::seen::{ACK_HOLDOFF, SEEN_TTL};
use crate::split::{find_text, spec_find_text_from, spec_split_space, split_space};
use crate::text::{
    chars_of, is_text, same_ignoring_case, same_text, spec_same_ignoring_case, spec_strip_leading,
    spec_texts, spec_to_lower, spec_to_upper, spec_trim, string_of, strip_leading, to_lower,
    to_upper, trim,
};

verus! {

/// First retry after 30 s, then doubling up to 4 minutes.
pub const RETRY_BASE: u128 = 30_000_000_000;

pub const MAX_RETRY_SHIFT: u32 = 3;

pub const MAX_TRIES: u32 = 5;

/// Message ids count up to this number and start again at 1.
pub const MAX_ID: u32 = 99_999;

pub const COMMANDS: &'static str = "\
commands:
  msg CALL text   send a numbered message, retried until acknowledged
                  e.g.  msg EMAIL-2 friend@example.com Hello from the FTX-1
  pending         list messages still waiting for an ack
  cancel ID|all   stop retrying a message, e.g.  cancel 784
  mon             toggle decoded display of other stations' packets
  raw             toggle raw packet lines under each event (debugging)
  digis           list digipeaters heard repeating packets (radio only)
  quit            exit (Ctrl-D exits once pending messages are settled)

markers:  → sent   ↻ repeated by a digipeater   ✓ delivered   ✗ failed
          ← message for you   · other traffic (mon)";

// ---------------------------------------------------------------------------
// Configuration and state
// ---------------------------------------------------------------------------

#[derive(Clone, Debug)]
pub struct ClientConfig {
    pub call: Address,
    pub path: Vec<Address>,
    pub tocall: Address,
    pub monitor: bool,
    /// True when the link is Direwolf/KISS (digipeater tracking makes sense).
    pub radio: bool,
}

pub struct ClientConfigView {
    pub call: AddressView,
    pub path: Seq<AddressView>,
    pub tocall: AddressView,
    pub monitor: bool,
    pub radio: bool,
}

impl View for ClientConfig {
    type V = ClientConfigView;

    open spec fn view(&self) -> ClientConfigView {
        ClientConfigView {
            call: self.call@,
            path: spec_path(self.path@),
            tocall: self.tocall@,
            monitor: self.monitor,
            radio: self.radio,
        }
    }
}

struct Outgoing {
    to: String,
    id: String,
    info: Vec<u8>,
    tries: u32,
    next_at: u128,
    heard_via: Vec<String>,
}

/// A message that waits for its ack.
pub struct OutgoingView {
    pub to: Seq<char>,
    pub id: Seq<char>,
    pub info: Seq<u8>,
    pub tries: u32,
    pub next_at: u128,
    pub heard_via: Seq<Seq<char>>,
}

impl View for Outgoing {
    type V = OutgoingView;

    closed spec fn view(&self) -> OutgoingView {
        OutgoingView {
            to: self.to@,
            id: self.id@,
            info: self.info@,
            tries: self.tries,
            next_at: self.next_at,
            heard_via: spec_texts(self.heard_via@),
        }
    }
}

spec fn spec_pending(v: Seq<Outgoing>) -> Seq<OutgoingView> {
    Seq::new(v.len(), |i: int| v[i]@)
}

pub struct Client {
    cfg: ClientConfig,
    mycall: String,
    next_id: u32,
    pending: Vec<Outgoing>,
    seen: SeenTable,
    digis: Digis,
    monitor: bool,
    raw: bool,
}

#[verifier::ext_equal]
pub struct ClientView {
    pub call: AddressView,
    pub path: Seq<AddressView>,
    pub tocall: AddressView,
    pub radio: bool,
    pub next_id: u32,
    pub pending: Seq<OutgoingView>,
    pub seen: Map<(Seq<char>, Seq<char>), Seen>,
    pub digis: Map<Seq<char>, DigiHeard>,
    pub monitor: bool,
    pub raw: bool,
}

impl View for Client {
    type V = ClientView;

    closed spec fn view(&self) -> ClientView {
        ClientView {
            call: self.cfg.call@,
            path: spec_path(self.cfg.path@),
            tocall: self.cfg.tocall@,
            radio: self.cfg.radio,
            next_id: self.next_id,
            pending: spec_pending(self.pending@),
            seen: self.seen@,
            digis: self.digis@,
            monitor: self.monitor,
            raw: self.raw,
        }
    }
}

// ---------------------------------------------------------------------------
// Addressing
// ---------------------------------------------------------------------------

/// True when `addressee` is for the station `mine`: its own address, or any SSID of its call
/// where it has none.
pub open spec fn spec_addressed_to_me(mine: AddressView, addressee: Seq<char>) -> bool {
    ||| spec_same_ignoring_case(spec_trim(addressee), mine.text())
    ||| match spec_parse_address(spec_trim(addressee)) {
        Ok(other) => spec_same_ignoring_case(other.call, mine.call) && mine.ssid == 0,
        Err(_) => false,
    }
}

/// APRS-IS `g/` filter so the server delivers messages to our callsign.
pub open spec fn spec_message_group_filter(call: AddressView, extra: Seq<char>) -> Seq<char> {
    spec_trim(
        (if call.ssid == 0 {
            "g/"@ + call.call + "*"@
        } else {
            "g/"@ + call.text()
        }) + " "@ + extra,
    )
}

/// True when `addressee` is for our station.
///
/// With a bare callsign (`SA0KAM`, SSID 0), every SSID of that call matches
/// (`SA0KAM`, `SA0KAM-1` … `SA0KAM-15`), which is how APRS messaging works.
/// With an explicit SSID (`SA0KAM-1`), only that exact addressee matches.
pub fn addressed_to_me(mine: &Address, addressee: &str) -> (r: bool)
    ensures
        r == spec_addressed_to_me(mine@, addressee@),
{
    let chars = chars_of(addressee);
    let trimmed = trim(chars.as_slice());
    if same_ignoring_case(trimmed, chars_of(mine.to_string().as_str()).as_slice()) {
        return true;
    }
    match Address::parse(string_of(trimmed).as_str()) {
        Ok(other) => same_ignoring_case(
            chars_of(other.call.as_str()).as_slice(),
            chars_of(mine.call.as_str()).as_slice(),
        ) && mine.ssid == 0,
        Err(_) => false,
    }
}

/// APRS-IS `g/` filter so the server delivers messages to our callsign.
pub fn message_group_filter(call: &Address, extra: &str) -> (r: String)
    ensures
        r@ == spec_message_group_filter(call@, extra@),
{
    let mut group = String::from_str("g/");
    if call.ssid == 0 {
        group.append(call.call.as_str());
        group.append("*");
    } else {
        group.append(call.to_string().as_str());
    }
    group.append(" ");
    group.append(extra);
    let chars = chars_of(group.as_str());
    string_of(trim(chars.as_slice()))
}

pub open spec fn spec_on_off(flag: bool) -> Seq<char> {
    if flag {
        "on"@
    } else {
        "off"@
    }
}

fn on_off(flag: bool) -> (r: &'static str)
    ensures
        r@ == spec_on_off(flag),
{
    if flag {
        "on"
    } else {
        "off"
    }
}

// ---------------------------------------------------------------------------
// Behaviour
// ---------------------------------------------------------------------------

/// How long to wait for an ack after the given number of tries.
pub open spec fn spec_backoff(tries: int) -> int {
    RETRY_BASE * pow2(
        (if tries - 1 < MAX_RETRY_SHIFT {
            tries - 1
        } else {
            MAX_RETRY_SHIFT as int
        }) as nat,
    )
}

/// Index of the first message at or after `start` that was sent to `to` under `id`.
pub open spec fn spec_find_pending(
    pending: Seq<OutgoingView>,
    to: Seq<char>,
    id: Seq<char>,
    start: int,
) -> Option<int>
    decreases pending.len() - start,
{
    if start < 0 || start >= pending.len() {
        None
    } else if pending[start].id == id && spec_same_ignoring_case(pending[start].to, to) {
        Some(start)
    } else {
        spec_find_pending(pending, to, id, start + 1)
    }
}

/// Index of the first message at or after `start` that was sent under `id`.
pub open spec fn spec_find_id(pending: Seq<OutgoingView>, id: Seq<char>, start: int) -> Option<int>
    decreases pending.len() - start,
{
    if start < 0 || start >= pending.len() {
        None
    } else if pending[start].id == id {
        Some(start)
    } else {
        spec_find_id(pending, id, start + 1)
    }
}

/// What becomes of one waiting message when timers run: nothing before its time, another try
/// while there are tries left, else it is given up.
pub open spec fn spec_poll_one(m: OutgoingView, now: u128) -> Option<OutgoingView> {
    if m.next_at > now {
        Some(m)
    } else if m.tries >= MAX_TRIES {
        None
    } else {
        Some(
            OutgoingView {
                tries: (m.tries + 1) as u32,
                next_at: (now + spec_backoff(m.tries + 1)) as u128,
                ..m
            },
        )
    }
}

pub open spec fn spec_poll_one_actions(m: OutgoingView, now: u128) -> Seq<ActionView> {
    if m.next_at > now {
        Seq::empty()
    } else if m.tries >= MAX_TRIES {
        seq![ActionView::Ui(UiMsgView::GaveUp { to: m.to, id: m.id, tries: m.tries })]
    } else {
        seq![
            ActionView::Send(m.info),
            ActionView::Ui(
                UiMsgView::Retry {
                    to: m.to,
                    id: m.id,
                    attempt: (m.tries + 1) as u32,
                    max: MAX_TRIES,
                },
            ),
        ]
    }
}

/// What is left of the first `n` waiting messages when timers run.
pub open spec fn spec_polled(pending: Seq<OutgoingView>, n: int, now: u128) -> Seq<OutgoingView>
    decreases n,
{
    if n <= 0 {
        Seq::empty()
    } else {
        match spec_poll_one(pending[n - 1], now) {
            Some(m) => spec_polled(pending, n - 1, now).push(m),
            None => spec_polled(pending, n - 1, now),
        }
    }
}

pub open spec fn spec_poll_actions(pending: Seq<OutgoingView>, n: int, now: u128) -> Seq<ActionView>
    decreases n,
{
    if n <= 0 {
        Seq::empty()
    } else {
        spec_poll_actions(pending, n - 1, now) + spec_poll_one_actions(pending[n - 1], now)
    }
}

/// The first `n` waiting messages without those under the id `which`, or without any.
pub open spec fn spec_kept(
    pending: Seq<OutgoingView>,
    n: int,
    all: bool,
    which: Seq<char>,
) -> Seq<OutgoingView>
    decreases n,
{
    if n <= 0 {
        Seq::empty()
    } else if all || pending[n - 1].id == which {
        spec_kept(pending, n - 1, all, which)
    } else {
        spec_kept(pending, n - 1, all, which).push(pending[n - 1])
    }
}

pub open spec fn spec_cancelled(
    pending: Seq<OutgoingView>,
    n: int,
    all: bool,
    which: Seq<char>,
) -> Seq<ActionView>
    decreases n,
{
    if n <= 0 {
        Seq::empty()
    } else if all || pending[n - 1].id == which {
        spec_cancelled(pending, n - 1, all, which).push(
            ActionView::Ui(
                UiMsgView::Cancelled { to: pending[n - 1].to, id: pending[n - 1].id },
            ),
        )
    } else {
        spec_cancelled(pending, n - 1, all, which)
    }
}

/// The earliest time at which one of the first `n` waiting messages is due.
pub open spec fn spec_next_deadline(pending: Seq<OutgoingView>, n: int) -> Option<u128>
    decreases n,
{
    if n <= 0 {
        None
    } else {
        match spec_next_deadline(pending, n - 1) {
            Some(t) => if t <= pending[n - 1].next_at {
                Some(t)
            } else {
                Some(pending[n - 1].next_at)
            },
            None => Some(pending[n - 1].next_at),
        }
    }
}

/// `  #7 to SM0YOS-1: try 1/5, next in 30 s`
pub open spec fn spec_pending_line(m: OutgoingView, now: u128) -> Seq<char> {
    "  #"@ + m.id + " to "@ + m.to + ": try "@ + spec_decimal(m.tries as nat) + "/"@ + spec_decimal(
        MAX_TRIES as nat,
    ) + ", next in "@ + spec_decimal(spec_seconds(spec_since(m.next_at, now))) + " s"@
}

pub open spec fn spec_pending_lines(pending: Seq<OutgoingView>, now: u128) -> Seq<Seq<char>> {
    Seq::new(pending.len(), |i: int| spec_pending_line(pending[i], now))
}

/// A command line as its first word and the rest.
pub open spec fn spec_command(line: Seq<char>) -> (Seq<char>, Seq<char>) {
    let line = spec_trim(line);
    match spec_split_space(line) {
        Some((command, rest)) => (command, spec_trim(rest)),
        None => (line, Seq::empty()),
    }
}

pub open spec fn spec_print(text: Seq<char>) -> Seq<ActionView> {
    seq![ActionView::Ui(UiMsgView::Print(text))]
}

pub open spec fn spec_info(text: Seq<char>) -> Seq<ActionView> {
    seq![ActionView::Ui(UiMsgView::Info(text))]
}

pub open spec fn spec_error(text: Seq<char>) -> Seq<ActionView> {
    seq![ActionView::Ui(UiMsgView::Error(text))]
}

/// The client at the start.
pub open spec fn spec_new_client(cfg: ClientConfigView, now: u128) -> ClientView {
    ClientView {
        call: cfg.call,
        path: cfg.path,
        tocall: cfg.tocall,
        radio: cfg.radio,
        next_id: (spec_seconds(now as int) % 1000 + 1) as u32,
        pending: Seq::empty(),
        seen: Map::empty(),
        digis: Map::empty(),
        monitor: cfg.monitor,
        raw: false,
    }
}

impl ClientView {
    /// Ids have at most five digits, and each waiting message was sent between one and
    /// [`MAX_TRIES`] times.
    pub open spec fn valid(self) -> bool {
        &&& 1 <= self.next_id <= MAX_ID
        &&& forall|i: int|
            0 <= i < self.pending.len() ==> 1 <= (#[trigger] self.pending[i]).tries <= MAX_TRIES
    }

    pub open spec fn mycall(self) -> Seq<char> {
        self.call.text()
    }

    // ---- outgoing ---------------------------------------------------------

    pub open spec fn send_message(self, to: Seq<char>, text: Seq<char>, now: u128) -> (
        ClientView,
        Seq<ActionView>,
    ) {
        let to = spec_to_upper(to);
        let id = spec_decimal(self.next_id as nat);
        let next = ClientView { next_id: (self.next_id % MAX_ID + 1) as u32, ..self };
        match spec_format_message(to, text, id) {
            Ok(info) => (
                ClientView {
                    pending: self.pending.push(
                        OutgoingView {
                            to,
                            id,
                            info,
                            tries: 1,
                            next_at: (now + RETRY_BASE) as u128,
                            heard_via: Seq::empty(),
                        },
                    ),
                    ..next
                },
                seq![
                    ActionView::Send(info),
                    ActionView::Ui(
                        UiMsgView::Sent { to, id, text, attempt: 1, max: MAX_TRIES },
                    ),
                ],
            ),
            Err(e) => (next, spec_error("not sent: "@ + e)),
        }
    }

    pub open spec fn poll(self, now: u128) -> (ClientView, Seq<ActionView>) {
        let n = self.pending.len() as int;
        (
            ClientView { pending: spec_polled(self.pending, n, now), ..self },
            spec_poll_actions(self.pending, n, now),
        )
    }

    pub open spec fn next_deadline(self) -> Option<u128> {
        spec_next_deadline(self.pending, self.pending.len() as int)
    }

    pub open spec fn time_until_deadline(self, now: u128) -> Option<u128> {
        match self.next_deadline() {
            Some(t) => Some(spec_since(t, now) as u128),
            None => None,
        }
    }

    // ---- acks and echoes --------------------------------------------------

    pub open spec fn on_ack(self, from: Seq<char>, id: Seq<char>) -> (
        ClientView,
        Seq<ActionView>,
    ) {
        match spec_find_pending(self.pending, from, id, 0) {
            Some(i) => (
                ClientView { pending: self.pending.remove(i), ..self },
                seq![
                    ActionView::Ui(
                        UiMsgView::Delivered { from, id, tries: self.pending[i].tries },
                    ),
                ],
            ),
            None => (self, Seq::empty()),
        }
    }

    pub open spec fn on_rej(self, from: Seq<char>, id: Seq<char>) -> (
        ClientView,
        Seq<ActionView>,
    ) {
        match spec_find_pending(self.pending, from, id, 0) {
            Some(i) => (
                ClientView { pending: self.pending.remove(i), ..self },
                seq![ActionView::Ui(UiMsgView::Rejected { from, id })],
            ),
            None => (self, Seq::empty()),
        }
    }

    /// The message under `id` was repeated by `digi`, which is told once.
    pub open spec fn on_repeat(self, digi: Seq<char>, id: Seq<char>) -> (
        ClientView,
        Seq<ActionView>,
    ) {
        match spec_find_id(self.pending, id, 0) {
            Some(i) => if self.pending[i].heard_via.contains(digi) {
                (self, Seq::empty())
            } else {
                (
                    ClientView {
                        pending: self.pending.update(
                            i,
                            OutgoingView {
                                heard_via: self.pending[i].heard_via.push(digi),
                                ..self.pending[i]
                            },
                        ),
                        ..self
                    },
                    seq![ActionView::Ui(UiMsgView::Repeated { digi, id })],
                )
            },
            None => (self, Seq::empty()),
        }
    }

    pub open spec fn on_own_echo(self, heard: HeardView, info: Seq<u8>) -> (
        ClientView,
        Seq<ActionView>,
    ) {
        match (heard.repeated_by(), spec_parse_message(info)) {
            (Some(digi), Some(MessageView::Text { id: Some(id), .. })) => self.on_repeat(digi, id),
            _ => (self, Seq::empty()),
        }
    }

    // ---- incoming ---------------------------------------------------------

    /// A text for us. A numbered one is shown when it is new and acknowledged when that is due.
    pub open spec fn on_text(
        self,
        from: Seq<char>,
        text: Seq<char>,
        id: Option<Seq<char>>,
        route: Seq<char>,
        now: u128,
    ) -> (ClientView, Seq<ActionView>) {
        match id {
            Some(id) => {
                let key = (spec_to_upper(from), id);
                (
                    ClientView { seen: spec_register(self.seen, key, now), ..self },
                    (if spec_is_new(self.seen, key, now) {
                        seq![
                            ActionView::Ui(
                                UiMsgView::Incoming { from, text, id: Some(id), route },
                            ),
                        ]
                    } else {
                        Seq::empty()
                    }) + (if spec_ack_due(self.seen, key, now) {
                        match spec_format_ack(from, id) {
                            Ok(ack) => seq![ActionView::Send(ack)],
                            Err(e) => spec_error("cannot ack "@ + from + ": "@ + e),
                        }
                    } else {
                        Seq::empty()
                    }),
                )
            },
            None => (
                self,
                seq![ActionView::Ui(UiMsgView::Incoming { from, text, id: None, route })],
            ),
        }
    }

    pub open spec fn raw_line(self, heard: HeardView) -> Seq<ActionView> {
        if self.raw {
            seq![
                ActionView::Ui(
                    UiMsgView::Raw(heard.header() + ":"@ + spec_printable(heard.info)),
                ),
            ]
        } else {
            Seq::empty()
        }
    }

    /// The digipeater that repeated a packet on the radio is counted.
    pub open spec fn with_digi(self, heard: HeardView, now: u128) -> ClientView {
        match heard.repeated_by() {
            Some(digi) => if heard.from_internet {
                self
            } else {
                ClientView { digis: spec_record(self.digis, digi, now), ..self }
            },
            None => self,
        }
    }

    /// A packet that is not for us.
    pub open spec fn on_other(self, heard: HeardView, source: Seq<char>) -> (
        ClientView,
        Seq<ActionView>,
    ) {
        (
            self,
            if self.monitor {
                seq![
                    ActionView::Ui(
                        UiMsgView::Monitor {
                            station: source,
                            packet: spec_decode(heard.dest_call(), heard.info).innermost(),
                            route: heard.route(),
                        },
                    ),
                ]
            } else {
                Seq::empty()
            },
        )
    }

    /// A packet of another station, taken out of its third-party wrappers.
    pub open spec fn on_packet(
        self,
        heard: HeardView,
        source: Seq<char>,
        info: Seq<u8>,
        now: u128,
    ) -> (ClientView, Seq<ActionView>) {
        match spec_parse_message(info) {
            Some(MessageView::Ack { to, id }) => if spec_addressed_to_me(self.call, to) {
                self.on_ack(source, id)
            } else {
                self.on_other(heard, source)
            },
            Some(MessageView::Rej { to, id }) => if spec_addressed_to_me(self.call, to) {
                self.on_rej(source, id)
            } else {
                self.on_other(heard, source)
            },
            Some(MessageView::Text { to, text, id, reply_ack }) => if spec_addressed_to_me(
                self.call,
                to,
            ) {
                let (acked, first) = match reply_ack {
                    Some(acked_id) => self.on_ack(source, acked_id),
                    None => (self, Seq::empty()),
                };
                let (after, second) = acked.on_text(source, text, id, heard.route(), now);
                (after, first + second)
            } else {
                self.on_other(heard, source)
            },
            None => self.on_other(heard, source),
        }
    }

    pub open spec fn on_heard(self, heard: HeardView, now: u128) -> (ClientView, Seq<ActionView>) {
        let (source, info) = spec_unwrap(
            heard.source,
            heard.info,
            MAX_THIRD_PARTY_DEPTH as int,
        );
        let counted = self.with_digi(heard, now);
        let (after, actions) = if spec_same_ignoring_case(source, self.mycall()) {
            counted.on_own_echo(heard, info)
        } else {
            counted.on_packet(heard, source, info, now)
        };
        (after, self.raw_line(heard) + actions)
    }

    pub open spec fn on_notice(self, notice: Seq<char>) -> Seq<ActionView> {
        if spec_find_text_from(notice, "unverified"@, 0) is Some {
            spec_error(notice + " — wrong passcode? packets you send will be dropped"@)
        } else {
            spec_info(notice)
        }
    }

    // ---- commands ---------------------------------------------------------

    pub open spec fn cancel(self, which: Seq<char>) -> (ClientView, Seq<ActionView>) {
        let which = spec_strip_leading(spec_trim(which), '#');
        let all = spec_same_ignoring_case(which, "all"@);
        let n = self.pending.len() as int;
        if which.len() == 0 {
            (self, spec_print("usage: cancel ID | cancel all"@))
        } else {
            (
                ClientView { pending: spec_kept(self.pending, n, all, which), ..self },
                if spec_cancelled(self.pending, n, all, which).len() == 0 {
                    spec_print(
                        "no pending message #"@ + which + "; type pending to list them"@,
                    )
                } else {
                    spec_cancelled(self.pending, n, all, which)
                },
            )
        }
    }

    pub open spec fn digis_text(self, now: u128) -> Seq<char> {
        if !self.radio {
            "digipeaters are only tracked on the radio link"@
        } else if self.digis == Map::<Seq<char>, DigiHeard>::empty() {
            "no digipeaters heard yet (only stations heard directly)"@
        } else {
            spec_ranking_text(self.digis, now)
        }
    }

    pub open spec fn pending_text(self, now: u128) -> Seq<char> {
        if self.pending.len() == 0 {
            "no messages waiting for an ack"@
        } else {
            spec_join(spec_pending_lines(self.pending, now), "\n"@)
        }
    }

    /// `msg CALL text`
    pub open spec fn on_msg(self, rest: Seq<char>, now: u128) -> (ClientView, Seq<ActionView>) {
        match spec_split_space(rest) {
            Some((to, text)) => if spec_trim(text).len() > 0 {
                self.send_message(to, spec_trim(text), now)
            } else {
                (self, spec_print("usage: msg CALL text"@))
            },
            None => (self, spec_print("usage: msg CALL text"@)),
        }
    }

    pub open spec fn on_command(self, line: Seq<char>, now: u128) -> (
        ClientView,
        Seq<ActionView>,
    ) {
        let (command, rest) = spec_command(line);
        let word = spec_to_lower(command);
        if word == ""@ {
            (self, Seq::empty())
        } else if word == "m"@ || word == "msg"@ {
            self.on_msg(rest, now)
        } else if word == "p"@ || word == "pending"@ {
            (self, spec_print(self.pending_text(now)))
        } else if word == "cancel"@ {
            self.cancel(rest)
        } else if word == "d"@ || word == "digis"@ {
            (self, spec_print(self.digis_text(now)))
        } else if word == "mon"@ {
            (
                ClientView { monitor: !self.monitor, ..self },
                spec_info("monitor "@ + spec_on_off(!self.monitor)),
            )
        } else if word == "raw"@ {
            (
                ClientView { raw: !self.raw, ..self },
                spec_info("raw packets "@ + spec_on_off(!self.raw)),
            )
        } else if word == "h"@ || word == "help"@ || word == "?"@ {
            (self, spec_print(COMMANDS@))
        } else if word == "q"@ || word == "quit"@ || word == "exit"@ {
            (self, seq![ActionView::Quit])
        } else {
            (
                self,
                spec_print("unknown command "@ + spec_debug_text(word) + "; type help"@),
            )
        }
    }
}

/// How long to wait for an ack after the given number of tries.
fn backoff(tries: u32) -> (r: u128)
    requires
        tries >= 1,
    ensures
        r == spec_backoff(tries as int),
        r <= 8 * RETRY_BASE,
{
    proof {
        lemma2_to64();
    }
    if tries == 1 {
        RETRY_BASE
    } else if tries == 2 {
        RETRY_BASE * 2
    } else if tries == 3 {
        RETRY_BASE * 4
    } else {
        RETRY_BASE * 8
    }
}

fn pending_line(m: &Outgoing, now: u128) -> (r: String)
    ensures
        r@ == spec_pending_line(m@, now),
{
    let mut out = String::from_str("  #");
    out.append(m.id.as_str());
    out.append(" to ");
    out.append(m.to.as_str());
    out.append(": try ");
    out.append(decimal(m.tries as u128).as_str());
    out.append("/");
    out.append(decimal(MAX_TRIES as u128).as_str());
    out.append(", next in ");
    out.append(decimal(seconds(since(m.next_at, now))).as_str());
    out.append(" s");
    out
}

fn contains_text(list: &Vec<String>, text: &str) -> (r: bool)
    ensures
        r == spec_texts(list@).contains(text@),
{
    let ghost texts = spec_texts(list@);
    for i in 0..list.len()
        invariant
            texts == spec_texts(list@),
            forall|j: int| 0 <= j < i ==> #[trigger] texts[j] != text@,
    {
        assert(texts[i as int] == list@[i as int]@);
        if same_text(list[i].as_str(), text) {
            return true;
        }
    }
    false
}

fn print_text(text: &str) -> (r: Vec<Action>)
    ensures
        spec_actions(r@) == spec_print(text@),
{
    one(Action::Ui(UiMsg::Print(String::from_str(text))))
}

fn copy_bytes(bytes: &Vec<u8>) -> (r: Vec<u8>)
    ensures
        r@ == bytes@,
{
    slice_to_vec(bytes.as_slice())
}

impl Client {
    /// The parts fit together and the state is valid.
    pub closed spec fn wf(self) -> bool {
        &&& self.seen.wf()
        &&& self.digis.wf()
        &&& self.mycall@ == self.cfg.call@.text()
        &&& self@.valid()
    }

    /// A client that was made and used through its functions is in a valid state: its ids have at
    /// most five digits, and no message was sent more often than [`MAX_TRIES`] times.
    pub proof fn law_client_is_valid(self)
        requires
            self.wf(),
        ensures
            self@.valid(),
    {
    }

    /// Reads the system's clock. A browser build, where the standard library has none, calls
    /// [`Client::new_at`] with the browser's time.
    pub fn new(cfg: ClientConfig) -> (r: Client)
        ensures
            r.wf(),
            exists|now: u128| now <= MAX_TIME && r@ == #[trigger] spec_new_client(cfg@, now),
    {
        Self::new_at(cfg, now())
    }

    /// As [`Client::new`], with the time given. Ids start from the clock so that a restart does
    /// not reuse recent ids.
    pub fn new_at(cfg: ClientConfig, now: u128) -> (r: Client)
        ensures
            r.wf(),
            r@ == spec_new_client(cfg@, now),
    {
        let next_id: u32 = (seconds(now) % 1000) as u32 + 1;
        let mycall = cfg.call.to_string();
        let monitor: bool = cfg.monitor;
        let r = Client {
            cfg,
            mycall,
            next_id,
            pending: Vec::new(),
            seen: SeenTable::new(),
            digis: Digis::new(),
            monitor,
            raw: false,
        };
        assert(r@.pending =~= Seq::<OutgoingView>::empty());
        r
    }

    pub fn call(&self) -> (r: &Address)
        ensures
            r@ == self@.call,
    {
        &self.cfg.call
    }

    pub fn tocall(&self) -> (r: &Address)
        ensures
            r@ == self@.tocall,
    {
        &self.cfg.tocall
    }

    pub fn path(&self) -> (r: &[Address])
        ensures
            spec_path(r@) == self@.path,
    {
        self.cfg.path.as_slice()
    }

    pub fn is_radio(&self) -> (r: bool)
        ensures
            r == self@.radio,
    {
        self.cfg.radio
    }

    pub fn pending_count(&self) -> (r: usize)
        ensures
            r == self@.pending.len(),
    {
        self.pending.len()
    }

    fn set_monitor(&mut self, monitor: bool)
        requires
            old(self).wf(),
        ensures
            final(self).wf(),
            final(self)@ == (ClientView { monitor, ..old(self)@ }),
    {
        self.monitor = monitor;
    }

    /// Shows raw packet lines, or stops showing them.
    pub fn set_raw(&mut self, raw: bool)
        requires
            old(self).wf(),
        ensures
            final(self).wf(),
            final(self)@ == (ClientView { raw, ..old(self)@ }),
    {
        self.raw = raw;
    }

    pub fn next_deadline(&self) -> (r: Option<u128>)
        ensures
            r == self@.next_deadline(),
    {
        let mut least: Option<u128> = None;
        for i in 0..self.pending.len()
            invariant
                least == spec_next_deadline(self@.pending, i as int),
        {
            let at: u128 = self.pending[i].next_at;
            assert(self@.pending[i as int] == self.pending@[i as int]@);
            least = match least {
                Some(t) => if t <= at {
                    Some(t)
                } else {
                    Some(at)
                },
                None => Some(at),
            };
        }
        least
    }

    /// How long until [`Self::poll`] should run again.
    ///
    /// Reads the system's clock. A browser build, where the standard library has none, calls
    /// [`Client::time_until_deadline_at`] with the browser's time.
    pub fn time_until_deadline(&self) -> (r: Option<u128>)
        ensures
            exists|now: u128| now <= MAX_TIME && r == #[trigger] self@.time_until_deadline(now),
    {
        self.time_until_deadline_at(now())
    }

    pub fn time_until_deadline_at(&self, now: u128) -> (r: Option<u128>)
        ensures
            r == self@.time_until_deadline(now),
    {
        match self.next_deadline() {
            Some(at) => Some(since(at, now)),
            None => None,
        }
    }

    /// Reads the system's clock. A browser build, where the standard library has none, calls
    /// [`Client::on_heard_at`] with the browser's time.
    pub fn on_heard(&mut self, heard: Heard) -> (r: Vec<Action>)
        requires
            old(self).wf(),
        ensures
            final(self).wf(),
            exists|now: u128|
                now <= MAX_TIME && (final(self)@, spec_actions(r@)) == #[trigger] old(
                    self,
                )@.on_heard(heard@, now),
    {
        let at: u128 = now();
        self.on_heard_at(heard, at)
    }

    /// As [`Client::on_heard`], with the time given.
    pub fn on_heard_at(&mut self, heard: Heard, now: u128) -> (r: Vec<Action>)
        requires
            old(self).wf(),
        ensures
            final(self).wf(),
            (final(self)@, spec_actions(r@)) == old(self)@.on_heard(heard@, now),
    {
        let mut out: Vec<Action> = none();
        if self.raw {
            let mut line = heard.header();
            line.append(":");
            line.append(printable(heard.info.as_slice()).as_str());
            push_action(&mut out, Action::Ui(UiMsg::Raw(line)));
        }
        assert(spec_actions(out@) =~= old(self)@.raw_line(heard@));
        if !heard.from_internet {
            if let Some(digi) = heard.repeated_by() {
                self.digis.record(digi, now);
            }
        }
        assert(self@ =~= old(self)@.with_digi(heard@, now));
        let (source, info) = unwrap_third_party(heard.source.as_str(), heard.info.as_slice());
        let own: bool = same_ignoring_case(
            chars_of(source.as_str()).as_slice(),
            chars_of(self.mycall.as_str()).as_slice(),
        );
        let actions = if own {
            self.on_own_echo(&heard, &info)
        } else {
            self.on_packet(&heard, source, &info, now)
        };
        append_actions(&mut out, actions);
        out
    }

    fn on_packet(&mut self, heard: &Heard, source: String, info: &Vec<u8>, now: u128) -> (r: Vec<
        Action,
    >)
        requires
            old(self).wf(),
        ensures
            final(self).wf(),
            (final(self)@, spec_actions(r@)) == old(self)@.on_packet(heard@, source@, info@, now),
    {
        match parse_message(info.as_slice()) {
            Some(Message::Ack { to, id }) => if self.is_me(to.as_str()) {
                self.on_ack(source.as_str(), id.as_str())
            } else {
                self.on_other(heard, source)
            },
            Some(Message::Rej { to, id }) => if self.is_me(to.as_str()) {
                self.on_rej(source.as_str(), id.as_str())
            } else {
                self.on_other(heard, source)
            },
            Some(Message::Text { to, text, id, reply_ack }) => if self.is_me(to.as_str()) {
                let mut out: Vec<Action> = match reply_ack {
                    Some(acked_id) => self.on_ack(source.as_str(), acked_id.as_str()),
                    None => none(),
                };
                let route = heard.route();
                let more = self.on_text(source.as_str(), text.as_str(), &id, route.as_str(), now);
                append_actions(&mut out, more);
                out
            } else {
                self.on_other(heard, source)
            },
            None => self.on_other(heard, source),
        }
    }

    /// A packet that is not for us.
    fn on_other(&self, heard: &Heard, source: String) -> (r: Vec<Action>)
        ensures
            (self@, spec_actions(r@)) == self@.on_other(heard@, source@),
    {
        if self.monitor {
            let packet = decode(heard.dest_call().as_str(), heard.info.as_slice()).innermost();
            one(Action::Ui(UiMsg::Monitor { station: source, packet, route: heard.route() }))
        } else {
            none()
        }
    }

    pub fn on_notice(&mut self, notice: &str) -> (r: Vec<Action>)
        requires
            old(self).wf(),
        ensures
            final(self).wf(),
            final(self)@ == old(self)@,
            spec_actions(r@) == old(self)@.on_notice(notice@),
    {
        if find_text(chars_of(notice).as_slice(), "unverified").is_some() {
            let mut text = String::from_str(notice);
            text.append(" — wrong passcode? packets you send will be dropped");
            one(Action::Ui(UiMsg::Error(text)))
        } else {
            one(Action::Ui(UiMsg::Info(String::from_str(notice))))
        }
    }

    /// A request to quit comes back as [`Action::Quit`].
    ///
    /// Reads the system's clock. A browser build, where the standard library has none, calls
    /// [`Client::on_command_at`] with the browser's time.
    pub fn on_command(&mut self, line: &str) -> (r: Vec<Action>)
        requires
            old(self).wf(),
        ensures
            final(self).wf(),
            exists|now: u128|
                now <= MAX_TIME && (final(self)@, spec_actions(r@)) == #[trigger] old(
                    self,
                )@.on_command(line@, now),
    {
        let at: u128 = now();
        self.on_command_at(line, at)
    }

    /// As [`Client::on_command`], with the time given.
    pub fn on_command_at(&mut self, line: &str, now: u128) -> (r: Vec<Action>)
        requires
            old(self).wf(),
            now <= MAX_TIME,
        ensures
            final(self).wf(),
            (final(self)@, spec_actions(r@)) == old(self)@.on_command(line@, now),
    {
        let chars = chars_of(line);
        let trimmed = trim(chars.as_slice());
        let empty: Vec<char> = Vec::new();
        assert(empty@ =~= Seq::<char>::empty());
        let (command, rest): (&[char], &[char]) = match split_space(trimmed) {
            Some((command, rest)) => (command, trim(rest)),
            None => (trimmed, empty.as_slice()),
        };
        assert((command@, rest@) == spec_command(line@));
        let lower = to_lower(command);
        let word = lower.as_slice();
        if is_text(word, "") {
            none()
        } else if is_text(word, "m") || is_text(word, "msg") {
            self.on_msg(rest, now)
        } else if is_text(word, "p") || is_text(word, "pending") {
            one(Action::Ui(UiMsg::Print(self.pending_text(now))))
        } else if is_text(word, "cancel") {
            self.cancel(rest)
        } else if is_text(word, "d") || is_text(word, "digis") {
            one(Action::Ui(UiMsg::Print(self.digis_text(now))))
        } else if is_text(word, "mon") {
            let monitor: bool = !self.monitor;
            self.set_monitor(monitor);
            let mut text = String::from_str("monitor ");
            text.append(on_off(monitor));
            one(Action::Ui(UiMsg::Info(text)))
        } else if is_text(word, "raw") {
            let raw: bool = !self.raw;
            self.set_raw(raw);
            let mut text = String::from_str("raw packets ");
            text.append(on_off(raw));
            one(Action::Ui(UiMsg::Info(text)))
        } else if is_text(word, "h") || is_text(word, "help") || is_text(word, "?") {
            print_text(COMMANDS)
        } else if is_text(word, "q") || is_text(word, "quit") || is_text(word, "exit") {
            one(Action::Quit)
        } else {
            let mut text = String::from_str("unknown command ");
            text.append(debug_text(string_of(word).as_str()).as_str());
            text.append("; type help");
            one(Action::Ui(UiMsg::Print(text)))
        }
    }

    fn on_msg(&mut self, rest: &[char], now: u128) -> (r: Vec<Action>)
        requires
            old(self).wf(),
            now <= MAX_TIME,
        ensures
            final(self).wf(),
            (final(self)@, spec_actions(r@)) == old(self)@.on_msg(rest@, now),
    {
        if let Some((to, text)) = split_space(rest) {
            let text = trim(text);
            if text.len() > 0 {
                return self.send_message(to, string_of(text), now);
            }
        }
        print_text("usage: msg CALL text")
    }

    /// Reads the system's clock. A browser build, where the standard library has none, calls
    /// [`Client::poll_at`] with the browser's time.
    pub fn poll(&mut self) -> (r: Vec<Action>)
        requires
            old(self).wf(),
        ensures
            final(self).wf(),
            exists|now: u128|
                now <= MAX_TIME && (final(self)@, spec_actions(r@)) == #[trigger] old(
                    self,
                )@.poll(now),
    {
        let at: u128 = now();
        self.poll_at(at)
    }

    /// Runs the retry timers at the given time.
    pub fn poll_at(&mut self, now: u128) -> (r: Vec<Action>)
        requires
            old(self).wf(),
            now <= MAX_TIME,
        ensures
            final(self).wf(),
            (final(self)@, spec_actions(r@)) == old(self)@.poll(now),
    {
        let ghost all = self@.pending;
        let ghost mut n: int = 0;
        let mut out: Vec<Action> = none();
        let mut i: usize = 0;
        assert(all =~= spec_polled(all, 0, now) + all.skip(0));
        while i < self.pending.len()
            invariant
                now <= MAX_TIME,
                0 <= n <= all.len(),
                all == old(self)@.pending,
                old(self).wf(),
                self.seen == old(self).seen,
                self.digis == old(self).digis,
                self.mycall == old(self).mycall,
                self.cfg == old(self).cfg,
                self.next_id == old(self).next_id,
                self.monitor == old(self).monitor,
                self.raw == old(self).raw,
                i == spec_polled(all, n, now).len(),
                spec_pending(self.pending@) == spec_polled(all, n, now) + all.skip(n),
                spec_actions(out@) == spec_poll_actions(all, n, now),
            decreases all.len() - n,
        {
            let ghost before = self.pending@;
            let ghost done = spec_polled(all, n, now);
            assert(spec_pending(before)[i as int] == all[n]);
            assert(1 <= all[n].tries <= MAX_TRIES);
            if self.pending[i].next_at > now {
                i += 1;
                assert(spec_actions(out@) =~= spec_poll_actions(all, n + 1, now));
                assert(spec_pending(self.pending@) =~= spec_polled(all, n + 1, now) + all.skip(
                    n + 1,
                ));
            } else if self.pending[i].tries >= MAX_TRIES {
                let gave_up = self.pending.remove(i);
                push_action(
                    &mut out,
                    Action::Ui(
                        UiMsg::GaveUp { to: gave_up.to, id: gave_up.id, tries: gave_up.tries },
                    ),
                );
                assert(spec_actions(out@) =~= spec_poll_actions(all, n + 1, now));
                assert(spec_pending(self.pending@) =~= spec_pending(before).remove(i as int));
                assert(spec_pending(self.pending@) =~= done + all.skip(n + 1));
            } else {
                push_action(&mut out, Action::Send(copy_bytes(&self.pending[i].info)));
                let tries: u32 = self.pending[i].tries + 1;
                self.pending[i].tries = tries;
                self.pending[i].next_at = now + backoff(tries);
                push_action(
                    &mut out,
                    Action::Ui(
                        UiMsg::Retry {
                            to: self.pending[i].to.clone(),
                            id: self.pending[i].id.clone(),
                            attempt: tries,
                            max: MAX_TRIES,
                        },
                    ),
                );
                assert(spec_actions(out@) =~= spec_poll_actions(all, n + 1, now));
                assert(spec_pending(self.pending@) =~= spec_pending(before).update(
                    i as int,
                    self.pending@[i as int]@,
                ));
                assert(spec_poll_one(all[n], now) == Some(self.pending@[i as int]@));
                assert(spec_pending(self.pending@) =~= spec_polled(all, n + 1, now) + all.skip(
                    n + 1,
                ));
                i += 1;
            }
            proof {
                n = n + 1;
            }
        }
        proof {
            assert(all.skip(n).len() == 0);
            assert(self@.pending =~= spec_polled(all, all.len() as int, now));
            lemma_polled_tries(all, all.len() as int, now);
        }
        out
    }

    fn send_message(&mut self, to: &[char], text: String, now: u128) -> (r: Vec<Action>)
        requires
            old(self).wf(),
            now <= MAX_TIME,
        ensures
            final(self).wf(),
            (final(self)@, spec_actions(r@)) == old(self)@.send_message(to@, text@, now),
    {
        let to = string_of(to_upper(to).as_slice());
        let id = self.take_id();
        let info: Vec<u8> = match format_message(to.as_str(), text.as_str(), id.as_str()) {
            Ok(info) => info,
            Err(e) => {
                let mut message = String::from_str("not sent: ");
                message.append(e.as_str());
                return one(Action::Ui(UiMsg::Error(message)));
            },
        };
        let ghost before = self.pending@;
        let m = Outgoing {
            to: to.clone(),
            id: id.clone(),
            info: copy_bytes(&info),
            tries: 1,
            next_at: now + RETRY_BASE,
            heard_via: Vec::new(),
        };
        assert(m@.heard_via =~= Seq::<Seq<char>>::empty());
        self.pending.push(m);
        assert(spec_pending(self.pending@) =~= spec_pending(before).push(m@));
        let mut out = one(Action::Send(info));
        push_action(
            &mut out,
            Action::Ui(UiMsg::Sent { to, id, text, attempt: 1, max: MAX_TRIES }),
        );
        out
    }

    fn find_pending(&self, from: &str, id: &str) -> (r: Option<usize>)
        ensures
            match r {
                Some(i) => spec_find_pending(self@.pending, from@, id@, 0) == Some(i as int) && i
                    < self.pending@.len(),
                None => spec_find_pending(self@.pending, from@, id@, 0) is None,
            },
    {
        let sender = chars_of(from);
        for i in 0..self.pending.len()
            invariant
                sender@ == from@,
                spec_find_pending(self@.pending, from@, id@, 0) == spec_find_pending(
                    self@.pending,
                    from@,
                    id@,
                    i as int,
                ),
        {
            assert(self@.pending[i as int] == self.pending@[i as int]@);
            if same_text(self.pending[i].id.as_str(), id) && same_ignoring_case(
                chars_of(self.pending[i].to.as_str()).as_slice(),
                sender.as_slice(),
            ) {
                return Some(i);
            }
        }
        None
    }

    /// Takes the message to `from` under `id` off the list.
    fn take_pending(&mut self, from: &str, id: &str) -> (r: Option<Outgoing>)
        requires
            old(self).wf(),
        ensures
            final(self).wf(),
            match r {
                Some(m) => {
                    &&& spec_find_pending(old(self)@.pending, from@, id@, 0) matches Some(i)
                    &&& m@ == old(self)@.pending[i]
                    &&& m@.id == id@
                    &&& final(self)@ == (ClientView {
                        pending: old(self)@.pending.remove(i),
                        ..old(self)@
                    })
                },
                None => {
                    &&& spec_find_pending(old(self)@.pending, from@, id@, 0) is None
                    &&& final(self)@ == old(self)@
                },
            },
    {
        match self.find_pending(from, id) {
            Some(i) => {
                proof {
                    lemma_find_pending(self@.pending, from@, id@, 0);
                }
                let ghost before = self.pending@;
                let m = self.pending.remove(i);
                assert(spec_pending(self.pending@) =~= spec_pending(before).remove(i as int));
                Some(m)
            },
            None => None,
        }
    }

    fn on_ack(&mut self, from: &str, id: &str) -> (r: Vec<Action>)
        requires
            old(self).wf(),
        ensures
            final(self).wf(),
            (final(self)@, spec_actions(r@)) == old(self)@.on_ack(from@, id@),
    {
        match self.take_pending(from, id) {
            Some(acked) => one(
                Action::Ui(
                    UiMsg::Delivered {
                        from: String::from_str(from),
                        id: acked.id,
                        tries: acked.tries,
                    },
                ),
            ),
            None => none(),
        }
    }

    fn on_rej(&mut self, from: &str, id: &str) -> (r: Vec<Action>)
        requires
            old(self).wf(),
        ensures
            final(self).wf(),
            (final(self)@, spec_actions(r@)) == old(self)@.on_rej(from@, id@),
    {
        match self.take_pending(from, id) {
            Some(rejected) => one(
                Action::Ui(
                    UiMsg::Rejected { from: String::from_str(from), id: rejected.id },
                ),
            ),
            None => none(),
        }
    }

    /// Our own packet came back through a digipeater: show who repeated it.
    fn on_own_echo(&mut self, heard: &Heard, info: &Vec<u8>) -> (r: Vec<Action>)
        requires
            old(self).wf(),
        ensures
            final(self).wf(),
            (final(self)@, spec_actions(r@)) == old(self)@.on_own_echo(heard@, info@),
    {
        let digi: String = match heard.repeated_by() {
            Some(digi) => digi,
            None => return none(),
        };
        match parse_message(info.as_slice()) {
            Some(Message::Text { id: Some(id), .. }) => self.on_repeat(digi, id),
            _ => none(),
        }
    }

    fn on_repeat(&mut self, digi: String, id: String) -> (r: Vec<Action>)
        requires
            old(self).wf(),
        ensures
            final(self).wf(),
            (final(self)@, spec_actions(r@)) == old(self)@.on_repeat(digi@, id@),
    {
        let ghost all = self@.pending;
        let mut i: usize = 0;
        while i < self.pending.len()
            invariant
                *self == *old(self),
                old(self).wf(),
                all == self@.pending,
                i <= all.len(),
                spec_find_id(all, id@, 0) == spec_find_id(all, id@, i as int),
            decreases all.len() - i,
        {
            assert(all[i as int] == self.pending@[i as int]@);
            if same_text(self.pending[i].id.as_str(), id.as_str()) {
                if contains_text(&self.pending[i].heard_via, digi.as_str()) {
                    return none();
                }
                let ghost via = self.pending@[i as int].heard_via@;
                self.pending[i].heard_via.push(digi.clone());
                assert(spec_texts(self.pending@[i as int].heard_via@) =~= spec_texts(via).push(
                    digi@,
                ));
                assert(spec_pending(self.pending@) =~= all.update(
                    i as int,
                    self.pending@[i as int]@,
                ));
                return one(Action::Ui(UiMsg::Repeated { digi, id }));
            }
            i += 1;
        }
        none()
    }

    fn on_text(
        &mut self,
        from: &str,
        text: &str,
        id: &Option<String>,
        route: &str,
        now: u128,
    ) -> (r: Vec<Action>)
        requires
            old(self).wf(),
        ensures
            final(self).wf(),
            (final(self)@, spec_actions(r@)) == old(self)@.on_text(
                from@,
                text@,
                spec_opt(*id),
                route@,
                now,
            ),
    {
        let incoming = Action::Ui(
            UiMsg::Incoming {
                from: String::from_str(from),
                text: String::from_str(text),
                id: clone_opt(id),
                route: String::from_str(route),
            },
        );
        let id: String = match id {
            Some(id) => id.clone(),
            None => return one(incoming),
        };
        let sender = string_of(to_upper(chars_of(from).as_slice()).as_slice());
        let (is_new, ack_due) = self.seen.register(sender, id.clone(), now);
        let mut out: Vec<Action> = none();
        if is_new {
            push_action(&mut out, incoming);
        }
        let ghost shown = spec_actions(out@);
        if ack_due {
            match format_ack(from, id.as_str()) {
                Ok(ack) => push_action(&mut out, Action::Send(ack)),
                Err(e) => {
                    let mut message = String::from_str("cannot ack ");
                    message.append(from);
                    message.append(": ");
                    message.append(e.as_str());
                    push_action(&mut out, Action::Ui(UiMsg::Error(message)));
                },
            }
        }
        assert(spec_actions(out@) =~= old(self)@.on_text(
            from@,
            text@,
            Some(id@),
            route@,
            now,
        ).1);
        out
    }

    fn cancel(&mut self, which: &[char]) -> (r: Vec<Action>)
        requires
            old(self).wf(),
        ensures
            final(self).wf(),
            (final(self)@, spec_actions(r@)) == old(self)@.cancel(which@),
    {
        let which = strip_leading(trim(which), '#');
        if which.len() == 0 {
            return print_text("usage: cancel ID | cancel all");
        }
        let every: bool = same_ignoring_case(which, chars_of("all").as_slice());
        let ghost all = self@.pending;
        let ghost mut n: int = 0;
        let mut out: Vec<Action> = none();
        let mut i: usize = 0;
        assert(all =~= spec_kept(all, 0, every, which@) + all.skip(0));
        while i < self.pending.len()
            invariant
                0 <= n <= all.len(),
                self.seen == old(self).seen,
                self.digis == old(self).digis,
                self.mycall == old(self).mycall,
                self.cfg == old(self).cfg,
                self.next_id == old(self).next_id,
                self.monitor == old(self).monitor,
                self.raw == old(self).raw,
                i == spec_kept(all, n, every, which@).len(),
                spec_pending(self.pending@) == spec_kept(all, n, every, which@) + all.skip(n),
                spec_actions(out@) == spec_cancelled(all, n, every, which@),
            decreases all.len() - n,
        {
            let ghost before = self.pending@;
            let ghost kept = spec_kept(all, n, every, which@);
            assert(spec_pending(before)[i as int] == all[n]);
            if every || is_text(which, self.pending[i].id.as_str()) {
                let m = self.pending.remove(i);
                push_action(&mut out, Action::Ui(UiMsg::Cancelled { to: m.to, id: m.id }));
                assert(spec_pending(self.pending@) =~= spec_pending(before).remove(i as int));
                assert(spec_pending(self.pending@) =~= kept + all.skip(n + 1));
            } else {
                i += 1;
                assert(spec_pending(self.pending@) =~= spec_kept(all, n + 1, every, which@)
                    + all.skip(n + 1));
            }
            proof {
                n = n + 1;
            }
        }
        proof {
            assert(all.skip(n).len() == 0);
            assert(self@.pending =~= spec_kept(all, all.len() as int, every, which@));
            lemma_kept_tries(all, all.len() as int, every, which@);
        }
        if out.len() == 0 {
            let mut text = String::from_str("no pending message #");
            text.append(string_of(which).as_str());
            text.append("; type pending to list them");
            return one(Action::Ui(UiMsg::Print(text)));
        }
        out
    }

    fn digis_text(&self, now: u128) -> (r: String)
        requires
            self.wf(),
        ensures
            r@ == self@.digis_text(now),
    {
        if !self.cfg.radio {
            return String::from_str("digipeaters are only tracked on the radio link");
        }
        if self.digis.is_empty() {
            return String::from_str("no digipeaters heard yet (only stations heard directly)");
        }
        self.digis.text(now)
    }

    fn pending_text(&self, now: u128) -> (r: String)
        ensures
            r@ == self@.pending_text(now),
    {
        if self.pending.len() == 0 {
            return String::from_str("no messages waiting for an ack");
        }
        let ghost goal = spec_pending_lines(self@.pending, now);
        let mut lines: Vec<String> = Vec::new();
        for i in 0..self.pending.len()
            invariant
                goal == spec_pending_lines(self@.pending, now),
                spec_texts(lines@) == goal.take(i as int),
        {
            let ghost so_far = lines@;
            let line = pending_line(&self.pending[i], now);
            lines.push(line);
            assert(self@.pending[i as int] == self.pending@[i as int]@);
            assert(spec_texts(lines@) =~= spec_texts(so_far).push(line@));
            assert(spec_texts(lines@) =~= goal.take(i + 1));
        }
        assert(spec_texts(lines@) =~= goal);
        join(&lines, "\n")
    }

    fn is_me(&self, addressee: &str) -> (r: bool)
        ensures
            r == spec_addressed_to_me(self@.call, addressee@),
    {
        addressed_to_me(&self.cfg.call, addressee)
    }

    fn take_id(&mut self) -> (r: String)
        requires
            old(self).wf(),
        ensures
            final(self).wf(),
            r@ == spec_decimal(old(self)@.next_id as nat),
            final(self)@ == (ClientView {
                next_id: (old(self)@.next_id % MAX_ID + 1) as u32,
                ..old(self)@
            }),
    {
        let id: u32 = self.next_id;
        self.next_id = self.next_id % MAX_ID + 1;
        decimal(id as u128)
    }
}

proof fn lemma_find_pending(
    pending: Seq<OutgoingView>,
    to: Seq<char>,
    id: Seq<char>,
    start: int,
)
    requires
        0 <= start,
    ensures
        spec_find_pending(pending, to, id, start) matches Some(i) ==> {
            &&& start <= i < pending.len()
            &&& pending[i].id == id
            &&& spec_same_ignoring_case(pending[i].to, to)
        },
    decreases pending.len() - start,
{
    if start < pending.len() {
        lemma_find_pending(pending, to, id, start + 1);
    }
}

/// Timers keep the number of tries in its range.
proof fn lemma_polled_tries(pending: Seq<OutgoingView>, n: int, now: u128)
    requires
        0 <= n <= pending.len(),
        forall|i: int| 0 <= i < pending.len() ==> 1 <= (#[trigger] pending[i]).tries <= MAX_TRIES,
    ensures
        forall|i: int|
            0 <= i < spec_polled(pending, n, now).len() ==> 1 <= (#[trigger] spec_polled(
                pending,
                n,
                now,
            )[i]).tries <= MAX_TRIES,
    decreases n,
{
    if n > 0 {
        lemma_polled_tries(pending, n - 1, now);
        let front = spec_polled(pending, n - 1, now);
        let whole = spec_polled(pending, n, now);
        assert forall|i: int| 0 <= i < whole.len() implies 1 <= (#[trigger] whole[i]).tries
            <= MAX_TRIES by {
            if i < front.len() {
                assert(whole[i] == front[i]);
            } else {
                assert(1 <= pending[n - 1].tries <= MAX_TRIES);
            }
        }
    }
}

proof fn lemma_kept_tries(pending: Seq<OutgoingView>, n: int, all: bool, which: Seq<char>)
    requires
        0 <= n <= pending.len(),
        forall|i: int| 0 <= i < pending.len() ==> 1 <= (#[trigger] pending[i]).tries <= MAX_TRIES,
    ensures
        forall|i: int|
            0 <= i < spec_kept(pending, n, all, which).len() ==> 1 <= (#[trigger] spec_kept(
                pending,
                n,
                all,
                which,
            )[i]).tries <= MAX_TRIES,
    decreases n,
{
    if n > 0 {
        lemma_kept_tries(pending, n - 1, all, which);
        let front = spec_kept(pending, n - 1, all, which);
        let whole = spec_kept(pending, n, all, which);
        assert forall|i: int| 0 <= i < whole.len() implies 1 <= (#[trigger] whole[i]).tries
            <= MAX_TRIES by {
            if i < front.len() {
                assert(whole[i] == front[i]);
            } else {
                assert(1 <= pending[n - 1].tries <= MAX_TRIES);
            }
        }
    }
}

} // verus!
