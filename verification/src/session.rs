//! A client in a browser: protocol and client state machine behind one WebSocket.
//!
//! Networking stays outside. This module parses KISS or APRS-IS frames, runs
//! retries and acks, and turns the client's actions into plain ones to apply.

use vstd::prelude::*;
use vstd::slice::{slice_subrange, slice_to_vec};

use crate::action::{append_actions, none, spec_actions, Action, ActionView, UiMsg, UiMsgView};
use crate::ax25::{
    law_frame_on_the_wire as law_wire_of_frame, parse_path, spec_parse_address, spec_parse_path,
    Address,
};
use crate::base64::{base64_encode, spec_base64};
use crate::client::{
    message_group_filter, spec_message_group_filter, spec_new_client, Client, ClientConfig,
    ClientConfigView, ClientView,
};
use crate::clock::{now, MAX_TIME};
use crate::decode::{spec_trim_line_end, trim_line_end, PacketView};
use crate::encoding::{debug_text, spec_debug_text, spec_text_of, text_of};
use crate::heard::{
    passcode, spec_from_frame, spec_parse_tnc2, spec_passcode, Heard, HeardView, HopView,
};
use crate::kiss::{
    law_reads_can_be_cut_anywhere, spec_after, spec_decoded, spec_idle, Decoder, DecoderView,
    KissFrameView,
};
use crate::link::{
    internet_packet, keepalive_line, kiss_packet, law_internet_packet_is_heard,
    law_radio_packet_is_heard, lemma_internet_packet_is_a_line, login_line, read_kiss, spec_heard,
    spec_heard_of_us, spec_internet_packet, spec_keepalive_line, spec_kiss_heard, spec_kiss_packet,
    spec_login_line, spec_radio_frame,
};
use crate::numeral::{decimal, spec_decimal};
use crate::position::{Figures, FiguresView};
use crate::split::{find_byte, lemma_find_from, lemma_find_from_is, spec_find};
use crate::text::{same_text, spec_trim, string_of, trim};

verus! {

#[derive(Debug, PartialEq, Eq)]
pub enum JsAction {
    Send {
        /// Base64-encoded bytes to write on the WebSocket.
        data: String,
    },
    Log { kind: String, text: String },
    Quit,
}

pub enum JsActionView {
    Send { data: Seq<char> },
    Log { kind: Seq<char>, text: Seq<char> },
    Quit,
}

impl View for JsAction {
    type V = JsActionView;

    open spec fn view(&self) -> JsActionView {
        match *self {
            JsAction::Send { data } => JsActionView::Send { data: data@ },
            JsAction::Log { kind, text } => JsActionView::Log { kind: kind@, text: text@ },
            JsAction::Quit => JsActionView::Quit,
        }
    }
}

/// What the WebSocket leads to.
#[derive(Clone, Copy, Debug, PartialEq, Eq, Structural)]
pub enum Mode {
    Kiss,
    AprsIs,
}

pub struct Session {
    client: Client,
    mode: Mode,
    kiss: Decoder,
    chan: u8,
    passcode: u16,
    filter: String,
    line_buf: Vec<u8>,
}

#[verifier::ext_equal]
pub struct SessionView {
    pub client: ClientView,
    pub mode: Mode,
    pub kiss: DecoderView,
    pub chan: u8,
    pub passcode: u16,
    pub filter: Seq<char>,
    pub line_buf: Seq<u8>,
}

impl View for Session {
    type V = SessionView;

    closed spec fn view(&self) -> SessionView {
        SessionView {
            client: self.client@,
            mode: self.mode,
            kiss: self.kiss@,
            chan: self.chan,
            passcode: self.passcode,
            filter: self.filter@,
            line_buf: self.line_buf@,
        }
    }
}

// ---------------------------------------------------------------------------
// Opening
// ---------------------------------------------------------------------------

pub open spec fn spec_parse_mode(mode: Seq<char>) -> Result<Mode, Seq<char>> {
    if mode == "kiss"@ {
        Ok(Mode::Kiss)
    } else if mode == "aprs-is"@ {
        Ok(Mode::AprsIs)
    } else {
        Err("mode must be kiss or aprs-is, not "@ + spec_debug_text(mode))
    }
}

/// The session at the start, or what is wrong with the first bad one of call, destination, path
/// and mode.
pub open spec fn spec_new_session(
    call: Seq<char>,
    mode: Seq<char>,
    path: Seq<char>,
    tocall: Seq<char>,
    chan: u8,
    passcode_opt: Option<u16>,
    filter: Seq<char>,
    monitor: bool,
    raw: bool,
    now: u128,
) -> Result<SessionView, Seq<char>> {
    match (
        spec_parse_address(call),
        spec_parse_address(tocall),
        spec_parse_path(path),
        spec_parse_mode(mode),
    ) {
        (Ok(call), Ok(tocall), Ok(path), Ok(mode)) => {
            let cfg = ClientConfigView {
                call,
                path,
                tocall,
                monitor,
                radio: mode == Mode::Kiss,
            };
            Ok(
                SessionView {
                    client: ClientView { raw, ..spec_new_client(cfg, now) },
                    mode,
                    kiss: spec_idle(),
                    chan,
                    passcode: match passcode_opt {
                        Some(code) => code,
                        None => spec_passcode(call.call),
                    },
                    filter: spec_message_group_filter(call, filter),
                    line_buf: Seq::empty(),
                },
            )
        },
        (Err(e), _, _, _) => Err(e),
        (_, Err(e), _, _) => Err(e),
        (_, _, Err(e), _) => Err(e),
        (_, _, _, Err(e)) => Err(e),
    }
}

fn parse_mode(mode: &str) -> (r: Result<Mode, String>)
    ensures
        match r {
            Ok(m) => spec_parse_mode(mode@) == Ok::<Mode, Seq<char>>(m),
            Err(e) => spec_parse_mode(mode@) == Err::<Mode, Seq<char>>(e@),
        },
{
    if same_text(mode, "kiss") {
        Ok(Mode::Kiss)
    } else if same_text(mode, "aprs-is") {
        Ok(Mode::AprsIs)
    } else {
        let mut e = String::from_str("mode must be kiss or aprs-is, not ");
        e.append(debug_text(mode).as_str());
        Err(e)
    }
}

// ---------------------------------------------------------------------------
// Receiving
// ---------------------------------------------------------------------------

/// The client after the first `n` packets, and what it asks for.
pub open spec fn spec_hear_all(client: ClientView, heard: Seq<HeardView>, n: int, now: u128) -> (
    ClientView,
    Seq<ActionView>,
)
    decreases n,
{
    if n <= 0 {
        (client, Seq::empty())
    } else {
        let (before, first) = spec_hear_all(client, heard, n - 1, now);
        let (after, second) = before.on_heard(heard[n - 1], now);
        (after, first + second)
    }
}

/// One line from an APRS-IS server: comments are notices, other lines are packets.
pub open spec fn spec_server_line(client: ClientView, line: Seq<u8>, now: u128) -> (
    ClientView,
    Seq<ActionView>,
) {
    if line.len() > 0 && line[0] == '#' as u8 {
        let comment = spec_trim(spec_text_of(line.skip(1)));
        (
            client,
            if comment.len() > 0 {
                client.on_notice(comment)
            } else {
                Seq::empty()
            },
        )
    } else {
        match spec_parse_tnc2(line) {
            Some(heard) => client.on_heard(heard, now),
            None => (client, Seq::empty()),
        }
    }
}

/// Every line in `buf`, whether or not the last one is ended.
pub open spec fn spec_server_lines(client: ClientView, buf: Seq<u8>, now: u128) -> (
    ClientView,
    Seq<ActionView>,
)
    decreases buf.len(),
{
    proof {
        lemma_find_from(buf, 0x0au8, 0);
    }
    match spec_find(buf, 0x0au8) {
        Some(pos) => {
            let (before, first) = spec_server_line(
                client,
                spec_trim_line_end(buf.take(pos + 1)),
                now,
            );
            let (after, second) = spec_server_lines(before, buf.skip(pos + 1), now);
            (after, first + second)
        },
        None => if buf.len() > 0 {
            spec_server_line(client, spec_trim_line_end(buf), now)
        } else {
            (client, Seq::empty())
        },
    }
}

impl SessionView {
    pub open spec fn on_bytes(self, data: Seq<u8>, now: u128) -> (SessionView, Seq<ActionView>) {
        match self.mode {
            Mode::Kiss => {
                let frames = spec_decoded(self.kiss, data);
                let heard = spec_kiss_heard(frames, frames.len() as int, self.chan);
                let (client, actions) = spec_hear_all(
                    self.client,
                    heard,
                    heard.len() as int,
                    now,
                );
                (SessionView { client, kiss: spec_after(self.kiss, data), ..self }, actions)
            },
            Mode::AprsIs => {
                let (client, actions) = spec_server_lines(self.client, self.line_buf + data, now);
                (SessionView { client, line_buf: Seq::empty(), ..self }, actions)
            },
        }
    }

    pub open spec fn on_command(self, line: Seq<char>, now: u128) -> (
        SessionView,
        Seq<ActionView>,
    ) {
        let (client, actions) = self.client.on_command(line, now);
        (SessionView { client, ..self }, actions)
    }

    pub open spec fn poll(self, now: u128) -> (SessionView, Seq<ActionView>) {
        let (client, actions) = self.client.poll(now);
        (SessionView { client, ..self }, actions)
    }

    /// The bytes that a packet is sent as.
    pub open spec fn packet(self, info: Seq<u8>) -> Seq<u8> {
        match self.mode {
            Mode::Kiss => spec_kiss_packet(
                self.chan,
                self.client.call,
                self.client.tocall,
                self.client.path,
                info,
            ),
            Mode::AprsIs => spec_internet_packet(self.client.call, self.client.tocall, info),
        }
    }

    pub open spec fn encode_action(self, action: ActionView, figures: FiguresView) -> JsActionView {
        match action {
            ActionView::Send(info) => JsActionView::Send { data: spec_base64(self.packet(info)) },
            ActionView::Ui(msg) => JsActionView::Log {
                kind: spec_ui_kind(msg),
                text: spec_format_ui(msg, figures),
            },
            ActionView::Quit => JsActionView::Quit,
        }
    }
}

pub open spec fn spec_ui_kind(msg: UiMsgView) -> Seq<char> {
    match msg {
        UiMsgView::Info(_) => "info"@,
        UiMsgView::Print(_) => "info"@,
        UiMsgView::Error(_) => "error"@,
        UiMsgView::Sent { .. } => "sent"@,
        UiMsgView::Retry { .. } => "sent"@,
        UiMsgView::Repeated { .. } => "repeat"@,
        UiMsgView::Delivered { .. } => "ok"@,
        UiMsgView::Rejected { .. } => "fail"@,
        UiMsgView::GaveUp { .. } => "fail"@,
        UiMsgView::Cancelled { .. } => "fail"@,
        UiMsgView::Incoming { .. } => "in"@,
        UiMsgView::Monitor { .. } => "mon"@,
        UiMsgView::Raw(_) => "mon"@,
    }
}

pub open spec fn spec_format_ui(msg: UiMsgView, figures: FiguresView) -> Seq<char> {
    match msg {
        UiMsgView::Info(t) => t,
        UiMsgView::Error(t) => t,
        UiMsgView::Print(t) => t,
        UiMsgView::Raw(t) => t,
        UiMsgView::Sent { to, id, text, attempt, max } => "→ "@ + to + " #"@ + id + " "@ + text
            + "  try "@ + spec_decimal(attempt as nat) + "/"@ + spec_decimal(max as nat),
        UiMsgView::Retry { to, id, attempt, max } => "→ "@ + to + " #"@ + id + "  retry "@
            + spec_decimal(attempt as nat) + "/"@ + spec_decimal(max as nat),
        UiMsgView::Repeated { digi, id } => "↻ "@ + digi + " repeated your #"@ + id,
        UiMsgView::Delivered { from, id, tries } => "✓ "@ + from + " #"@ + id + " delivered after "@
            + spec_decimal(tries as nat) + if tries == 1 {
            " try"@
        } else {
            " tries"@
        },
        UiMsgView::Rejected { from, id } => "✗ "@ + from + " #"@ + id + " rejected"@,
        UiMsgView::GaveUp { to, id, tries } => "✗ "@ + to + " #"@ + id
            + " not delivered (no ack after "@ + spec_decimal(tries as nat) + " tries)"@,
        UiMsgView::Cancelled { to, id } => "✗ "@ + to + " #"@ + id + " cancelled"@,
        UiMsgView::Incoming { from, text, id, route } => match id {
            Some(id) => "← "@ + from + " "@ + text + "  #"@ + id + " "@ + route,
            None => "← "@ + from + " "@ + text + "  "@ + route,
        },
        UiMsgView::Monitor { station, packet, route } => "· "@ + station + " "@ + packet.describe(
            figures,
        ) + "  "@ + route,
    }
}

/// The kind of a log line.
pub fn ui_kind(msg: &UiMsg) -> (r: &'static str)
    ensures
        r@ == spec_ui_kind(msg@),
{
    match msg {
        UiMsg::Info(_) | UiMsg::Print(_) => "info",
        UiMsg::Error(_) => "error",
        UiMsg::Sent { .. } | UiMsg::Retry { .. } => "sent",
        UiMsg::Repeated { .. } => "repeat",
        UiMsg::Delivered { .. } => "ok",
        UiMsg::Rejected { .. } | UiMsg::GaveUp { .. } | UiMsg::Cancelled { .. } => "fail",
        UiMsg::Incoming { .. } => "in",
        UiMsg::Monitor { .. } | UiMsg::Raw(_) => "mon",
    }
}

/// `MARK STATION #ID`
fn headed(mark: &str, station: &str, id: &str) -> (r: String)
    ensures
        r@ == mark@ + station@ + " #"@ + id@,
{
    let mut out = String::from_str(mark);
    out.append(station);
    out.append(" #");
    out.append(id);
    out
}

/// `N/MAX`
fn push_count(out: &mut String, n: u32, max: u32)
    ensures
        final(out)@ == old(out)@ + spec_decimal(n as nat) + "/"@ + spec_decimal(max as nat),
{
    out.append(decimal(n as u128).as_str());
    out.append("/");
    out.append(decimal(max as u128).as_str());
}

/// A message of the client in one line. The figures are those of the packet in it, if any.
pub fn format_ui(msg: &UiMsg, figures: &Figures) -> (r: String)
    ensures
        r@ == spec_format_ui(msg@, figures@),
{
    match msg {
        UiMsg::Info(t) => t.clone(),
        UiMsg::Error(t) => t.clone(),
        UiMsg::Print(t) => t.clone(),
        UiMsg::Raw(t) => t.clone(),
        UiMsg::Sent { to, id, text, attempt, max } => {
            let mut out = headed("→ ", to.as_str(), id.as_str());
            out.append(" ");
            out.append(text.as_str());
            out.append("  try ");
            push_count(&mut out, *attempt, *max);
            out
        },
        UiMsg::Retry { to, id, attempt, max } => {
            let mut out = headed("→ ", to.as_str(), id.as_str());
            out.append("  retry ");
            push_count(&mut out, *attempt, *max);
            out
        },
        UiMsg::Repeated { digi, id } => {
            let mut out = String::from_str("↻ ");
            out.append(digi.as_str());
            out.append(" repeated your #");
            out.append(id.as_str());
            out
        },
        UiMsg::Delivered { from, id, tries } => {
            let mut out = headed("✓ ", from.as_str(), id.as_str());
            out.append(" delivered after ");
            out.append(decimal(*tries as u128).as_str());
            out.append(if *tries == 1 {
                " try"
            } else {
                " tries"
            });
            out
        },
        UiMsg::Rejected { from, id } => {
            let mut out = headed("✗ ", from.as_str(), id.as_str());
            out.append(" rejected");
            out
        },
        UiMsg::GaveUp { to, id, tries } => {
            let mut out = headed("✗ ", to.as_str(), id.as_str());
            out.append(" not delivered (no ack after ");
            out.append(decimal(*tries as u128).as_str());
            out.append(" tries)");
            out
        },
        UiMsg::Cancelled { to, id } => {
            let mut out = headed("✗ ", to.as_str(), id.as_str());
            out.append(" cancelled");
            out
        },
        UiMsg::Incoming { from, text, id, route } => {
            let mut out = String::from_str("← ");
            out.append(from.as_str());
            out.append(" ");
            out.append(text.as_str());
            match id {
                Some(id) => {
                    out.append("  #");
                    out.append(id.as_str());
                    out.append(" ");
                },
                None => out.append("  "),
            }
            out.append(route.as_str());
            out
        },
        UiMsg::Monitor { station, packet, route } => {
            let mut out = String::from_str("· ");
            out.append(station.as_str());
            out.append(" ");
            out.append(packet.describe(figures).as_str());
            out.append("  ");
            out.append(route.as_str());
            out
        },
    }
}

/// The passcode for a callsign.
pub fn compute_passcode(call: &str) -> (r: u16)
    ensures
        r == spec_passcode(call@),
{
    passcode(call)
}

impl Session {
    pub closed spec fn wf(self) -> bool {
        self.client.wf()
    }

    /// `mode` is `"kiss"` (Direwolf via local bridge) or `"aprs-is"`.
    ///
    /// Reads the system's clock. A browser build, where the standard library has none, calls
    /// [`Session::new_at`] with the browser's time.
    pub fn new(
        call: &str,
        mode: &str,
        path: &str,
        tocall: &str,
        chan: u8,
        passcode_opt: Option<u16>,
        filter: &str,
        monitor: bool,
        raw: bool,
    ) -> (r: Result<Session, String>)
        ensures
            exists|now: u128|
                now <= MAX_TIME && Self::spec_opened(
                    r,
                    #[trigger] spec_new_session(
                        call@,
                        mode@,
                        path@,
                        tocall@,
                        chan,
                        passcode_opt,
                        filter@,
                        monitor,
                        raw,
                        now,
                    ),
                ),
    {
        Self::new_at(
            call,
            mode,
            path,
            tocall,
            chan,
            passcode_opt,
            filter,
            monitor,
            raw,
            now(),
        )
    }

    /// The result is a well-formed session, or the error, that `goal` names.
    pub open spec fn spec_opened(
        r: Result<Session, String>,
        goal: Result<SessionView, Seq<char>>,
    ) -> bool {
        match r {
            Ok(s) => s.wf() && goal == Ok::<SessionView, Seq<char>>(s@),
            Err(e) => goal == Err::<SessionView, Seq<char>>(e@),
        }
    }

    /// As [`Session::new`], with the time given.
    pub fn new_at(
        call: &str,
        mode: &str,
        path: &str,
        tocall: &str,
        chan: u8,
        passcode_opt: Option<u16>,
        filter: &str,
        monitor: bool,
        raw: bool,
        now: u128,
    ) -> (r: Result<Session, String>)
        ensures
            Self::spec_opened(
                r,
                spec_new_session(
                    call@,
                    mode@,
                    path@,
                    tocall@,
                    chan,
                    passcode_opt,
                    filter@,
                    monitor,
                    raw,
                    now,
                ),
            ),
    {
        let call: Address = match Address::parse(call) {
            Ok(call) => call,
            Err(e) => return Err(e),
        };
        let tocall: Address = match Address::parse(tocall) {
            Ok(tocall) => tocall,
            Err(e) => return Err(e),
        };
        let path: Vec<Address> = match parse_path(path) {
            Ok(path) => path,
            Err(e) => return Err(e),
        };
        let mode: Mode = match parse_mode(mode) {
            Ok(mode) => mode,
            Err(e) => return Err(e),
        };
        let code: u16 = match passcode_opt {
            Some(code) => code,
            None => passcode(call.call.as_str()),
        };
        let filter = message_group_filter(&call, filter);
        let mut client = Client::new_at(
            ClientConfig {
                call,
                path,
                tocall,
                monitor: monitor,
                radio: mode == Mode::Kiss,
            },
            now,
        );
        client.set_raw(raw);
        let line_buf: Vec<u8> = Vec::new();
        assert(line_buf@ =~= Seq::<u8>::empty());
        Ok(
            Session {
                client,
                mode,
                kiss: Decoder::default(),
                chan: chan,
                passcode: code,
                filter,
                line_buf,
            },
        )
    }

    /// APRS-IS login line to send right after the WebSocket opens.
    pub fn login_bytes(&self) -> (r: Vec<u8>)
        ensures
            r@ == spec_login_line(self@.client.call.text(), self@.passcode, self@.filter),
    {
        login_line(self.client.call().to_string().as_str(), self.passcode, self.filter.as_str())
    }

    /// Computed or configured APRS-IS passcode.
    pub fn passcode(&self) -> (r: u16)
        ensures
            r == self@.passcode,
    {
        self.passcode
    }

    /// Feeds raw WebSocket payload (binary or text, as bytes).
    ///
    /// Reads the system's clock. A browser build, where the standard library has none, calls
    /// [`Session::on_bytes_at`] with the browser's time.
    pub fn on_bytes(&mut self, data: &[u8]) -> (r: Vec<Action>)
        requires
            old(self).wf(),
        ensures
            final(self).wf(),
            exists|now: u128|
                now <= MAX_TIME && (final(self)@, spec_actions(r@)) == #[trigger] old(
                    self,
                )@.on_bytes(data@, now),
    {
        let at: u128 = now();
        self.on_bytes_at(data, at)
    }

    /// As [`Session::on_bytes`], with the time given.
    pub fn on_bytes_at(&mut self, data: &[u8], now: u128) -> (r: Vec<Action>)
        requires
            old(self).wf(),
        ensures
            final(self).wf(),
            (final(self)@, spec_actions(r@)) == old(self)@.on_bytes(data@, now),
    {
        match self.mode {
            Mode::Kiss => {
                let heard = read_kiss(&mut self.kiss, self.chan, data);
                self.hear_all(heard, now)
            },
            Mode::AprsIs => self.feed_aprs_is(data, now),
        }
    }

    fn hear_all(&mut self, heard: Vec<Heard>, now: u128) -> (r: Vec<Action>)
        requires
            old(self).wf(),
        ensures
            final(self).wf(),
            ({
                let all = spec_heard(heard@);
                let (client, actions) = spec_hear_all(
                    old(self)@.client,
                    all,
                    all.len() as int,
                    now,
                );
                &&& final(self)@ == (SessionView { client, ..old(self)@ })
                &&& spec_actions(r@) == actions
            }),
    {
        let ghost all = spec_heard(heard@);
        let mut out: Vec<Action> = none();
        for i in 0..heard.len()
            invariant
                all == spec_heard(heard@),
                self.client.wf(),
                self.mode == old(self).mode,
                self.kiss == old(self).kiss,
                self.chan == old(self).chan,
                self.passcode == old(self).passcode,
                self.filter == old(self).filter,
                self.line_buf == old(self).line_buf,
                (self.client@, spec_actions(out@)) == spec_hear_all(
                    old(self)@.client,
                    all,
                    i as int,
                    now,
                ),
        {
            assert(all[i as int] == heard@[i as int]@);
            let actions = self.client.on_heard_at(heard[i].clone(), now);
            append_actions(&mut out, actions);
        }
        out
    }

    /// Hands every line to the client. A WebSocket usually carries one complete line in each
    /// binary frame, often without a trailing newline, so the remainder is a line too.
    fn feed_aprs_is(&mut self, data: &[u8], now: u128) -> (r: Vec<Action>)
        requires
            old(self).wf(),
        ensures
            final(self).wf(),
            ({
                let (client, actions) = spec_server_lines(
                    old(self)@.client,
                    old(self)@.line_buf + data@,
                    now,
                );
                &&& final(self)@ == (SessionView { client, line_buf: Seq::empty(), ..old(self)@ })
                &&& spec_actions(r@) == actions
            }),
    {
        let mut buf: Vec<u8> = slice_to_vec(self.line_buf.as_slice());
        buf.extend_from_slice(data);
        assert(buf@ =~= old(self)@.line_buf + data@);
        let ghost whole = spec_server_lines(self.client@, buf@, now);
        let mut out: Vec<Action> = none();
        let mut start: usize = 0;
        assert(buf@.skip(0) =~= buf@);
        assert(spec_actions(out@) + whole.1 =~= whole.1);
        while start < buf.len()
            invariant
                start <= buf@.len(),
                self.client.wf(),
                self.mode == old(self).mode,
                self.kiss == old(self).kiss,
                self.chan == old(self).chan,
                self.passcode == old(self).passcode,
                self.filter == old(self).filter,
                ({
                    let left = spec_server_lines(self.client@, buf@.skip(start as int), now);
                    whole == (left.0, spec_actions(out@) + left.1)
                }),
            decreases buf@.len() - start,
        {
            let n: usize = buf.len();
            let rest = slice_subrange(buf.as_slice(), start, n);
            assert(rest@ =~= buf@.skip(start as int));
            let end: usize = match find_byte(rest, 0x0a) {
                Some(pos) => pos + 1,
                None => rest.len(),
            };
            let ghost before = self.client@;
            let ghost so_far = spec_actions(out@);
            let line = slice_subrange(rest, 0, end);
            assert(end == rest@.len() ==> line@ =~= rest@);
            let actions = self.handle_aprs_is_line(trim_line_end(line), now);
            append_actions(&mut out, actions);
            start = start + end;
            proof {
                assert(rest@.skip(end as int) =~= buf@.skip(start as int));
                let left = spec_server_lines(self.client@, buf@.skip(start as int), now);
                if spec_find(rest@, 0x0au8) is None {
                    assert(buf@.skip(start as int) =~= Seq::<u8>::empty());
                    assert(left == (self.client@, Seq::<ActionView>::empty()));
                }
                assert(spec_actions(out@) + left.1 =~= so_far + spec_server_lines(
                    before,
                    rest@,
                    now,
                ).1);
            }
        }
        proof {
            assert(buf@.skip(start as int) =~= Seq::<u8>::empty());
            assert(spec_actions(out@) + Seq::<ActionView>::empty() =~= spec_actions(out@));
        }
        self.line_buf.clear();
        assert(self.line_buf@ =~= Seq::<u8>::empty());
        out
    }

    fn handle_aprs_is_line(&mut self, line: &[u8], now: u128) -> (r: Vec<Action>)
        requires
            old(self).client.wf(),
        ensures
            final(self).client.wf(),
            final(self).mode == old(self).mode,
            final(self).kiss == old(self).kiss,
            final(self).chan == old(self).chan,
            final(self).passcode == old(self).passcode,
            final(self).filter == old(self).filter,
            final(self).line_buf == old(self).line_buf,
            (final(self).client@, spec_actions(r@)) == spec_server_line(
                old(self).client@,
                line@,
                now,
            ),
    {
        if line.len() > 0 && line[0] == '#' as u8 {
            let rest = slice_subrange(line, 1, line.len());
            assert(rest@ =~= line@.skip(1));
            let text = text_of(rest);
            let comment = trim(text.as_slice());
            if comment.len() == 0 {
                return none();
            }
            return self.client.on_notice(string_of(comment).as_str());
        }
        match Heard::parse_tnc2(line) {
            Some(heard) => self.client.on_heard_at(heard, now),
            None => none(),
        }
    }

    /// Reads the system's clock. A browser build, where the standard library has none, calls
    /// [`Session::on_command_at`] with the browser's time.
    pub fn on_command(&mut self, line: &str) -> (r: Vec<Action>)
        requires
            old(self).wf(),
        ensures
            final(self).wf(),
            exists|now: u128|
                now <= MAX_TIME && (final(self)@, spec_actions(r@)) == #[trigger] old(
                    self,
                )@.on_command(line@, now),
    {
        let at: u128 = now();
        self.on_command_at(line, at)
    }

    /// As [`Session::on_command`], with the time given.
    pub fn on_command_at(&mut self, line: &str, now: u128) -> (r: Vec<Action>)
        requires
            old(self).wf(),
            now <= MAX_TIME,
        ensures
            final(self).wf(),
            (final(self)@, spec_actions(r@)) == old(self)@.on_command(line@, now),
    {
        self.client.on_command_at(line, now)
    }

    /// Runs retry timers; call about once a second while connected.
    ///
    /// Reads the system's clock. A browser build, where the standard library has none, calls
    /// [`Session::poll_at`] with the browser's time.
    pub fn poll(&mut self) -> (r: Vec<Action>)
        requires
            old(self).wf(),
        ensures
            final(self).wf(),
            exists|now: u128|
                now <= MAX_TIME && (final(self)@, spec_actions(r@)) == #[trigger] old(
                    self,
                )@.poll(now),
    {
        let at: u128 = now();
        self.poll_at(at)
    }

    /// Runs retry timers at the given time.
    pub fn poll_at(&mut self, now: u128) -> (r: Vec<Action>)
        requires
            old(self).wf(),
            now <= MAX_TIME,
        ensures
            final(self).wf(),
            (final(self)@, spec_actions(r@)) == old(self)@.poll(now),
    {
        self.client.poll_at(now)
    }

    /// APRS-IS keepalive comment bytes.
    pub fn keepalive_bytes(&self) -> (r: Vec<u8>)
        ensures
            r@ == spec_keepalive_line(),
    {
        keepalive_line()
    }

    pub fn pending(&self) -> (r: usize)
        ensures
            r == self@.client.pending.len(),
    {
        self.client.pending_count()
    }

    fn packet(&self, info: &[u8]) -> (r: Vec<u8>)
        ensures
            r@ == self@.packet(info@),
    {
        match self.mode {
            Mode::Kiss => kiss_packet(
                self.chan,
                self.client.call(),
                self.client.tocall(),
                self.client.path(),
                info,
            ),
            Mode::AprsIs => internet_packet(self.client.call(), self.client.tocall(), info),
        }
    }

    /// Turns the client's actions, each with the figures of the packet in it, into plain ones.
    pub fn encode_actions(&self, actions: &Vec<(Action, Figures)>) -> (r: Vec<JsAction>)
        ensures
            r@.len() == actions@.len(),
            forall|i: int|
                0 <= i < r@.len() ==> (#[trigger] r@[i])@ == self@.encode_action(
                    actions@[i].0@,
                    actions@[i].1@,
                ),
    {
        let mut out: Vec<JsAction> = Vec::new();
        for i in 0..actions.len()
            invariant
                out@.len() == i,
                forall|j: int|
                    0 <= j < i ==> (#[trigger] out@[j])@ == self@.encode_action(
                        actions@[j].0@,
                        actions@[j].1@,
                    ),
        {
            let encoded = match &actions[i].0 {
                Action::Send(info) => JsAction::Send {
                    data: base64_encode(self.packet(info.as_slice()).as_slice()),
                },
                Action::Ui(msg) => JsAction::Log {
                    kind: String::from_str(ui_kind(msg)),
                    text: format_ui(msg, &actions[i].1),
                },
                Action::Quit => JsAction::Quit,
            };
            out.push(encoded);
        }
        out
    }
}

// ---------------------------------------------------------------------------
// Laws
// ---------------------------------------------------------------------------

/// On a radio session it does not matter how the bytes from the WebSocket are cut: two pieces fed
/// one after the other do what the whole would.
pub proof fn law_radio_bytes_can_be_cut_anywhere(
    session: SessionView,
    first: Seq<u8>,
    second: Seq<u8>,
    now: u128,
)
    requires
        session.mode == Mode::Kiss,
    ensures
        ({
            let (between, a) = session.on_bytes(first, now);
            let (after, b) = between.on_bytes(second, now);
            session.on_bytes(first + second, now) == (after, a + b)
        }),
{
    law_reads_can_be_cut_anywhere(session.kiss, first, second);
    let f1 = spec_decoded(session.kiss, first);
    let f2 = spec_decoded(spec_after(session.kiss, first), second);
    lemma_kiss_heard_concat(f1, f2, f2.len() as int, session.chan);
    let h1 = spec_kiss_heard(f1, f1.len() as int, session.chan);
    let h2 = spec_kiss_heard(f2, f2.len() as int, session.chan);
    lemma_hear_all_concat(session.client, h1, h2, h2.len() as int, now);
}

proof fn lemma_kiss_heard_prefix(
    f1: Seq<KissFrameView>,
    f2: Seq<KissFrameView>,
    n: int,
    chan: u8,
)
    requires
        0 <= n <= f1.len(),
    ensures
        spec_kiss_heard(f1 + f2, n, chan) == spec_kiss_heard(f1, n, chan),
    decreases n,
{
    if n > 0 {
        lemma_kiss_heard_prefix(f1, f2, n - 1, chan);
        assert((f1 + f2)[n - 1] == f1[n - 1]);
    }
}

proof fn lemma_kiss_heard_concat(
    f1: Seq<KissFrameView>,
    f2: Seq<KissFrameView>,
    n: int,
    chan: u8,
)
    requires
        0 <= n <= f2.len(),
    ensures
        spec_kiss_heard(f1 + f2, f1.len() + n, chan) == spec_kiss_heard(
            f1,
            f1.len() as int,
            chan,
        ) + spec_kiss_heard(f2, n, chan),
    decreases n,
{
    let h1 = spec_kiss_heard(f1, f1.len() as int, chan);
    if n == 0 {
        lemma_kiss_heard_prefix(f1, f2, f1.len() as int, chan);
        assert(h1 + spec_kiss_heard(f2, 0, chan) =~= h1);
    } else {
        lemma_kiss_heard_concat(f1, f2, n - 1, chan);
        assert((f1 + f2)[f1.len() + n - 1] == f2[n - 1]);
        assert(spec_kiss_heard(f1 + f2, f1.len() + n, chan) =~= h1 + spec_kiss_heard(f2, n, chan));
    }
}

proof fn lemma_hear_all_prefix(
    client: ClientView,
    h1: Seq<HeardView>,
    h2: Seq<HeardView>,
    n: int,
    now: u128,
)
    requires
        0 <= n <= h1.len(),
    ensures
        spec_hear_all(client, h1 + h2, n, now) == spec_hear_all(client, h1, n, now),
    decreases n,
{
    if n > 0 {
        lemma_hear_all_prefix(client, h1, h2, n - 1, now);
        assert((h1 + h2)[n - 1] == h1[n - 1]);
    }
}

proof fn lemma_hear_all_concat(
    client: ClientView,
    h1: Seq<HeardView>,
    h2: Seq<HeardView>,
    n: int,
    now: u128,
)
    requires
        0 <= n <= h2.len(),
    ensures
        ({
            let (between, a) = spec_hear_all(client, h1, h1.len() as int, now);
            let (after, b) = spec_hear_all(between, h2, n, now);
            spec_hear_all(client, h1 + h2, h1.len() + n, now) == (after, a + b)
        }),
    decreases n,
{
    let (between, a) = spec_hear_all(client, h1, h1.len() as int, now);
    if n == 0 {
        lemma_hear_all_prefix(client, h1, h2, h1.len() as int, now);
        assert(a + Seq::<ActionView>::empty() =~= a);
    } else {
        lemma_hear_all_concat(client, h1, h2, n - 1, now);
        assert((h1 + h2)[h1.len() + n - 1] == h2[n - 1]);
        let (before, b) = spec_hear_all(between, h2, n - 1, now);
        let (after, c) = before.on_heard(h2[n - 1], now);
        assert(a + b + c =~= a + (b + c));
    }
}

/// What one radio session sends, another on the same channel hears: the packet comes from the
/// sender's call, to the sender's destination, by the sender's path, of which no hop is used.
pub proof fn law_radio_sessions_hear_each_other(
    sender: SessionView,
    receiver: SessionView,
    info: Seq<u8>,
    now: u128,
)
    requires
        sender.mode == Mode::Kiss && receiver.mode == Mode::Kiss,
        sender.chan == receiver.chan && sender.chan < 16,
        receiver.kiss == spec_idle(),
        sender.client.call.valid() && sender.client.tocall.valid(),
        sender.client.path.len() <= 8,
        forall|i: int|
            0 <= i < sender.client.path.len() ==> (#[trigger] sender.client.path[i]).valid(),
        7 * (2 + sender.client.path.len()) + 2 + info.len() < 2048,
    ensures
        ({
            let (after, actions) = receiver.on_bytes(sender.packet(info), now);
            (after.client, actions) == receiver.client.on_heard(
                spec_heard_of_us(
                    sender.client.call,
                    sender.client.tocall,
                    sender.client.path,
                    info,
                ),
                now,
            )
        }),
{
    let a = sender.client;
    let frame = spec_radio_frame(a.call, a.tocall, a.path, info);
    assert(frame.valid()) by {
        assert forall|i: int| 0 <= i < frame.digis.len() implies (
        #[trigger] frame.digis[i]).0.valid() by {
            assert(a.path[i].valid());
        }
    }
    law_wire_of_frame(frame, 0, 0);
    law_radio_packet_is_heard(sender.chan, a.call, a.tocall, a.path, info);
    let heard = spec_from_frame(frame);
    assert(heard.path =~= spec_heard_of_us(a.call, a.tocall, a.path, info).path);
    let all = seq![heard];
    let frames = spec_decoded(receiver.kiss, sender.packet(info));
    assert(spec_kiss_heard(frames, frames.len() as int, receiver.chan) == all);
    let (after, actions) = receiver.client.on_heard(heard, now);
    reveal_with_fuel(spec_hear_all, 2);
    assert(Seq::<ActionView>::empty() + actions =~= actions);
}

/// What one internet session sends, another hears as a packet from the internet.
pub proof fn law_internet_sessions_hear_each_other(
    sender: SessionView,
    receiver: SessionView,
    info: Seq<u8>,
    now: u128,
)
    requires
        sender.mode == Mode::AprsIs && receiver.mode == Mode::AprsIs,
        receiver.line_buf.len() == 0,
        sender.client.call.valid() && sender.client.tocall.valid(),
        !info.contains(0x0au8),
        info.len() > 0 ==> info.last() != 0x0d,
    ensures
        ({
            let (after, actions) = receiver.on_bytes(sender.packet(info), now);
            (after.client, actions) == receiver.client.on_heard(
                HeardView {
                    source: sender.client.call.text(),
                    dest: sender.client.tocall.text(),
                    path: seq![HopView { call: "TCPIP"@, used: true }],
                    info,
                    from_internet: true,
                },
                now,
            )
        }),
{
    let a = sender.client;
    let packet = sender.packet(info);
    assert(info.len() > 0 ==> info.contains(info.last()));
    law_internet_packet_is_heard(a.call, a.tocall, info);
    assert(receiver.line_buf + packet =~= packet);
    lemma_internet_packet_is_a_line(a.call, a.tocall, info);
    let pos = packet.len() - 1;
    lemma_find_from_is(packet, 0x0au8, 0, pos);
    assert(packet.take(pos + 1) =~= packet);
    assert(packet.skip(pos + 1) =~= Seq::<u8>::empty());
    let (client, actions) = spec_server_line(receiver.client, spec_trim_line_end(packet), now);
    assert(actions + Seq::<ActionView>::empty() =~= actions);
    reveal_with_fuel(spec_server_lines, 2);
}

/// Lines from the server are taken one by one, in order.
pub proof fn law_server_lines_are_taken_in_order(
    client: ClientView,
    line: Seq<u8>,
    rest: Seq<u8>,
    now: u128,
)
    requires
        !line.contains(0x0au8),
    ensures
        ({
            let (between, first) = spec_server_line(
                client,
                spec_trim_line_end(line.push(0x0au8)),
                now,
            );
            let (after, second) = spec_server_lines(between, rest, now);
            spec_server_lines(client, line.push(0x0au8) + rest, now) == (after, first + second)
        }),
{
    let buf = line.push(0x0au8) + rest;
    let pos = line.len() as int;
    assert forall|i: int| 0 <= i < pos implies buf[i] != 0x0au8 by {
        assert(buf[i] == line[i]);
        assert(line.contains(line[i]));
    }
    lemma_find_from_is(buf, 0x0au8, 0, pos);
    assert(buf.take(pos + 1) =~= line.push(0x0au8));
    assert(buf.skip(pos + 1) =~= rest);
}

/// A session opens as asked: with the call, destination and path that are named, in the mode that is
/// named, on the channel, with the passcode that was given or else the call's own, and with a filter
/// that asks for messages to the call.
pub proof fn law_session_opens_as_asked(
    call: Seq<char>,
    mode: Seq<char>,
    path: Seq<char>,
    tocall: Seq<char>,
    chan: u8,
    passcode_opt: Option<u16>,
    filter: Seq<char>,
    monitor: bool,
    raw: bool,
    now: u128,
)
    ensures
        ({
            let opened = spec_new_session(
                call,
                mode,
                path,
                tocall,
                chan,
                passcode_opt,
                filter,
                monitor,
                raw,
                now,
            );
            &&& opened is Ok <==> spec_parse_address(call) is Ok && spec_parse_address(tocall) is Ok
                && spec_parse_path(path) is Ok && (mode == "kiss"@ || mode == "aprs-is"@)
            &&& opened matches Ok(s) ==> {
                &&& spec_parse_address(call) matches Ok(a) && s.client.call == a && s.passcode
                    == match passcode_opt {
                    Some(code) => code,
                    None => spec_passcode(a.call),
                } && s.filter == spec_message_group_filter(a, filter)
                &&& spec_parse_address(tocall) matches Ok(a) && s.client.tocall == a
                &&& spec_parse_path(path) matches Ok(p) && s.client.path == p
                &&& mode == "kiss"@ ==> s.mode == Mode::Kiss && s.client.radio
                &&& mode == "aprs-is"@ ==> s.mode == Mode::AprsIs && !s.client.radio
                &&& s.chan == chan && s.client.monitor == monitor && s.client.raw == raw
                &&& s.client.pending.len() == 0 && s.line_buf.len() == 0 && s.kiss == spec_idle()
            }
        }),
{
    reveal_strlit("kiss");
    reveal_strlit("aprs-is");
    assert("kiss"@.len() == 4 && "aprs-is"@.len() == 7);
}

/// What the browser is told: packets to send as base64, messages with their kind and text, and the
/// wish to quit.
pub proof fn law_words_to_the_browser(
    session: SessionView,
    figures: FiguresView,
    info: Seq<u8>,
    a: Seq<char>,
    id: Seq<char>,
    text: Seq<char>,
    route: Seq<char>,
    packet: PacketView,
    n: u32,
    max: u32,
)
    ensures
        ({
            let log = |msg: UiMsgView| session.encode_action(ActionView::Ui(msg), figures);
            let said = |kind: Seq<char>, text: Seq<char>| JsActionView::Log { kind, text };
            let count = spec_decimal(n as nat);
            &&& session.encode_action(ActionView::Send(info), figures) == (JsActionView::Send {
                data: spec_base64(session.packet(info)),
            })
            &&& session.encode_action(ActionView::Quit, figures) is Quit
            &&& log(UiMsgView::Info(text)) == said("info"@, text)
            &&& log(UiMsgView::Print(text)) == said("info"@, text)
            &&& log(UiMsgView::Error(text)) == said("error"@, text)
            &&& log(UiMsgView::Raw(text)) == said("mon"@, text)
            &&& log(UiMsgView::Sent { to: a, id, text, attempt: n, max }) == said(
                "sent"@,
                "→ "@ + a + " #"@ + id + " "@ + text + "  try "@ + count + "/"@ + spec_decimal(
                    max as nat,
                ),
            )
            &&& log(UiMsgView::Retry { to: a, id, attempt: n, max }) == said(
                "sent"@,
                "→ "@ + a + " #"@ + id + "  retry "@ + count + "/"@ + spec_decimal(max as nat),
            )
            &&& log(UiMsgView::Repeated { digi: a, id }) == said(
                "repeat"@,
                "↻ "@ + a + " repeated your #"@ + id,
            )
            &&& log(UiMsgView::Delivered { from: a, id, tries: 1 }) == said(
                "ok"@,
                "✓ "@ + a + " #"@ + id + " delivered after "@ + spec_decimal(1) + " try"@,
            )
            &&& n != 1 ==> log(UiMsgView::Delivered { from: a, id, tries: n }) == said(
                "ok"@,
                "✓ "@ + a + " #"@ + id + " delivered after "@ + count + " tries"@,
            )
            &&& log(UiMsgView::Rejected { from: a, id }) == said(
                "fail"@,
                "✗ "@ + a + " #"@ + id + " rejected"@,
            )
            &&& log(UiMsgView::GaveUp { to: a, id, tries: n }) == said(
                "fail"@,
                "✗ "@ + a + " #"@ + id + " not delivered (no ack after "@ + count + " tries)"@,
            )
            &&& log(UiMsgView::Cancelled { to: a, id }) == said(
                "fail"@,
                "✗ "@ + a + " #"@ + id + " cancelled"@,
            )
            &&& log(UiMsgView::Incoming { from: a, text, id: Some(id), route }) == said(
                "in"@,
                "← "@ + a + " "@ + text + "  #"@ + id + " "@ + route,
            )
            &&& log(UiMsgView::Incoming { from: a, text, id: None, route }) == said(
                "in"@,
                "← "@ + a + " "@ + text + "  "@ + route,
            )
            &&& log(UiMsgView::Monitor { station: a, packet, route }) == said(
                "mon"@,
                "· "@ + a + " "@ + packet.describe(figures) + "  "@ + route,
            )
        }),
{
}

/// A comment of the server is a notice, without `#` and the white space around it, and an empty one
/// is nothing; another line is a packet, or nothing where it is none. Only a packet changes the
/// client.
pub proof fn law_server_lines_are_notices_or_packets(
    client: ClientView,
    comment: Seq<u8>,
    line: Seq<u8>,
    now: u128,
)
    requires
        line.len() == 0 || line[0] != '#' as u8,
    ensures
        ({
            let text = spec_trim(spec_text_of(comment));
            spec_server_line(client, seq!['#' as u8] + comment, now) == (
                client,
                if text.len() > 0 {
                    client.on_notice(text)
                } else {
                    seq![]
                },
            )
        }),
        spec_server_line(client, line, now) == match spec_parse_tnc2(line) {
            Some(heard) => client.on_heard(heard, now),
            None => (client, seq![]),
        },
{
    assert((seq!['#' as u8] + comment).skip(1) =~= comment);
}

/// Commands and timers of a session are those of its client.
pub proof fn law_sessions_do_what_their_client_does(
    session: SessionView,
    line: Seq<char>,
    now: u128,
)
    ensures
        ({
            let (after, actions) = session.on_command(line, now);
            (after.client, actions) == session.client.on_command(line, now) && after.chan
                == session.chan && after.mode == session.mode
        }),
        ({
            let (after, actions) = session.poll(now);
            (after.client, actions) == session.client.poll(now) && after.chan == session.chan
                && after.mode == session.mode
        }),
{
}

} // verus!
