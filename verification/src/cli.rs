//! The command line program: its arguments and its event loop.
//!
//! Reading arguments, lines and links, and printing, is left to the caller.

use vstd::prelude::*;
use vstd::utf8::encode_utf8;

use crate::action::{none, one, spec_actions, Action, ActionView, UiMsg, UiMsgView};
use crate::ax25::{
    parse_path, spec_parse_address, spec_parse_path, spec_path, Address, AddressView, MAX_DIGIS,
};
use crate::client::{
    message_group_filter, spec_info, spec_message_group_filter, spec_poll_actions,
    spec_poll_one_actions, Client, ClientView, OutgoingView, COMMANDS,
};
use crate::clock::{since, spec_since, MAX_TIME};
use crate::encoding::{debug_text, spec_debug_text};
use crate::heard::{passcode, spec_passcode, HeardView};
use crate::link::{spec_keepalive_line, Link, LinkEvent, LinkEventView};
use crate::numeral::{decimal, parse_up_to, spec_decimal, spec_parse_up_to};
use crate::text::{chars_of, same_text, spec_texts};

verus! {

/// After stdin closes and all messages settle, keep acking late replies.
pub const LINGER: u128 = 30_000_000_000;

pub const IDLE_WAIT: u128 = 3_600_000_000_000;

pub const DEFAULT_KISS: &'static str = "127.0.0.1:8001";

pub const DEFAULT_APRS_IS: &'static str = "euro.aprs2.net:14580";

pub const DEFAULT_PATH: &'static str = "WIDE1-1,WIDE2-1";

pub const DEFAULT_TOCALL: &'static str = "APZRST";

pub const USAGE: &'static str = "\
usage: aprsmsg --call MYCALL [radio or internet options] [--monitor] [--no-color]

  --call MYCALL      your callsign or callsign-SSID, e.g. SA0KAM or SA0KAM-1
                     (required; bare callsign receives messages to every SSID)

radio (default), through Direwolf:
  --kiss HOST:PORT   Direwolf KISS TCP port                   (default 127.0.0.1:8001)
  --chan N           radio channel, 0 = first                 (default 0)
  --path P           digipeater path, or \"none\"               (default WIDE1-1,WIDE2-1)

internet, no radio needed:
  --aprs-is          connect to an APRS-IS server instead of Direwolf
  --server HOST:PORT APRS-IS server                           (default euro.aprs2.net:14580)
  --passcode N       APRS-IS passcode                         (default: computed from --call)
  --filter F         extra server filter for the monitor, e.g. r/59.33/18.07/50
                     (messages to MYCALL are always received)

common:
  --tocall T         AX.25 destination (software identifier)  (default APZRST)
  --monitor          show other stations' packets from the start
  --no-color         plain output (also when NO_COLOR is set or output is piped)";

// ---------------------------------------------------------------------------
// Configuration
// ---------------------------------------------------------------------------

pub enum Transport {
    Radio { kiss: String, chan: u8 },
    Internet { server: String, passcode: u16, filter: String },
}

pub enum TransportView {
    Radio { kiss: Seq<char>, chan: u8 },
    Internet { server: Seq<char>, passcode: u16, filter: Seq<char> },
}

impl View for Transport {
    type V = TransportView;

    open spec fn view(&self) -> TransportView {
        match *self {
            Transport::Radio { kiss, chan } => TransportView::Radio { kiss: kiss@, chan },
            Transport::Internet { server, passcode, filter } => TransportView::Internet {
                server: server@,
                passcode,
                filter: filter@,
            },
        }
    }
}

pub struct Config {
    pub call: Address,
    pub transport: Transport,
    pub path: Vec<Address>,
    pub tocall: Address,
    pub monitor: bool,
    pub no_color: bool,
}

pub struct ConfigView {
    pub call: AddressView,
    pub transport: TransportView,
    pub path: Seq<AddressView>,
    pub tocall: AddressView,
    pub monitor: bool,
    pub no_color: bool,
}

impl View for Config {
    type V = ConfigView;

    open spec fn view(&self) -> ConfigView {
        ConfigView {
            call: self.call@,
            transport: self.transport@,
            path: spec_path(self.path@),
            tocall: self.tocall@,
            monitor: self.monitor,
            no_color: self.no_color,
        }
    }
}

/// What the arguments ask for.
pub enum Invocation {
    Help,
    Run(Config),
}

pub enum InvocationView {
    Help,
    Run(ConfigView),
}

impl View for Invocation {
    type V = InvocationView;

    open spec fn view(&self) -> InvocationView {
        match *self {
            Invocation::Help => InvocationView::Help,
            Invocation::Run(config) => InvocationView::Run(config@),
        }
    }
}

/// The arguments as they were given.
struct Options {
    call: Option<String>,
    kiss: String,
    chan: u8,
    path: String,
    aprs_is: bool,
    server: String,
    passcode: Option<u16>,
    filter: String,
    tocall: String,
    monitor: bool,
    no_color: bool,
}

pub struct OptionsView {
    pub call: Option<Seq<char>>,
    pub kiss: Seq<char>,
    pub chan: u8,
    pub path: Seq<char>,
    pub aprs_is: bool,
    pub server: Seq<char>,
    pub passcode: Option<u16>,
    pub filter: Seq<char>,
    pub tocall: Seq<char>,
    pub monitor: bool,
    pub no_color: bool,
}

impl View for Options {
    type V = OptionsView;

    closed spec fn view(&self) -> OptionsView {
        OptionsView {
            call: match self.call {
                Some(call) => Some(call@),
                None => None,
            },
            kiss: self.kiss@,
            chan: self.chan,
            path: self.path@,
            aprs_is: self.aprs_is,
            server: self.server@,
            passcode: self.passcode,
            filter: self.filter@,
            tocall: self.tocall@,
            monitor: self.monitor,
            no_color: self.no_color,
        }
    }
}

pub open spec fn spec_defaults() -> OptionsView {
    OptionsView {
        call: None,
        kiss: DEFAULT_KISS@,
        chan: 0,
        path: DEFAULT_PATH@,
        aprs_is: false,
        server: DEFAULT_APRS_IS@,
        passcode: None,
        filter: Seq::empty(),
        tocall: DEFAULT_TOCALL@,
        monitor: false,
        no_color: false,
    }
}

/// Options that are followed by a value.
pub open spec fn spec_takes_value(name: Seq<char>) -> bool {
    ||| name == "--call"@
    ||| name == "--kiss"@
    ||| name == "--chan"@
    ||| name == "--path"@
    ||| name == "--server"@
    ||| name == "--passcode"@
    ||| name == "--filter"@
    ||| name == "--tocall"@
}

/// The options with one more value.
pub open spec fn spec_set(o: OptionsView, name: Seq<char>, value: Seq<char>) -> Result<
    OptionsView,
    Seq<char>,
> {
    if name == "--call"@ {
        Ok(OptionsView { call: Some(value), ..o })
    } else if name == "--kiss"@ {
        Ok(OptionsView { kiss: value, ..o })
    } else if name == "--chan"@ {
        match spec_parse_up_to(value, 15) {
            Some(chan) => Ok(OptionsView { chan: chan as u8, ..o }),
            None => Err("--chan must be 0-15"@),
        }
    } else if name == "--path"@ {
        Ok(OptionsView { path: value, ..o })
    } else if name == "--server"@ {
        Ok(OptionsView { server: value, ..o })
    } else if name == "--passcode"@ {
        match spec_parse_up_to(value, 65535) {
            Some(code) => Ok(OptionsView { passcode: Some(code as u16), ..o }),
            None => Err("--passcode must be a number"@),
        }
    } else if name == "--filter"@ {
        Ok(OptionsView { filter: value, ..o })
    } else {
        Ok(OptionsView { tocall: value, ..o })
    }
}

/// The options with the arguments from the `i`th on, `None` where they ask for help.
pub open spec fn spec_read_args(args: Seq<Seq<char>>, i: int, o: OptionsView) -> Result<
    Option<OptionsView>,
    Seq<char>,
>
    decreases args.len() - i,
{
    if i < 0 || i >= args.len() {
        Ok(Some(o))
    } else if spec_takes_value(args[i]) {
        if i + 1 >= args.len() {
            Err(args[i] + " needs a value"@)
        } else {
            match spec_set(o, args[i], args[i + 1]) {
                Ok(next) => spec_read_args(args, i + 2, next),
                Err(e) => Err(e),
            }
        }
    } else if args[i] == "--aprs-is"@ {
        spec_read_args(args, i + 1, OptionsView { aprs_is: true, ..o })
    } else if args[i] == "--monitor"@ {
        spec_read_args(args, i + 1, OptionsView { monitor: true, ..o })
    } else if args[i] == "--no-color"@ {
        spec_read_args(args, i + 1, OptionsView { no_color: true, ..o })
    } else if args[i] == "-h"@ || args[i] == "--help"@ {
        Ok(None)
    } else {
        Err("unknown argument "@ + spec_debug_text(args[i]))
    }
}

pub open spec fn spec_transport(o: OptionsView, call: AddressView) -> TransportView {
    if o.aprs_is {
        TransportView::Internet {
            server: o.server,
            passcode: match o.passcode {
                Some(code) => code,
                None => spec_passcode(call.call),
            },
            filter: spec_message_group_filter(call, o.filter),
        }
    } else {
        TransportView::Radio { kiss: o.kiss, chan: o.chan }
    }
}

/// The configuration that the options make, or the first thing wrong with them.
pub open spec fn spec_configure(o: OptionsView) -> Result<ConfigView, Seq<char>> {
    match o.call {
        None => Err("--call is required"@),
        Some(text) => match (
            spec_parse_address(text),
            spec_parse_path(o.path),
            spec_parse_address(o.tocall),
        ) {
            (Err(e), _, _) => Err(e),
            (_, Err(e), _) => Err(e),
            (Ok(call), Ok(path), tocall) => if path.len() > MAX_DIGIS {
                Err("--path allows at most 8 digipeaters"@)
            } else {
                match tocall {
                    Ok(tocall) => Ok(
                        ConfigView {
                            call,
                            transport: spec_transport(o, call),
                            path,
                            tocall,
                            monitor: o.monitor,
                            no_color: o.no_color,
                        },
                    ),
                    Err(e) => Err(e),
                }
            },
        },
    }
}

pub open spec fn spec_parse_args(args: Seq<Seq<char>>) -> Result<InvocationView, Seq<char>> {
    match spec_read_args(args, 0, spec_defaults()) {
        Ok(Some(o)) => match spec_configure(o) {
            Ok(config) => Ok(InvocationView::Run(config)),
            Err(e) => Err(e),
        },
        Ok(None) => Ok(InvocationView::Help),
        Err(e) => Err(e),
    }
}

fn defaults() -> (r: Options)
    ensures
        r@ == spec_defaults(),
{
    let filter = String::new();
    assert(filter@ =~= Seq::<char>::empty());
    Options {
        call: None,
        kiss: String::from_str(DEFAULT_KISS),
        chan: 0,
        path: String::from_str(DEFAULT_PATH),
        aprs_is: false,
        server: String::from_str(DEFAULT_APRS_IS),
        passcode: None,
        filter,
        tocall: String::from_str(DEFAULT_TOCALL),
        monitor: false,
        no_color: false,
    }
}

fn takes_value(name: &str) -> (r: bool)
    ensures
        r == spec_takes_value(name@),
{
    same_text(name, "--call") || same_text(name, "--kiss") || same_text(name, "--chan")
        || same_text(name, "--path") || same_text(name, "--server") || same_text(
        name,
        "--passcode",
    ) || same_text(name, "--filter") || same_text(name, "--tocall")
}

impl Options {
    fn set(&mut self, name: &str, value: &String) -> (r: Result<(), String>)
        ensures
            match r {
                Ok(_) => spec_set(old(self)@, name@, value@) == Ok::<OptionsView, Seq<char>>(
                    final(self)@,
                ),
                Err(e) => spec_set(old(self)@, name@, value@) == Err::<OptionsView, Seq<char>>(e@),
            },
    {
        if same_text(name, "--call") {
            self.call = Some(value.clone());
        } else if same_text(name, "--kiss") {
            self.kiss = value.clone();
        } else if same_text(name, "--chan") {
            match parse_up_to(chars_of(value.as_str()).as_slice(), 15) {
                Some(chan) => self.chan = chan as u8,
                None => return Err(String::from_str("--chan must be 0-15")),
            }
        } else if same_text(name, "--path") {
            self.path = value.clone();
        } else if same_text(name, "--server") {
            self.server = value.clone();
        } else if same_text(name, "--passcode") {
            match parse_up_to(chars_of(value.as_str()).as_slice(), 65535) {
                Some(code) => self.passcode = Some(code as u16),
                None => return Err(String::from_str("--passcode must be a number")),
            }
        } else if same_text(name, "--filter") {
            self.filter = value.clone();
        } else {
            self.tocall = value.clone();
        }
        Ok(())
    }

    fn transport(self, call: &Address) -> (r: Transport)
        ensures
            r@ == spec_transport(self@, call@),
    {
        if self.aprs_is {
            Transport::Internet {
                server: self.server,
                passcode: match self.passcode {
                    Some(code) => code,
                    None => passcode(call.call.as_str()),
                },
                filter: message_group_filter(call, self.filter.as_str()),
            }
        } else {
            Transport::Radio { kiss: self.kiss, chan: self.chan }
        }
    }

    fn configure(self) -> (r: Result<Config, String>)
        ensures
            match r {
                Ok(config) => spec_configure(self@) == Ok::<ConfigView, Seq<char>>(config@),
                Err(e) => spec_configure(self@) == Err::<ConfigView, Seq<char>>(e@),
            },
    {
        let call: Address = match &self.call {
            Some(text) => match Address::parse(text.as_str()) {
                Ok(call) => call,
                Err(e) => return Err(e),
            },
            None => return Err(String::from_str("--call is required")),
        };
        let path: Vec<Address> = match parse_path(self.path.as_str()) {
            Ok(path) => path,
            Err(e) => return Err(e),
        };
        if path.len() > MAX_DIGIS {
            return Err(String::from_str("--path allows at most 8 digipeaters"));
        }
        let tocall: Address = match Address::parse(self.tocall.as_str()) {
            Ok(tocall) => tocall,
            Err(e) => return Err(e),
        };
        let monitor: bool = self.monitor;
        let no_color: bool = self.no_color;
        let transport = self.transport(&call);
        Ok(Config { call, transport, path, tocall, monitor, no_color })
    }
}

/// The value behind the option at `i`.
fn value_of(args: &Vec<String>, i: usize) -> (r: Result<&String, String>)
    requires
        i < args@.len(),
    ensures
        match r {
            Ok(value) => i + 1 < args@.len() && *value == args@[i + 1],
            Err(e) => i + 1 >= args@.len() && e@ == args@[i as int]@ + " needs a value"@,
        },
{
    let n: usize = args.len();
    if i + 1 < n {
        Ok(&args[i + 1])
    } else {
        let mut e = args[i].clone();
        e.append(" needs a value");
        Err(e)
    }
}

/// The options that the arguments give, `None` where they ask for help.
fn read_args(args: &Vec<String>) -> (r: Result<Option<Options>, String>)
    ensures
        match r {
            Ok(Some(o)) => spec_read_args(spec_texts(args@), 0, spec_defaults()) == Ok::<
                Option<OptionsView>,
                Seq<char>,
            >(Some(o@)),
            Ok(None) => spec_read_args(spec_texts(args@), 0, spec_defaults()) == Ok::<
                Option<OptionsView>,
                Seq<char>,
            >(None),
            Err(e) => spec_read_args(spec_texts(args@), 0, spec_defaults()) == Err::<
                Option<OptionsView>,
                Seq<char>,
            >(e@),
        },
{
    let ghost all = spec_texts(args@);
    let mut o = defaults();
    let mut i: usize = 0;
    while i < args.len()
        invariant
            all == spec_texts(args@),
            i <= args@.len(),
            spec_read_args(all, 0, spec_defaults()) == spec_read_args(all, i as int, o@),
        decreases args@.len() - i,
    {
        let arg = args[i].as_str();
        assert(i < args.len());
        assert(all[i as int] == arg@);
        if takes_value(arg) {
            let value: &String = match value_of(args, i) {
                Ok(value) => value,
                Err(e) => return Err(e),
            };
            assert(all[i + 1] == value@);
            match o.set(arg, value) {
                Ok(_) => {},
                Err(e) => return Err(e),
            }
            i = i + 2;
        } else if same_text(arg, "--aprs-is") {
            o.aprs_is = true;
            i = i + 1;
        } else if same_text(arg, "--monitor") {
            o.monitor = true;
            i = i + 1;
        } else if same_text(arg, "--no-color") {
            o.no_color = true;
            i = i + 1;
        } else if same_text(arg, "-h") || same_text(arg, "--help") {
            return Ok(None);
        } else {
            let mut e = String::from_str("unknown argument ");
            e.append(debug_text(arg).as_str());
            return Err(e);
        }
    }
    Ok(Some(o))
}

/// Reads the arguments, without the name of the program.
pub fn parse_args(args: &Vec<String>) -> (r: Result<Invocation, String>)
    ensures
        match r {
            Ok(invocation) => spec_parse_args(spec_texts(args@)) == Ok::<
                InvocationView,
                Seq<char>,
            >(invocation@),
            Err(e) => spec_parse_args(spec_texts(args@)) == Err::<InvocationView, Seq<char>>(e@),
        },
{
    match read_args(args) {
        Ok(Some(o)) => match o.configure() {
            Ok(config) => Ok(Invocation::Run(config)),
            Err(e) => Err(e),
        },
        Ok(None) => Ok(Invocation::Help),
        Err(e) => Err(e),
    }
}

/// What is printed when help is asked for.
pub fn help_text() -> (r: String)
    ensures
        r@ == USAGE@ + "\n\n"@ + COMMANDS@,
{
    let mut out = String::from_str(USAGE);
    out.append("\n\n");
    out.append(COMMANDS);
    out
}

pub open spec fn spec_description(transport: TransportView) -> Seq<char> {
    match transport {
        TransportView::Radio { kiss, chan } => "radio via Direwolf "@ + kiss + ", channel "@
            + spec_decimal(chan as nat),
        TransportView::Internet { server, filter, .. } => "APRS-IS "@ + server + ", filter "@
            + filter,
    }
}

impl Config {
    pub fn is_radio(&self) -> (r: bool)
        ensures
            r == (self@.transport is Radio),
    {
        match &self.transport {
            Transport::Radio { .. } => true,
            Transport::Internet { .. } => false,
        }
    }

    /// The link in words.
    pub fn description(&self) -> (r: String)
        ensures
            r@ == spec_description(self@.transport),
    {
        match &self.transport {
            Transport::Radio { kiss, chan } => {
                let mut out = String::from_str("radio via Direwolf ");
                out.append(kiss.as_str());
                out.append(", channel ");
                out.append(decimal(*chan as u128).as_str());
                out
            },
            Transport::Internet { server, filter, .. } => {
                let mut out = String::from_str("APRS-IS ");
                out.append(server.as_str());
                out.append(", filter ");
                out.append(filter.as_str());
                out
            },
        }
    }

    /// The first line that is shown.
    pub fn banner(&self) -> (r: String)
        ensures
            r@ == self@.call.text() + " on "@ + spec_description(self@.transport) + " — type help"@,
    {
        let mut out = self.call.to_string();
        out.append(" on ");
        out.append(self.description().as_str());
        out.append(" — type help");
        out
    }
}

// ---------------------------------------------------------------------------
// Event loop
// ---------------------------------------------------------------------------

pub enum Event {
    Link(LinkEvent),
    Line(String),
    InputClosed,
    /// Nothing happened until the next deadline.
    Timeout,
    /// Nothing can happen any more.
    Disconnected,
}

pub enum EventView {
    Link(LinkEventView),
    Line(Seq<char>),
    InputClosed,
    Timeout,
    Disconnected,
}

impl View for Event {
    type V = EventView;

    open spec fn view(&self) -> EventView {
        match *self {
            Event::Link(event) => EventView::Link(event@),
            Event::Line(line) => EventView::Line(line@),
            Event::InputClosed => EventView::InputClosed,
            Event::Timeout => EventView::Timeout,
            Event::Disconnected => EventView::Disconnected,
        }
    }
}

/// Whether the program goes on.
pub enum Outcome {
    Continue,
    Stop,
    Fail(String),
}

pub enum OutcomeView {
    Continue,
    Stop,
    Fail(Seq<char>),
}

impl View for Outcome {
    type V = OutcomeView;

    open spec fn view(&self) -> OutcomeView {
        match *self {
            Outcome::Continue => OutcomeView::Continue,
            Outcome::Stop => OutcomeView::Stop,
            Outcome::Fail(reason) => OutcomeView::Fail(reason@),
        }
    }
}

/// Index of the first request to quit at or after `from`, or the number of actions.
pub open spec fn spec_quit_at(actions: Seq<ActionView>, from: int) -> int
    decreases actions.len() - from,
{
    if from < 0 || from >= actions.len() {
        actions.len() as int
    } else if actions[from] is Quit {
        from
    } else {
        spec_quit_at(actions, from + 1)
    }
}

/// The actions that come before a request to quit, and whether there is one.
pub open spec fn spec_before_quit(actions: Seq<ActionView>) -> (Seq<ActionView>, bool) {
    let at = spec_quit_at(actions, 0);
    (actions.take(at), at < actions.len())
}

/// Where the event loop is. Times are those of any clock that does not go backwards, the same one
/// in all calls.
pub struct Run {
    pub input_open: bool,
    pub linger_until: Option<u128>,
}

impl Run {
    pub open spec fn spec_new() -> Run {
        Run { input_open: true, linger_until: None }
    }

    pub open spec fn spec_sooner(a: int, b: int) -> int {
        if a <= b {
            a
        } else {
            b
        }
    }

    /// How long to wait for the next event, given how long until a retry is due and when the link
    /// and the lingering end want attention.
    pub open spec fn spec_wait(
        self,
        until_retry: Option<u128>,
        link_at: Option<u128>,
        now: u128,
    ) -> int {
        let first = match until_retry {
            Some(span) => Run::spec_sooner(IDLE_WAIT as int, span as int),
            None => IDLE_WAIT as int,
        };
        let second = match link_at {
            Some(at) => Run::spec_sooner(first, spec_since(at, now)),
            None => first,
        };
        match self.linger_until {
            Some(at) => Run::spec_sooner(second, spec_since(at, now)),
            None => second,
        }
    }

    /// What an event leads to: the loop and the client after it, the actions to apply, and
    /// whether to go on.
    pub open spec fn spec_on_event(self, client: ClientView, event: EventView, now: u128) -> (
        Run,
        ClientView,
        Seq<ActionView>,
        OutcomeView,
    ) {
        match event {
            EventView::Link(LinkEventView::Heard(heard)) => {
                let (after, actions) = client.on_heard(heard, now);
                (self, after, spec_before_quit(actions).0, OutcomeView::Continue)
            },
            EventView::Link(LinkEventView::Notice(notice)) => (
                self,
                client,
                spec_before_quit(client.on_notice(notice)).0,
                OutcomeView::Continue,
            ),
            EventView::Link(LinkEventView::Closed(reason)) => (
                self,
                client,
                Seq::empty(),
                OutcomeView::Fail(reason),
            ),
            EventView::Line(line) => {
                let (after, actions) = client.on_command(line, now);
                let (kept, quit) = spec_before_quit(actions);
                (
                    self,
                    after,
                    kept,
                    if quit {
                        OutcomeView::Stop
                    } else {
                        OutcomeView::Continue
                    },
                )
            },
            EventView::InputClosed => if client.pending.len() == 0 {
                (self, client, Seq::empty(), OutcomeView::Stop)
            } else {
                (
                    Run { input_open: false, ..self },
                    client,
                    spec_info(
                        "input closed; waiting for "@ + spec_decimal(client.pending.len())
                            + " pending message(s)"@,
                    ),
                    OutcomeView::Continue,
                )
            },
            EventView::Timeout => (self, client, Seq::empty(), OutcomeView::Continue),
            EventView::Disconnected => (self, client, Seq::empty(), OutcomeView::Stop),
        }
    }

    /// The loop after timers have run, and whether it is over: once input is closed and nothing
    /// waits for an ack, it lingers for a while and then ends.
    pub open spec fn spec_settle(self, pending: nat, now: u128) -> (Run, bool) {
        if self.input_open || pending > 0 {
            (self, false)
        } else {
            let until = match self.linger_until {
                Some(until) => until,
                None => (now + LINGER) as u128,
            };
            (Run { linger_until: Some(until), ..self }, now >= until)
        }
    }

    /// What happens after each event: a keepalive where the link has been quiet, the client's
    /// timers, and the decision whether the loop is over. `now` is the time since the Unix epoch,
    /// `clock` that of the clock that does not go backwards.
    pub open spec fn spec_on_timers(
        self,
        client: ClientView,
        link: Link,
        now: u128,
        clock: u128,
    ) -> (Run, ClientView, Link, Option<Seq<u8>>, Seq<ActionView>, bool) {
        let quiet = link.spec_keepalive_due(clock);
        let (after, actions) = client.poll(now);
        let (run, over) = self.spec_settle(after.pending.len(), clock);
        (
            run,
            after,
            if quiet {
                link.after_write(clock)
            } else {
                link
            },
            if quiet {
                Some(spec_keepalive_line())
            } else {
                None
            },
            spec_before_quit(actions).0,
            over,
        )
    }

    pub fn new() -> (r: Run)
        ensures
            r == Run::spec_new(),
    {
        Run { input_open: true, linger_until: None }
    }

    /// How long to wait for the next event.
    pub fn wait(&self, until_retry: Option<u128>, link_at: Option<u128>, now: u128) -> (r: u128)
        ensures
            r == self.spec_wait(until_retry, link_at, now),
    {
        let mut timeout: u128 = IDLE_WAIT;
        if let Some(span) = until_retry {
            timeout = sooner(timeout, span);
        }
        if let Some(at) = link_at {
            timeout = sooner(timeout, since(at, now));
        }
        if let Some(at) = self.linger_until {
            timeout = sooner(timeout, since(at, now));
        }
        timeout
    }

    /// Handles an event. Returns the actions to apply and whether to go on. `now` is the time
    /// since the Unix epoch.
    pub fn on_event(&mut self, client: &mut Client, event: Event, now: u128) -> (r: (
        Vec<Action>,
        Outcome,
    ))
        requires
            old(client).wf(),
            now <= MAX_TIME,
        ensures
            final(client).wf(),
            (*final(self), final(client)@, spec_actions(r.0@), r.1@) == old(self).spec_on_event(
                old(client)@,
                event@,
                now,
            ),
    {
        match event {
            Event::Link(LinkEvent::Heard(heard)) => {
                let (kept, _) = before_quit(client.on_heard_at(heard, now));
                (kept, Outcome::Continue)
            },
            Event::Link(LinkEvent::Notice(notice)) => {
                let (kept, _) = before_quit(client.on_notice(notice.as_str()));
                (kept, Outcome::Continue)
            },
            Event::Link(LinkEvent::Closed(reason)) => (none(), Outcome::Fail(reason)),
            Event::Line(line) => {
                let (kept, quit) = before_quit(client.on_command_at(line.as_str(), now));
                (
                    kept,
                    if quit {
                        Outcome::Stop
                    } else {
                        Outcome::Continue
                    },
                )
            },
            Event::InputClosed => {
                let waiting: usize = client.pending_count();
                if waiting == 0 {
                    return (none(), Outcome::Stop);
                }
                self.input_open = false;
                let mut text = String::from_str("input closed; waiting for ");
                text.append(decimal(waiting as u128).as_str());
                text.append(" pending message(s)");
                (one(Action::Ui(UiMsg::Info(text))), Outcome::Continue)
            },
            Event::Timeout => (none(), Outcome::Continue),
            Event::Disconnected => (none(), Outcome::Stop),
        }
    }

    /// Runs what is due after each event. Returns a keepalive to write first, the actions to apply
    /// then, and whether the loop is over after that.
    pub fn on_timers(&mut self, client: &mut Client, link: &mut Link, now: u128, clock: u128) -> (r: (
        Option<Vec<u8>>,
        Vec<Action>,
        bool,
    ))
        requires
            old(client).wf(),
            now <= MAX_TIME,
            clock <= MAX_TIME,
        ensures
            final(client).wf(),
            (
                *final(self),
                final(client)@,
                *final(link),
                match r.0 {
                    Some(line) => Some(line@),
                    None => None,
                },
                spec_actions(r.1@),
                r.2,
            ) == old(self).spec_on_timers(old(client)@, *old(link), now, clock),
    {
        let keepalive = link.maintain(clock);
        let (kept, _) = before_quit(client.poll_at(now));
        let over: bool = self.settle(client.pending_count(), clock);
        (keepalive, kept, over)
    }

    /// Decides after timers have run whether the loop is over.
    pub fn settle(&mut self, pending: usize, now: u128) -> (r: bool)
        requires
            now <= MAX_TIME,
        ensures
            (*final(self), r) == old(self).spec_settle(pending as nat, now),
    {
        if self.input_open || pending > 0 {
            return false;
        }
        let until: u128 = match self.linger_until {
            Some(until) => until,
            None => now + LINGER,
        };
        self.linger_until = Some(until);
        now >= until
    }
}

fn sooner(a: u128, b: u128) -> (r: u128)
    ensures
        r == Run::spec_sooner(a as int, b as int),
{
    if a <= b {
        a
    } else {
        b
    }
}

/// The actions that come before a request to quit, and whether there is one.
pub fn before_quit(actions: Vec<Action>) -> (r: (Vec<Action>, bool))
    ensures
        (spec_actions(r.0@), r.1) == spec_before_quit(spec_actions(actions@)),
{
    let mut actions = actions;
    let ghost all = spec_actions(actions@);
    let n: usize = actions.len();
    let mut i: usize = 0;
    while i < n && !is_quit(&actions[i])
        invariant
            n == actions@.len(),
            i <= n,
            all == spec_actions(actions@),
            spec_quit_at(all, 0) == spec_quit_at(all, i as int),
        decreases n - i,
    {
        assert(all[i as int] == actions@[i as int]@);
        i = i + 1;
    }
    assert(i < n ==> all[i as int] == actions@[i as int]@);
    actions.truncate(i);
    assert(spec_actions(actions@) =~= all.take(i as int));
    (actions, i < n)
}

fn is_quit(action: &Action) -> (r: bool)
    ensures
        r == (action@ is Quit),
{
    match action {
        Action::Quit => true,
        _ => false,
    }
}

// ---------------------------------------------------------------------------
// Laws
// ---------------------------------------------------------------------------

/// Once input is closed and nothing waits for an ack, the loop goes on for exactly the lingering
/// time, counted from the moment when that was first seen.
pub proof fn law_loop_lingers_then_ends(run: Run, first: u128, later: u128)
    requires
        !run.input_open,
        run.linger_until is None,
        first <= later <= MAX_TIME,
    ensures
        ({
            let (lingering, over) = run.spec_settle(0, first);
            &&& !over
            &&& lingering.spec_settle(0, later) == (lingering, later >= first + LINGER)
            &&& lingering.spec_wait(None, None, first) == LINGER
        }),
{
}

/// The loop never waits longer than until the next retry, and never longer than an hour.
pub proof fn law_wait_is_bounded(
    run: Run,
    until_retry: Option<u128>,
    link_at: Option<u128>,
    now: u128,
)
    ensures
        0 <= run.spec_wait(until_retry, link_at, now) <= IDLE_WAIT,
        until_retry matches Some(span) ==> run.spec_wait(until_retry, link_at, now) <= span,
        link_at matches Some(at) ==> now + run.spec_wait(until_retry, link_at, now) <= at || now
            >= at,
        run.linger_until matches Some(at) ==> now + run.spec_wait(until_retry, link_at, now) <= at
            || now >= at,
{
}

/// A configuration that was accepted can be used: its stations are validly named and its path is
/// one that a frame can hold.
pub proof fn law_accepted_configuration_is_usable(args: Seq<Seq<char>>)
    ensures
        spec_parse_args(args) matches Ok(InvocationView::Run(config)) ==> {
            &&& config.call.valid()
            &&& config.tocall.valid()
            &&& config.path.len() <= MAX_DIGIS
            &&& forall|i: int| 0 <= i < config.path.len() ==> (#[trigger] config.path[i]).valid()
            &&& (config.transport matches TransportView::Radio { chan, .. } ==> chan <= 15)
        },
{
    lemma_chan_in_range(args, 0, spec_defaults());
    if let Ok(Some(o)) = spec_read_args(args, 0, spec_defaults()) {
        if let Ok(path) = spec_parse_path(o.path) {
            let pieces = crate::split::spec_split(o.path, ',');
            lemma_path_valid(pieces, pieces.len() as int);
        }
    }
}

proof fn lemma_chan_in_range(args: Seq<Seq<char>>, i: int, o: OptionsView)
    requires
        0 <= i,
        o.chan <= 15,
    ensures
        spec_read_args(args, i, o) matches Ok(Some(read)) ==> read.chan <= 15,
    decreases args.len() - i,
{
    if i < args.len() {
        if spec_takes_value(args[i]) {
            if i + 1 < args.len() {
                if let Ok(next) = spec_set(o, args[i], args[i + 1]) {
                    lemma_chan_in_range(args, i + 2, next);
                }
            }
        } else if args[i] == "--aprs-is"@ {
            lemma_chan_in_range(args, i + 1, OptionsView { aprs_is: true, ..o });
        } else if args[i] == "--monitor"@ {
            lemma_chan_in_range(args, i + 1, OptionsView { monitor: true, ..o });
        } else if args[i] == "--no-color"@ {
            lemma_chan_in_range(args, i + 1, OptionsView { no_color: true, ..o });
        }
    }
}

proof fn lemma_path_valid(pieces: Seq<Seq<char>>, n: int)
    ensures
        crate::ax25::spec_parse_pieces(pieces, n) matches Ok(path) ==> forall|i: int|
            0 <= i < path.len() ==> (#[trigger] path[i]).valid(),
    decreases n,
{
    if n > 0 {
        lemma_path_valid(pieces, n - 1);
    }
}

/// Without options everything is as usual: the radio by way of Direwolf on this machine, channel 0,
/// two hops of digipeaters, no monitor, colors; or, where the internet is asked for, the European
/// server.
pub proof fn law_defaults()
    ensures
        spec_read_args(seq![], 0, spec_defaults()) == Ok::<Option<OptionsView>, Seq<char>>(
            Some(
                OptionsView {
                    call: None,
                    kiss: "127.0.0.1:8001"@,
                    chan: 0,
                    path: "WIDE1-1,WIDE2-1"@,
                    aprs_is: false,
                    server: "euro.aprs2.net:14580"@,
                    passcode: None,
                    filter: seq![],
                    tocall: "APZRST"@,
                    monitor: false,
                    no_color: false,
                },
            ),
        ),
{
}

/// Each option sets what it names and nothing else, whatever options stand before it.
pub proof fn law_options_set_what_they_name(
    args: Seq<Seq<char>>,
    start: OptionsView,
    o: OptionsView,
    value: Seq<char>,
)
    requires
        spec_read_args(args, 0, start) == Ok::<Option<OptionsView>, Seq<char>>(Some(o)),
    ensures
        ({
            let with = |name: Seq<char>| spec_read_args(args + seq![name, value], 0, start);
            let flag = |name: Seq<char>| spec_read_args(args + seq![name], 0, start);
            let ok = |o: OptionsView| Ok::<Option<OptionsView>, Seq<char>>(Some(o));
            let err = |e: Seq<char>| Err::<Option<OptionsView>, Seq<char>>(e);
            &&& with("--call"@) == ok(OptionsView { call: Some(value), ..o })
            &&& flag("--call"@) == err("--call"@ + " needs a value"@)
            &&& with("--kiss"@) == ok(OptionsView { kiss: value, ..o })
            &&& flag("--kiss"@) == err("--kiss"@ + " needs a value"@)
            &&& with("--path"@) == ok(OptionsView { path: value, ..o })
            &&& flag("--path"@) == err("--path"@ + " needs a value"@)
            &&& with("--server"@) == ok(OptionsView { server: value, ..o })
            &&& flag("--server"@) == err("--server"@ + " needs a value"@)
            &&& with("--filter"@) == ok(OptionsView { filter: value, ..o })
            &&& flag("--filter"@) == err("--filter"@ + " needs a value"@)
            &&& with("--tocall"@) == ok(OptionsView { tocall: value, ..o })
            &&& flag("--tocall"@) == err("--tocall"@ + " needs a value"@)
            &&& with("--chan"@) == match spec_parse_up_to(value, 15) {
                Some(chan) => ok(OptionsView { chan: chan as u8, ..o }),
                None => err("--chan must be 0-15"@),
            }
            &&& with("--passcode"@) == match spec_parse_up_to(value, 65535) {
                Some(code) => ok(OptionsView { passcode: Some(code as u16), ..o }),
                None => err("--passcode must be a number"@),
            }
            &&& flag("--aprs-is"@) == ok(OptionsView { aprs_is: true, ..o })
            &&& flag("--monitor"@) == ok(OptionsView { monitor: true, ..o })
            &&& flag("--no-color"@) == ok(OptionsView { no_color: true, ..o })
            &&& flag("--help"@) == Ok::<Option<OptionsView>, Seq<char>>(None)
            &&& flag("-h"@) == Ok::<Option<OptionsView>, Seq<char>>(None)
        }),
{
    lemma_option_words();
    lemma_one_more(args, start, o, "--call"@, value);
    lemma_one_more(args, start, o, "--kiss"@, value);
    lemma_one_more(args, start, o, "--chan"@, value);
    lemma_one_more(args, start, o, "--path"@, value);
    lemma_one_more(args, start, o, "--server"@, value);
    lemma_one_more(args, start, o, "--passcode"@, value);
    lemma_one_more(args, start, o, "--filter"@, value);
    lemma_one_more(args, start, o, "--tocall"@, value);
    lemma_one_more(args, start, o, "--aprs-is"@, value);
    lemma_one_more(args, start, o, "--monitor"@, value);
    lemma_one_more(args, start, o, "--no-color"@, value);
    lemma_one_more(args, start, o, "-h"@, value);
    lemma_one_more(args, start, o, "--help"@, value);
}

/// One more option, with and without a value.
proof fn lemma_one_more(
    args: Seq<Seq<char>>,
    start: OptionsView,
    o: OptionsView,
    name: Seq<char>,
    value: Seq<char>,
)
    requires
        spec_read_args(args, 0, start) == Ok::<Option<OptionsView>, Seq<char>>(Some(o)),
    ensures
        spec_takes_value(name) ==> spec_read_args(args + seq![name, value], 0, start)
            == match spec_set(o, name, value) {
            Ok(next) => Ok::<Option<OptionsView>, Seq<char>>(Some(next)),
            Err(e) => Err(e),
        },
        spec_read_args(args + seq![name], 0, start) == if spec_takes_value(name) {
            Err::<Option<OptionsView>, Seq<char>>(name + " needs a value"@)
        } else if name == "--aprs-is"@ {
            Ok(Some(OptionsView { aprs_is: true, ..o }))
        } else if name == "--monitor"@ {
            Ok(Some(OptionsView { monitor: true, ..o }))
        } else if name == "--no-color"@ {
            Ok(Some(OptionsView { no_color: true, ..o }))
        } else if name == "-h"@ || name == "--help"@ {
            Ok(None)
        } else {
            Err("unknown argument "@ + spec_debug_text(name))
        },
{
    let n = args.len() as int;
    let two = args + seq![name, value];
    let one = args + seq![name];
    lemma_read_more(args, seq![name, value], 0, start);
    lemma_read_more(args, seq![name], 0, start);
    assert(two.len() == n + 2 && two[n] == name && two[n + 1] == value);
    assert(one.len() == n + 1 && one[n] == name);
    reveal_with_fuel(spec_read_args, 3);
}

/// No option is written like another.
proof fn lemma_option_words()
    ensures
        "--call"@ != "--kiss"@,
        "--call"@ != "--chan"@,
        "--call"@ != "--path"@,
        "--call"@ != "--server"@,
        "--call"@ != "--passcode"@,
        "--call"@ != "--filter"@,
        "--call"@ != "--tocall"@,
        "--call"@ != "--aprs-is"@,
        "--call"@ != "--monitor"@,
        "--call"@ != "--no-color"@,
        "--call"@ != "-h"@,
        "--call"@ != "--help"@,
        "--kiss"@ != "--chan"@,
        "--kiss"@ != "--path"@,
        "--kiss"@ != "--server"@,
        "--kiss"@ != "--passcode"@,
        "--kiss"@ != "--filter"@,
        "--kiss"@ != "--tocall"@,
        "--kiss"@ != "--aprs-is"@,
        "--kiss"@ != "--monitor"@,
        "--kiss"@ != "--no-color"@,
        "--kiss"@ != "-h"@,
        "--kiss"@ != "--help"@,
        "--chan"@ != "--path"@,
        "--chan"@ != "--server"@,
        "--chan"@ != "--passcode"@,
        "--chan"@ != "--filter"@,
        "--chan"@ != "--tocall"@,
        "--chan"@ != "--aprs-is"@,
        "--chan"@ != "--monitor"@,
        "--chan"@ != "--no-color"@,
        "--chan"@ != "-h"@,
        "--chan"@ != "--help"@,
        "--path"@ != "--server"@,
        "--path"@ != "--passcode"@,
        "--path"@ != "--filter"@,
        "--path"@ != "--tocall"@,
        "--path"@ != "--aprs-is"@,
        "--path"@ != "--monitor"@,
        "--path"@ != "--no-color"@,
        "--path"@ != "-h"@,
        "--path"@ != "--help"@,
        "--server"@ != "--passcode"@,
        "--server"@ != "--filter"@,
        "--server"@ != "--tocall"@,
        "--server"@ != "--aprs-is"@,
        "--server"@ != "--monitor"@,
        "--server"@ != "--no-color"@,
        "--server"@ != "-h"@,
        "--server"@ != "--help"@,
        "--passcode"@ != "--filter"@,
        "--passcode"@ != "--tocall"@,
        "--passcode"@ != "--aprs-is"@,
        "--passcode"@ != "--monitor"@,
        "--passcode"@ != "--no-color"@,
        "--passcode"@ != "-h"@,
        "--passcode"@ != "--help"@,
        "--filter"@ != "--tocall"@,
        "--filter"@ != "--aprs-is"@,
        "--filter"@ != "--monitor"@,
        "--filter"@ != "--no-color"@,
        "--filter"@ != "-h"@,
        "--filter"@ != "--help"@,
        "--tocall"@ != "--aprs-is"@,
        "--tocall"@ != "--monitor"@,
        "--tocall"@ != "--no-color"@,
        "--tocall"@ != "-h"@,
        "--tocall"@ != "--help"@,
        "--aprs-is"@ != "--monitor"@,
        "--aprs-is"@ != "--no-color"@,
        "--aprs-is"@ != "-h"@,
        "--aprs-is"@ != "--help"@,
        "--monitor"@ != "--no-color"@,
        "--monitor"@ != "-h"@,
        "--monitor"@ != "--help"@,
        "--no-color"@ != "-h"@,
        "--no-color"@ != "--help"@,
        "-h"@ != "--help"@,
{
    reveal_strlit("--call");
    reveal_strlit("--kiss");
    reveal_strlit("--chan");
    reveal_strlit("--path");
    reveal_strlit("--server");
    reveal_strlit("--passcode");
    reveal_strlit("--filter");
    reveal_strlit("--tocall");
    reveal_strlit("--aprs-is");
    reveal_strlit("--monitor");
    reveal_strlit("--no-color");
    reveal_strlit("-h");
    reveal_strlit("--help");
    assert("--call"@[1] == '-');
    assert("--kiss"@[1] == '-');
    assert("--chan"@[1] == '-');
    assert("--path"@[1] == '-');
    assert("--server"@[1] == '-');
    assert("--passcode"@[1] == '-');
    assert("--filter"@[1] == '-');
    assert("--tocall"@[1] == '-');
    assert("--aprs-is"@[1] == '-');
    assert("--monitor"@[1] == '-');
    assert("--no-color"@[1] == '-');
    assert("-h"@[1] == 'h');
    assert("--help"@[1] == '-');
    assert("--call"@[2] == 'c');
    assert("--call"@[3] == 'a');
    assert("--call"@[4] == 'l');
    assert("--kiss"@[2] == 'k');
    assert("--kiss"@[3] == 'i');
    assert("--kiss"@[4] == 's');
    assert("--chan"@[2] == 'c');
    assert("--chan"@[3] == 'h');
    assert("--chan"@[4] == 'a');
    assert("--path"@[2] == 'p');
    assert("--path"@[3] == 'a');
    assert("--path"@[4] == 't');
    assert("--server"@[2] == 's');
    assert("--server"@[3] == 'e');
    assert("--server"@[4] == 'r');
    assert("--passcode"@[2] == 'p');
    assert("--passcode"@[3] == 'a');
    assert("--passcode"@[4] == 's');
    assert("--filter"@[2] == 'f');
    assert("--filter"@[3] == 'i');
    assert("--filter"@[4] == 'l');
    assert("--tocall"@[2] == 't');
    assert("--tocall"@[3] == 'o');
    assert("--tocall"@[4] == 'c');
    assert("--aprs-is"@[2] == 'a');
    assert("--aprs-is"@[3] == 'p');
    assert("--aprs-is"@[4] == 'r');
    assert("--monitor"@[2] == 'm');
    assert("--monitor"@[3] == 'o');
    assert("--monitor"@[4] == 'n');
    assert("--no-color"@[2] == 'n');
    assert("--no-color"@[3] == 'o');
    assert("--no-color"@[4] == '-');
    assert("--help"@[2] == 'h');
    assert("--help"@[3] == 'e');
    assert("--help"@[4] == 'l');
}

/// What stands behind arguments that were read is read next.
proof fn lemma_read_more(args: Seq<Seq<char>>, more: Seq<Seq<char>>, i: int, o: OptionsView)
    requires
        0 <= i <= args.len(),
        spec_read_args(args, i, o) matches Ok(Some(_)),
    ensures
        spec_read_args(args + more, i, o) == spec_read_args(
            args + more,
            args.len() as int,
            spec_read_args(args, i, o)->Ok_0->0,
        ),
    decreases args.len() - i,
{
    if i < args.len() {
        let all = args + more;
        assert(all[i] == args[i]);
        if spec_takes_value(args[i]) {
            assert(all[i + 1] == args[i + 1]);
            if let Ok(next) = spec_set(o, args[i], args[i + 1]) {
                lemma_read_more(args, more, i + 2, next);
            }
        } else if args[i] == "--aprs-is"@ {
            lemma_read_more(args, more, i + 1, OptionsView { aprs_is: true, ..o });
        } else if args[i] == "--monitor"@ {
            lemma_read_more(args, more, i + 1, OptionsView { monitor: true, ..o });
        } else if args[i] == "--no-color"@ {
            lemma_read_more(args, more, i + 1, OptionsView { no_color: true, ..o });
        }
    }
}

/// The program runs as its options say: under the call, over the radio or, where that was asked for,
/// the internet, with the passcode that was given or else the call's own.
pub proof fn law_program_runs_as_its_options_say(args: Seq<Seq<char>>, o: OptionsView)
    requires
        spec_read_args(args, 0, spec_defaults()) == Ok::<Option<OptionsView>, Seq<char>>(Some(o)),
    ensures
        o.call is None ==> spec_parse_args(args) == Err::<InvocationView, Seq<char>>(
            "--call is required"@,
        ),
        spec_parse_args(args) matches Ok(run) ==> {
            &&& run matches InvocationView::Run(config) && o.call is Some && config.monitor
                == o.monitor && config.no_color == o.no_color
            &&& run matches InvocationView::Run(config) && (spec_parse_address(
                o.call->0,
            ) matches Ok(call) && config.call == call && config.transport == (if o.aprs_is {
                TransportView::Internet {
                    server: o.server,
                    passcode: match o.passcode {
                        Some(code) => code,
                        None => spec_passcode(call.call),
                    },
                    filter: spec_message_group_filter(call, o.filter),
                }
            } else {
                TransportView::Radio { kiss: o.kiss, chan: o.chan }
            }))
            &&& run matches InvocationView::Run(config) && (spec_parse_address(
                o.tocall,
            ) matches Ok(tocall) && config.tocall == tocall)
            &&& run matches InvocationView::Run(config) && (spec_parse_path(o.path) matches Ok(path)
                && config.path == path && path.len() <= 8)
        },
        spec_parse_path(o.path) matches Ok(path) && path.len() > 8 ==> spec_parse_args(args) is Err,
{
}

/// What the loop does: packets and notices go to the client; a line is a command, and the wish to
/// quit ends the loop; a closed link fails it; the end of input ends it where nothing waits for an
/// ack, and else is told and waited out; without events it goes on.
pub proof fn law_loop_follows_its_events(
    run: Run,
    client: ClientView,
    heard: HeardView,
    line: Seq<char>,
    reason: Seq<char>,
    now: u128,
)
    ensures
        ({
            let (r1, c1, a1, o1) = run.spec_on_event(
                client,
                EventView::Link(LinkEventView::Heard(heard)),
                now,
            );
            let (r2, c2, a2, o2) = run.spec_on_event(client, EventView::Line(line), now);
            let (r3, c3, a3, o3) = run.spec_on_event(
                client,
                EventView::Link(LinkEventView::Closed(reason)),
                now,
            );
            let (r4, c4, a4, o4) = run.spec_on_event(client, EventView::InputClosed, now);
            let (r5, c5, a5, o5) = run.spec_on_event(client, EventView::Timeout, now);
            let (r6, c6, a6, o6) = run.spec_on_event(client, EventView::Disconnected, now);
            let commanded = client.on_command(line, now);
            &&& c1 == client.on_heard(heard, now).0 && o1 is Continue && r1 == run
            &&& c2 == commanded.0 && r2 == run
            &&& o2 is Stop <==> exists|i: int|
                0 <= i < commanded.1.len() && (#[trigger] commanded.1[i]) is Quit
            &&& o2 is Stop || (o2 is Continue && a2 == commanded.1)
            &&& forall|i: int| 0 <= i < a2.len() ==> a2[i] == commanded.1[i] && !((
            #[trigger] a2[i]) is Quit)
            &&& c3 == client && a3.len() == 0 && o3 == OutcomeView::Fail(reason)
            &&& client.pending.len() == 0 ==> o4 is Stop && a4.len() == 0
            &&& client.pending.len() > 0 ==> {
                &&& o4 is Continue && !r4.input_open && c4 == client
                &&& a4 == seq![
                    ActionView::Ui(
                        UiMsgView::Info(
                            "input closed; waiting for "@ + spec_decimal(client.pending.len())
                                + " pending message(s)"@,
                        ),
                    ),
                ]
            }
            &&& r5 == run && c5 == client && a5.len() == 0 && o5 is Continue
            &&& c6 == client && a6.len() == 0 && o6 is Stop
        }),
{
    let actions = client.on_command(line, now).1;
    lemma_quit_at(actions, 0);
    let at = spec_quit_at(actions, 0);
    assert(at == actions.len() ==> actions.take(at) =~= actions);
}

proof fn lemma_quit_at(actions: Seq<ActionView>, from: int)
    requires
        0 <= from <= actions.len(),
    ensures
        ({
            let at = spec_quit_at(actions, from);
            &&& from <= at <= actions.len()
            &&& at < actions.len() ==> actions[at] is Quit
            &&& forall|i: int| from <= i < at ==> !((#[trigger] actions[i]) is Quit)
        }),
    decreases actions.len() - from,
{
    if from < actions.len() && !(actions[from] is Quit) {
        lemma_quit_at(actions, from + 1);
    }
}

/// After each event timers run: what waits is sent again when due, and an internet link that has
/// been quiet for five minutes gets its comment line, which counts as written; a loop whose input is
/// open or that waits for acks never ends here.
pub proof fn law_timers_run_after_each_event(
    run: Run,
    client: ClientView,
    quiet: u128,
    chan: u8,
    now: u128,
    clock: u128,
)
    ensures
        ({
            let (r, c, link, keepalive, actions, over) = run.spec_on_timers(
                client,
                Link::AprsIs { last_tx: quiet },
                now,
                clock,
            );
            &&& c == client.poll(now).0
            &&& clock >= quiet + 300_000_000_000 ==> {
                &&& keepalive == Some(encode_utf8("# aprsmsg keepalive\r\n"@))
                &&& link == Link::AprsIs { last_tx: clock }
            }
            &&& clock < quiet + 300_000_000_000 ==> keepalive is None && link == (Link::AprsIs {
                last_tx: quiet,
            })
            &&& run.input_open || c.pending.len() > 0 ==> !over && r == run
        }),
        run.spec_on_timers(client, Link::Kiss { chan }, now, clock).3 is None,
        ({
            let polled = client.poll(now).1;
            run.spec_on_timers(client, Link::Kiss { chan }, now, clock).4 == polled
        }),
        LINGER == 30_000_000_000,
        IDLE_WAIT == 3_600_000_000_000,
{
    let polled = client.poll(now).1;
    lemma_polls_do_not_quit(client.pending, client.pending.len() as int, now);
    lemma_quit_at(polled, 0);
    let at = spec_quit_at(polled, 0);
    if at < polled.len() {
        assert(polled[at] is Quit);
    }
    assert(polled.take(polled.len() as int) =~= polled);
}

proof fn lemma_polls_do_not_quit(pending: Seq<OutgoingView>, n: int, now: u128)
    requires
        0 <= n <= pending.len(),
    ensures
        forall|i: int|
            0 <= i < spec_poll_actions(pending, n, now).len() ==> !((#[trigger] spec_poll_actions(
                pending,
                n,
                now,
            )[i]) is Quit),
    decreases n,
{
    if n > 0 {
        lemma_polls_do_not_quit(pending, n - 1, now);
        let front = spec_poll_actions(pending, n - 1, now);
        let back = spec_poll_one_actions(pending[n - 1], now);
        let whole = front + back;
        assert forall|i: int| 0 <= i < whole.len() implies !((#[trigger] whole[i]) is Quit) by {
            if i < front.len() {
                assert(whole[i] == front[i]);
            } else {
                assert(whole[i] == back[i - front.len()]);
            }
        }
    }
}

/// What the program says of its link.
pub proof fn law_links_in_words(a: Seq<char>, filter: Seq<char>, chan: u8, passcode: u16)
    ensures
        spec_description(TransportView::Radio { kiss: a, chan }) == "radio via Direwolf "@ + a
            + ", channel "@ + spec_decimal(chan as nat),
        spec_description(TransportView::Internet { server: a, passcode, filter }) == "APRS-IS "@ + a
            + ", filter "@ + filter,
{
}

/// The loop waits exactly until the first thing that wants attention: a retry, the link, the end of
/// lingering, or an hour at the latest.
pub proof fn law_wait_is_until_the_first(
    run: Run,
    until_retry: Option<u128>,
    link_at: Option<u128>,
    now: u128,
)
    ensures
        ({
            let wait = run.spec_wait(until_retry, link_at, now);
            ||| wait == 3_600_000_000_000
            ||| until_retry == Some(wait as u128) && wait >= 0
            ||| (link_at matches Some(at) && (at >= now && wait == at - now || at < now && wait
                == 0))
            ||| (run.linger_until matches Some(at) && (at >= now && wait == at - now || at < now
                && wait == 0))
        }),
{
}

} // verus!
