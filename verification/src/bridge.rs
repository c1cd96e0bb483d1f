//! What the WebSocket bridge does, so that a browser can talk to Direwolf's KISS port: its
//! arguments, and what goes from one side to the other.
//!
//!   aprsmsg-bridge [--listen 127.0.0.1:8765] [--tcp 127.0.0.1:8001]

use vstd::prelude::*;
use vstd::slice::slice_to_vec;
use vstd::utf8::encode_utf8;

use crate::encoding::{bytes_of, debug_text, spec_debug_text};
use crate::text::{same_text, spec_texts};

verus! {

pub const DEFAULT_LISTEN: &'static str = "127.0.0.1:8765";

pub const DEFAULT_TCP: &'static str = "127.0.0.1:8001";

// ---------------------------------------------------------------------------
// Arguments
// ---------------------------------------------------------------------------

/// What the arguments ask for.
pub enum Invocation {
    Help,
    Run { listen: String, tcp: String },
}

pub enum InvocationView {
    Help,
    Run { listen: Seq<char>, tcp: Seq<char> },
}

impl View for Invocation {
    type V = InvocationView;

    open spec fn view(&self) -> InvocationView {
        match *self {
            Invocation::Help => InvocationView::Help,
            Invocation::Run { listen, tcp } => InvocationView::Run { listen: listen@, tcp: tcp@ },
        }
    }
}

/// What the arguments from the `i`th on ask for, given the addresses so far.
pub open spec fn spec_read_args(
    args: Seq<Seq<char>>,
    i: int,
    listen: Seq<char>,
    tcp: Seq<char>,
) -> Result<InvocationView, Seq<char>>
    decreases args.len() - i,
{
    if i < 0 || i >= args.len() {
        Ok(InvocationView::Run { listen, tcp })
    } else if args[i] == "--listen"@ {
        if i + 1 < args.len() {
            spec_read_args(args, i + 2, args[i + 1], tcp)
        } else {
            Err("--listen needs a value"@)
        }
    } else if args[i] == "--tcp"@ {
        if i + 1 < args.len() {
            spec_read_args(args, i + 2, listen, args[i + 1])
        } else {
            Err("--tcp needs a value"@)
        }
    } else if args[i] == "-h"@ || args[i] == "--help"@ {
        Ok(InvocationView::Help)
    } else {
        Err("unknown argument "@ + spec_debug_text(args[i]))
    }
}

pub open spec fn spec_parse_args(args: Seq<Seq<char>>) -> Result<InvocationView, Seq<char>> {
    spec_read_args(args, 0, DEFAULT_LISTEN@, DEFAULT_TCP@)
}

/// Reads the arguments, without the name of the program.
pub fn parse_args(args: &Vec<String>) -> (r: Result<Invocation, String>)
    ensures
        match r {
            Ok(invocation) => spec_parse_args(spec_texts(args@)) == Ok::<
                InvocationView,
                Seq<char>,
            >(invocation@),
            Err(e) => spec_parse_args(spec_texts(args@)) == Err::<InvocationView, Seq<char>>(e@),
        },
{
    let ghost all = spec_texts(args@);
    let mut listen = String::from_str(DEFAULT_LISTEN);
    let mut tcp = String::from_str(DEFAULT_TCP);
    let mut i: usize = 0;
    while i < args.len()
        invariant
            all == spec_texts(args@),
            i <= args@.len(),
            spec_parse_args(all) == spec_read_args(all, i as int, listen@, tcp@),
        decreases args@.len() - i,
    {
        let n: usize = args.len();
        let arg = args[i].as_str();
        assert(all[i as int] == arg@);
        if same_text(arg, "--listen") {
            if i + 1 >= n {
                return Err(String::from_str("--listen needs a value"));
            }
            assert(all[i + 1] == args@[i + 1]@);
            listen = args[i + 1].clone();
            i = i + 2;
        } else if same_text(arg, "--tcp") {
            if i + 1 >= n {
                return Err(String::from_str("--tcp needs a value"));
            }
            assert(all[i + 1] == args@[i + 1]@);
            tcp = args[i + 1].clone();
            i = i + 2;
        } else if same_text(arg, "-h") || same_text(arg, "--help") {
            return Ok(Invocation::Help);
        } else {
            let mut e = String::from_str("unknown argument ");
            e.append(debug_text(arg).as_str());
            return Err(e);
        }
    }
    Ok(Invocation::Run { listen, tcp })
}

/// What is printed when help is asked for.
pub fn help_text() -> (r: String)
    ensures
        r@ == "usage: aprsmsg-bridge [--listen "@ + DEFAULT_LISTEN@ + "] [--tcp "@ + DEFAULT_TCP@
            + "]\n\nProxies browser WebSocket clients to Direwolf's KISS TCP port."@,
{
    let mut out = String::from_str("usage: aprsmsg-bridge [--listen ");
    out.append(DEFAULT_LISTEN);
    out.append("] [--tcp ");
    out.append(DEFAULT_TCP);
    out.append("]\n\nProxies browser WebSocket clients to Direwolf's KISS TCP port.");
    out
}

/// Why a browser is turned away when Direwolf cannot be reached.
pub fn unreachable_reason(tcp: &str, error: &str) -> (r: String)
    ensures
        r@ == "Direwolf not reachable at "@ + tcp@ + " ("@ + error@
            + ") — start Direwolf with KISS TCP enabled"@,
{
    let mut out = String::from_str("Direwolf not reachable at ");
    out.append(tcp);
    out.append(" (");
    out.append(error);
    out.append(") — start Direwolf with KISS TCP enabled");
    out
}

// ---------------------------------------------------------------------------
// Relaying
// ---------------------------------------------------------------------------

/// A message from the browser.
pub enum FromBrowser {
    Binary(Vec<u8>),
    Text(String),
    Ping(Vec<u8>),
    Close,
    /// Pongs and raw frames.
    Other,
}

pub enum FromBrowserView {
    Binary(Seq<u8>),
    Text(Seq<char>),
    Ping(Seq<u8>),
    Close,
    Other,
}

impl View for FromBrowser {
    type V = FromBrowserView;

    open spec fn view(&self) -> FromBrowserView {
        match *self {
            FromBrowser::Binary(data) => FromBrowserView::Binary(data@),
            FromBrowser::Text(text) => FromBrowserView::Text(text@),
            FromBrowser::Ping(data) => FromBrowserView::Ping(data@),
            FromBrowser::Close => FromBrowserView::Close,
            FromBrowser::Other => FromBrowserView::Other,
        }
    }
}

/// What to do next.
pub enum Relay {
    ToTcp(Vec<u8>),
    Pong(Vec<u8>),
    ToBrowser(Vec<u8>),
    Nothing,
    Stop,
}

pub enum RelayView {
    ToTcp(Seq<u8>),
    Pong(Seq<u8>),
    ToBrowser(Seq<u8>),
    Nothing,
    Stop,
}

impl View for Relay {
    type V = RelayView;

    open spec fn view(&self) -> RelayView {
        match *self {
            Relay::ToTcp(data) => RelayView::ToTcp(data@),
            Relay::Pong(data) => RelayView::Pong(data@),
            Relay::ToBrowser(data) => RelayView::ToBrowser(data@),
            Relay::Nothing => RelayView::Nothing,
            Relay::Stop => RelayView::Stop,
        }
    }
}

/// Data goes to Direwolf, text as its bytes; pings are answered; a close ends the connection.
pub open spec fn spec_from_browser(message: FromBrowserView) -> RelayView {
    match message {
        FromBrowserView::Binary(data) => RelayView::ToTcp(data),
        FromBrowserView::Text(text) => RelayView::ToTcp(encode_utf8(text)),
        FromBrowserView::Ping(data) => RelayView::Pong(data),
        FromBrowserView::Close => RelayView::Stop,
        FromBrowserView::Other => RelayView::Nothing,
    }
}

/// Bytes go to the browser; a read of none is the end of the connection.
pub open spec fn spec_from_tcp(bytes: Seq<u8>) -> RelayView {
    if bytes.len() == 0 {
        RelayView::Stop
    } else {
        RelayView::ToBrowser(bytes)
    }
}

pub fn from_browser(message: FromBrowser) -> (r: Relay)
    ensures
        r@ == spec_from_browser(message@),
{
    match message {
        FromBrowser::Binary(data) => Relay::ToTcp(data),
        FromBrowser::Text(text) => Relay::ToTcp(bytes_of(text.as_str())),
        FromBrowser::Ping(data) => Relay::Pong(data),
        FromBrowser::Close => Relay::Stop,
        FromBrowser::Other => Relay::Nothing,
    }
}

pub fn from_tcp(bytes: &[u8]) -> (r: Relay)
    ensures
        r@ == spec_from_tcp(bytes@),
{
    if bytes.len() == 0 {
        Relay::Stop
    } else {
        Relay::ToBrowser(slice_to_vec(bytes))
    }
}

// ---------------------------------------------------------------------------
// Laws
// ---------------------------------------------------------------------------

/// Nothing is lost or changed on its way: what the browser sends as data or text goes to Direwolf
/// byte for byte, what Direwolf sends goes to the browser, a ping comes back to the browser as a
/// pong with the same data, and the connection ends when one side ends it and not before.
pub proof fn law_bytes_go_across_unchanged(data: Seq<u8>, text: Seq<char>)
    ensures
        spec_from_browser(FromBrowserView::Binary(data)) == RelayView::ToTcp(data),
        spec_from_browser(FromBrowserView::Text(text)) == RelayView::ToTcp(encode_utf8(text)),
        spec_from_browser(FromBrowserView::Ping(data)) == RelayView::Pong(data),
        spec_from_browser(FromBrowserView::Close) is Stop,
        spec_from_browser(FromBrowserView::Other) is Nothing,
        data.len() > 0 ==> spec_from_tcp(data) == RelayView::ToBrowser(data),
        spec_from_tcp(seq![]) is Stop,
{
}

/// The addresses are those that were asked for, wherever their options stand, and else the usual
/// ones on this machine. Help is given wherever it is asked for before anything is wrong.
pub proof fn law_addresses_are_as_asked(listen: Seq<char>, tcp: Seq<char>, rest: Seq<Seq<char>>)
    ensures
        spec_parse_args(seq![]) == Ok::<InvocationView, Seq<char>>(
            InvocationView::Run { listen: "127.0.0.1:8765"@, tcp: "127.0.0.1:8001"@ },
        ),
        spec_parse_args(seq!["--listen"@, listen]) == Ok::<InvocationView, Seq<char>>(
            InvocationView::Run { listen, tcp: "127.0.0.1:8001"@ },
        ),
        spec_parse_args(seq!["--tcp"@, tcp]) == Ok::<InvocationView, Seq<char>>(
            InvocationView::Run { listen: "127.0.0.1:8765"@, tcp },
        ),
        spec_parse_args(seq!["--listen"@, listen, "--tcp"@, tcp]) == Ok::<
            InvocationView,
            Seq<char>,
        >(InvocationView::Run { listen, tcp }),
        spec_parse_args(seq!["--tcp"@, tcp, "--listen"@, listen]) == Ok::<
            InvocationView,
            Seq<char>,
        >(InvocationView::Run { listen, tcp }),
        spec_parse_args(seq!["--help"@] + rest) == Ok::<InvocationView, Seq<char>>(
            InvocationView::Help,
        ),
        spec_parse_args(seq!["-h"@] + rest) == Ok::<InvocationView, Seq<char>>(
            InvocationView::Help,
        ),
        spec_parse_args(seq!["--listen"@]) == Err::<InvocationView, Seq<char>>(
            "--listen needs a value"@,
        ),
        spec_parse_args(seq!["--tcp"@]) == Err::<InvocationView, Seq<char>>(
            "--tcp needs a value"@,
        ),
{
    reveal_strlit("--listen");
    reveal_strlit("--tcp");
    reveal_strlit("--help");
    reveal_strlit("-h");
    reveal_with_fuel(spec_read_args, 3);
    assert("--listen"@.len() == 8 && "--tcp"@.len() == 5 && "--help"@.len() == 6 && "-h"@.len()
        == 2);
}

} // verus!
