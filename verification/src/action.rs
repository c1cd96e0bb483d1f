//! What the client asks its caller to do: transmit, show, quit.

use vstd::prelude::*;

use crate::aprs::spec_opt;
use crate::decode::{Packet, PacketView};

verus! {

#[allow(inconsistent_fields)]
#[derive(Debug, Clone, PartialEq, Eq)]
pub enum UiMsg {
    Info(String),
    Error(String),
    Sent { to: String, id: String, text: String, attempt: u32, max: u32 },
    Retry { to: String, id: String, attempt: u32, max: u32 },
    Repeated { digi: String, id: String },
    Delivered { from: String, id: String, tries: u32 },
    Rejected { from: String, id: String },
    GaveUp { to: String, id: String, tries: u32 },
    Cancelled { to: String, id: String },
    Incoming { from: String, text: String, id: Option<String>, route: String },
    /// Another station's packet, decoded. Its text is [`Packet::describe`].
    Monitor { station: String, packet: Packet, route: String },
    Raw(String),
    Print(String),
}

#[allow(inconsistent_fields)]
pub enum UiMsgView {
    Info(Seq<char>),
    Error(Seq<char>),
    Sent { to: Seq<char>, id: Seq<char>, text: Seq<char>, attempt: u32, max: u32 },
    Retry { to: Seq<char>, id: Seq<char>, attempt: u32, max: u32 },
    Repeated { digi: Seq<char>, id: Seq<char> },
    Delivered { from: Seq<char>, id: Seq<char>, tries: u32 },
    Rejected { from: Seq<char>, id: Seq<char> },
    GaveUp { to: Seq<char>, id: Seq<char>, tries: u32 },
    Cancelled { to: Seq<char>, id: Seq<char> },
    Incoming { from: Seq<char>, text: Seq<char>, id: Option<Seq<char>>, route: Seq<char> },
    Monitor { station: Seq<char>, packet: PacketView, route: Seq<char> },
    Raw(Seq<char>),
    Print(Seq<char>),
}

impl View for UiMsg {
    type V = UiMsgView;

    open spec fn view(&self) -> UiMsgView {
        match *self {
            UiMsg::Info(t) => UiMsgView::Info(t@),
            UiMsg::Error(t) => UiMsgView::Error(t@),
            UiMsg::Sent { to, id, text, attempt, max } => UiMsgView::Sent {
                to: to@,
                id: id@,
                text: text@,
                attempt,
                max,
            },
            UiMsg::Retry { to, id, attempt, max } => UiMsgView::Retry {
                to: to@,
                id: id@,
                attempt,
                max,
            },
            UiMsg::Repeated { digi, id } => UiMsgView::Repeated { digi: digi@, id: id@ },
            UiMsg::Delivered { from, id, tries } => UiMsgView::Delivered {
                from: from@,
                id: id@,
                tries,
            },
            UiMsg::Rejected { from, id } => UiMsgView::Rejected { from: from@, id: id@ },
            UiMsg::GaveUp { to, id, tries } => UiMsgView::GaveUp { to: to@, id: id@, tries },
            UiMsg::Cancelled { to, id } => UiMsgView::Cancelled { to: to@, id: id@ },
            UiMsg::Incoming { from, text, id, route } => UiMsgView::Incoming {
                from: from@,
                text: text@,
                id: spec_opt(id),
                route: route@,
            },
            UiMsg::Monitor { station, packet, route } => UiMsgView::Monitor {
                station: station@,
                packet: packet@,
                route: route@,
            },
            UiMsg::Raw(t) => UiMsgView::Raw(t@),
            UiMsg::Print(t) => UiMsgView::Print(t@),
        }
    }
}

#[derive(Debug, Clone, PartialEq, Eq)]
pub enum Action {
    /// Transmit this APRS information field on the current link.
    Send(Vec<u8>),
    Ui(UiMsg),
    Quit,
}

pub enum ActionView {
    Send(Seq<u8>),
    Ui(UiMsgView),
    Quit,
}

impl View for Action {
    type V = ActionView;

    open spec fn view(&self) -> ActionView {
        match *self {
            Action::Send(info) => ActionView::Send(info@),
            Action::Ui(msg) => ActionView::Ui(msg@),
            Action::Quit => ActionView::Quit,
        }
    }
}

pub open spec fn spec_actions(v: Seq<Action>) -> Seq<ActionView> {
    Seq::new(v.len(), |i: int| v[i]@)
}

/// A list of one action.
pub(crate) fn one(action: Action) -> (r: Vec<Action>)
    ensures
        spec_actions(r@) == seq![action@],
{
    let mut out: Vec<Action> = Vec::new();
    out.push(action);
    assert(spec_actions(out@) =~= seq![action@]);
    out
}

/// A list of no action.
pub(crate) fn none() -> (r: Vec<Action>)
    ensures
        spec_actions(r@) == Seq::<ActionView>::empty(),
{
    let out: Vec<Action> = Vec::new();
    assert(spec_actions(out@) =~= Seq::<ActionView>::empty());
    out
}

pub(crate) fn push_action(out: &mut Vec<Action>, action: Action)
    ensures
        spec_actions(final(out)@) == spec_actions(old(out)@).push(action@),
{
    out.push(action);
    assert(spec_actions(out@) =~= spec_actions(old(out)@).push(action@));
}

pub(crate) fn append_actions(out: &mut Vec<Action>, more: Vec<Action>)
    ensures
        spec_actions(final(out)@) == spec_actions(old(out)@) + spec_actions(more@),
{
    let mut more = more;
    let ghost added = more@;
    out.append(&mut more);
    assert(spec_actions(out@) =~= spec_actions(old(out)@) + spec_actions(added));
}

} // verus!
