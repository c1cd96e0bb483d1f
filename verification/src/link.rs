//! Links to the APRS network: Direwolf's KISS TCP port (radio) or an APRS-IS
//! server (internet). Both hand out received packets as [`Heard`], so that the
//! client handles them the same way.
//!
//! The bytes themselves are read and written by the caller.

use vstd::prelude::*;
use vstd::slice::{slice_subrange, slice_to_vec};
use vstd::utf8::encode_utf8;

use crate::ax25::{
    law_decoding_undoes_encoding as law_frame_decoding_undoes_encoding,
    law_frame_on_the_wire as law_wire_of_frame, spec_decode_frame,
    spec_path, Address, AddressView, UiFrame, UiFrameView,
};
use crate::clock::{since, spec_since};
use crate::decode::{spec_trim_line_end, trim_line_end};
use crate::encoding::{bytes_of, lemma_text_of_encoded, spec_text_of, text_of};
use crate::heard::{
    spec_from_frame, spec_parse_header, spec_parse_tnc2, spec_tnc2_hop, spec_tnc2_path, HeardView,
    HopView,
};
pub use crate::heard::{passcode, Heard, Hop};
use crate::kiss;
use crate::kiss::{
    spec_after, spec_decoded, spec_encode, spec_frames, spec_idle, Decoder, KissFrame,
    KissFrameView, MAX_FRAME,
};
use crate::numeral::{decimal, law_decimal_reads_back, spec_decimal};
use crate::split::{lemma_find_from_is, lemma_find_from_none, spec_split, spec_split_from};
use crate::text::{
    spec_is_alnum, spec_is_digit, spec_strip_trailing, spec_trim, starts_with, string_of, trim,
};

verus! {

/// APRS-IS servers drop silent clients; send a comment line this often.
pub const KEEPALIVE: u128 = 300_000_000_000;

/// The version that is told to APRS-IS servers.
pub const VERSION: &'static str = "0.1.0";

pub enum LinkEvent {
    Heard(Heard),
    Notice(String),
    Closed(String),
}

pub enum LinkEventView {
    Heard(HeardView),
    Notice(Seq<char>),
    Closed(Seq<char>),
}

impl View for LinkEvent {
    type V = LinkEventView;

    open spec fn view(&self) -> LinkEventView {
        match *self {
            LinkEvent::Heard(heard) => LinkEventView::Heard(heard@),
            LinkEvent::Notice(text) => LinkEventView::Notice(text@),
            LinkEvent::Closed(reason) => LinkEventView::Closed(reason@),
        }
    }
}

pub struct AprsIsLogin<'a> {
    pub server: &'a str,
    pub call: &'a str,
    pub passcode: u16,
    pub filter: &'a str,
}

// ---------------------------------------------------------------------------
// Sending
// ---------------------------------------------------------------------------

/// The line that logs in to an APRS-IS server.
pub open spec fn spec_login_line(call: Seq<char>, passcode: u16, filter: Seq<char>) -> Seq<u8> {
    encode_utf8(
        "user "@ + call + " pass "@ + spec_decimal(passcode as nat) + " vers aprsmsg "@ + VERSION@
            + " filter "@ + filter + "\r\n"@,
    )
}

/// The frame of a packet that is sent by radio: no hop has been used yet.
pub open spec fn spec_radio_frame(
    src: AddressView,
    tocall: AddressView,
    path: Seq<AddressView>,
    info: Seq<u8>,
) -> UiFrameView {
    UiFrameView {
        dest: tocall,
        src,
        digis: Seq::new(path.len(), |i: int| (path[i], false)),
        info,
    }
}

/// A packet as it goes to the KISS port.
pub open spec fn spec_kiss_packet(
    chan: u8,
    src: AddressView,
    tocall: AddressView,
    path: Seq<AddressView>,
    info: Seq<u8>,
) -> Seq<u8> {
    spec_encode(chan as int, spec_radio_frame(src, tocall, path, info).encoded())
}

/// `SRC>TOCALL,TCPIP*`
pub open spec fn spec_internet_header(src: AddressView, tocall: AddressView) -> Seq<char> {
    src.text() + ">"@ + tocall.text() + ",TCPIP*"@
}

/// A packet as it goes to an APRS-IS server: a line with the standard path.
pub open spec fn spec_internet_packet(src: AddressView, tocall: AddressView, info: Seq<u8>) -> Seq<
    u8,
> {
    encode_utf8(spec_internet_header(src, tocall) + ":"@) + info + seq![0x0du8, 0x0au8]
}

/// The comment that keeps a quiet connection open.
pub open spec fn spec_keepalive_line() -> Seq<u8> {
    encode_utf8("# aprsmsg keepalive\r\n"@)
}

pub fn login_line(call: &str, passcode: u16, filter: &str) -> (r: Vec<u8>)
    ensures
        r@ == spec_login_line(call@, passcode, filter@),
{
    let mut line = String::from_str("user ");
    line.append(call);
    line.append(" pass ");
    line.append(decimal(passcode as u128).as_str());
    line.append(" vers aprsmsg ");
    line.append(VERSION);
    line.append(" filter ");
    line.append(filter);
    line.append("\r\n");
    bytes_of(line.as_str())
}

pub fn keepalive_line() -> (r: Vec<u8>)
    ensures
        r@ == spec_keepalive_line(),
{
    bytes_of("# aprsmsg keepalive\r\n")
}

/// A packet as it goes to the KISS port.
pub fn kiss_packet(chan: u8, src: &Address, tocall: &Address, path: &[Address], info: &[u8]) -> (r:
    Vec<u8>)
    ensures
        r@ == spec_kiss_packet(chan, src@, tocall@, spec_path(path@), info@),
{
    let mut digis: Vec<(Address, bool)> = Vec::new();
    for i in 0..path.len()
        invariant
            digis@.len() == i,
            forall|j: int| 0 <= j < i ==> #[trigger] digis@[j] == (path@[j], false),
    {
        digis.push((path[i].clone(), false));
    }
    let frame = UiFrame {
        dest: tocall.clone(),
        src: src.clone(),
        digis,
        info: slice_to_vec(info),
    };
    assert(frame@.digis =~= spec_radio_frame(src@, tocall@, spec_path(path@), info@).digis);
    kiss::encode(chan, frame.encode().as_slice())
}

/// A packet as it goes to an APRS-IS server.
pub fn internet_packet(src: &Address, tocall: &Address, info: &[u8]) -> (r: Vec<u8>)
    ensures
        r@ == spec_internet_packet(src@, tocall@, info@),
{
    let mut header = src.to_string();
    header.append(">");
    header.append(tocall.to_string().as_str());
    header.append(",TCPIP*");
    header.append(":");
    let mut line = bytes_of(header.as_str());
    line.extend_from_slice(info);
    line.push(0x0d);
    line.push(0x0a);
    assert(line@ =~= spec_internet_packet(src@, tocall@, info@));
    line
}

// ---------------------------------------------------------------------------
// Link state
// ---------------------------------------------------------------------------

/// What has to be known of an open link to use it. Times are those of any clock that does not go
/// backwards, the same one in all calls.
#[derive(Debug, PartialEq, Eq, Structural)]
pub enum Link {
    Kiss { chan: u8 },
    AprsIs { last_tx: u128 },
}

impl Link {
    /// A link to Direwolf.
    pub fn kiss(chan: u8) -> (r: Link)
        ensures
            r == (Link::Kiss { chan }),
    {
        Link::Kiss { chan }
    }

    /// A link to an APRS-IS server, and the line to write first.
    pub fn aprs_is(login: &AprsIsLogin, now: u128) -> (r: (Link, Vec<u8>))
        ensures
            r.0 == (Link::AprsIs { last_tx: now }),
            r.1@ == spec_login_line(login.call@, login.passcode, login.filter@),
    {
        (Link::AprsIs { last_tx: now }, login_line(login.call, login.passcode, login.filter))
    }

    /// The bytes that a packet is sent as.
    pub open spec fn packet(
        self,
        src: AddressView,
        tocall: AddressView,
        path: Seq<AddressView>,
        info: Seq<u8>,
    ) -> Seq<u8> {
        match self {
            Link::Kiss { chan } => spec_kiss_packet(chan, src, tocall, path, info),
            Link::AprsIs { .. } => spec_internet_packet(src, tocall, info),
        }
    }

    /// The link after something was written.
    pub open spec fn after_write(self, now: u128) -> Link {
        match self {
            Link::Kiss { .. } => self,
            Link::AprsIs { .. } => Link::AprsIs { last_tx: now },
        }
    }

    /// Quiet for so long that a keepalive is due.
    pub open spec fn spec_keepalive_due(self, now: u128) -> bool {
        match self {
            Link::Kiss { .. } => false,
            Link::AprsIs { last_tx } => spec_since(now, last_tx) >= KEEPALIVE,
        }
    }

    pub open spec fn spec_next_deadline(self) -> Option<int> {
        match self {
            Link::Kiss { .. } => None,
            Link::AprsIs { last_tx } => Some(last_tx + KEEPALIVE),
        }
    }

    /// The bytes to write for one packet. The RF `path` is used only on the radio link;
    /// packets sent to APRS-IS carry the standard `TCPIP*` path.
    pub fn send(
        &mut self,
        src: &Address,
        tocall: &Address,
        path: &[Address],
        info: &[u8],
        now: u128,
    ) -> (r: Vec<u8>)
        ensures
            r@ == old(self).packet(src@, tocall@, spec_path(path@), info@),
            *final(self) == old(self).after_write(now),
    {
        match *self {
            Link::Kiss { chan } => kiss_packet(chan, src, tocall, path, info),
            Link::AprsIs { .. } => {
                *self = Link::AprsIs { last_tx: now };
                internet_packet(src, tocall, info)
            },
        }
    }

    /// When [`Self::maintain`] has something to do next. None also where that time is beyond the
    /// range of the clock.
    pub fn next_deadline(&self) -> (r: Option<u128>)
        ensures
            match self.spec_next_deadline() {
                Some(at) => if at <= u128::MAX {
                    r == Some(at as u128)
                } else {
                    r is None
                },
                None => r is None,
            },
    {
        match self {
            Link::Kiss { .. } => None,
            Link::AprsIs { last_tx } => last_tx.checked_add(KEEPALIVE),
        }
    }

    /// An APRS-IS keepalive comment to write, when the link has been quiet.
    pub fn maintain(&mut self, now: u128) -> (r: Option<Vec<u8>>)
        ensures
            match r {
                Some(line) => {
                    &&& old(self).spec_keepalive_due(now)
                    &&& line@ == spec_keepalive_line()
                    &&& *final(self) == old(self).after_write(now)
                },
                None => !old(self).spec_keepalive_due(now) && *final(self) == *old(self),
            },
    {
        match *self {
            Link::Kiss { .. } => None,
            Link::AprsIs { last_tx } => {
                if since(now, last_tx) >= KEEPALIVE {
                    *self = Link::AprsIs { last_tx: now };
                    Some(keepalive_line())
                } else {
                    None
                }
            },
        }
    }

    pub fn is_radio(&self) -> (r: bool)
        ensures
            r == (self is Kiss),
    {
        match self {
            Link::Kiss { .. } => true,
            Link::AprsIs { .. } => false,
        }
    }
}

// ---------------------------------------------------------------------------
// Receiving
// ---------------------------------------------------------------------------

/// The packets in the first `n` KISS frames: those on our channel that hold an APRS frame.
pub open spec fn spec_kiss_heard(frames: Seq<KissFrameView>, n: int, chan: u8) -> Seq<HeardView>
    decreases n,
{
    if n <= 0 {
        Seq::empty()
    } else {
        let before = spec_kiss_heard(frames, n - 1, chan);
        match spec_decode_frame(frames[n - 1].payload) {
            Some(frame) => if frames[n - 1].channel == chan {
                before.push(spec_from_frame(frame))
            } else {
                before
            },
            None => before,
        }
    }
}

pub open spec fn spec_heard(v: Seq<Heard>) -> Seq<HeardView> {
    Seq::new(v.len(), |i: int| v[i]@)
}

/// Feeds bytes from the KISS port to the decoder and returns the packets completed by them.
pub fn read_kiss(decoder: &mut Decoder, chan: u8, bytes: &[u8]) -> (r: Vec<Heard>)
    ensures
        final(decoder)@ == spec_after(old(decoder)@, bytes@),
        ({
            let frames = spec_decoded(old(decoder)@, bytes@);
            spec_heard(r@) == spec_kiss_heard(frames, frames.len() as int, chan)
        }),
{
    let frames = decoder.push(bytes);
    let ghost all = spec_frames(frames@);
    let mut out: Vec<Heard> = Vec::new();
    assert(spec_heard(out@) =~= Seq::<HeardView>::empty());
    for i in 0..frames.len()
        invariant
            all == spec_frames(frames@),
            spec_heard(out@) == spec_kiss_heard(all, i as int, chan),
    {
        assert(all[i as int] == frames@[i as int]@);
        if let Some(heard) = kiss_heard(&frames[i], chan) {
            let ghost before = out@;
            out.push(heard);
            assert(spec_heard(out@) =~= spec_heard(before).push(heard@));
        }
    }
    out
}

fn kiss_heard(frame: &KissFrame, chan: u8) -> (r: Option<Heard>)
    ensures
        match r {
            Some(heard) => frame@.channel == chan && (spec_decode_frame(
                frame@.payload,
            ) matches Some(f) && heard@ == spec_from_frame(f)),
            None => frame@.channel != chan || spec_decode_frame(frame@.payload) is None,
        },
{
    if frame.channel != chan {
        return None;
    }
    match UiFrame::decode(frame.payload.as_slice()) {
        Some(frame) => Some(Heard::from_frame(frame)),
        None => None,
    }
}

/// What a line from an APRS-IS server tells: a packet, or the server's answer to the login. Other
/// comments and lines that are no packet tell nothing.
pub open spec fn spec_line_event(line: Seq<u8>) -> Option<LinkEventView> {
    let trimmed = spec_trim_line_end(line);
    if trimmed.len() > 0 && trimmed[0] == '#' as u8 {
        let comment = spec_trim(spec_text_of(trimmed.skip(1)));
        if "logresp"@.is_prefix_of(comment) {
            Some(LinkEventView::Notice(comment))
        } else {
            None
        }
    } else {
        match spec_parse_tnc2(trimmed) {
            Some(heard) => Some(LinkEventView::Heard(heard)),
            None => None,
        }
    }
}

/// What a line from an APRS-IS server tells.
pub fn read_aprs_is(line: &[u8]) -> (r: Option<LinkEvent>)
    ensures
        match r {
            Some(event) => spec_line_event(line@) == Some(event@),
            None => spec_line_event(line@) is None,
        },
{
    let trimmed = trim_line_end(line);
    if trimmed.len() > 0 && trimmed[0] == '#' as u8 {
        let rest = slice_subrange(trimmed, 1, trimmed.len());
        assert(rest@ =~= trimmed@.skip(1));
        let text = text_of(rest);
        let comment = trim(text.as_slice());
        if starts_with(comment, "logresp") {
            Some(LinkEvent::Notice(string_of(comment)))
        } else {
            None
        }
    } else {
        match Heard::parse_tnc2(trimmed) {
            Some(heard) => Some(LinkEvent::Heard(heard)),
            None => None,
        }
    }
}

/// Why a link was closed: by the other end, or by an error.
pub open spec fn spec_closed_reason(radio: bool, error: Option<Seq<char>>) -> Seq<char> {
    match error {
        Some(e) => (if radio {
            "KISS connection error: "@
        } else {
            "APRS-IS connection error: "@
        }) + e,
        None => if radio {
            "Direwolf closed the KISS connection"@
        } else {
            "APRS-IS server closed the connection"@
        },
    }
}

pub fn closed_reason(radio: bool, error: Option<String>) -> (r: String)
    ensures
        r@ == spec_closed_reason(
            radio,
            match error {
                Some(e) => Some(e@),
                None => None,
            },
        ),
{
    match error {
        Some(e) => {
            let mut out = if radio {
                String::from_str("KISS connection error: ")
            } else {
                String::from_str("APRS-IS connection error: ")
            };
            out.append(e.as_str());
            out
        },
        None => if radio {
            String::from_str("Direwolf closed the KISS connection")
        } else {
            String::from_str("APRS-IS server closed the connection")
        },
    }
}

// ---------------------------------------------------------------------------
// Laws
// ---------------------------------------------------------------------------

/// A keepalive is due exactly from the link's deadline on, and writing anything puts the deadline
/// off by the full interval.
pub proof fn law_keepalive_is_due_at_the_deadline(link: Link, now: u128, later: u128)
    ensures
        link.spec_keepalive_due(now) <==> (link.spec_next_deadline() matches Some(at) && now >= at),
        link.after_write(now).spec_keepalive_due(later) ==> later >= now + KEEPALIVE,
{
}

/// A packet sent by radio is heard as it was sent, by a receiver on the same channel that is
/// between frames. A frame must be short enough for the receiver.
pub proof fn law_radio_packet_is_heard(
    chan: u8,
    src: AddressView,
    tocall: AddressView,
    path: Seq<AddressView>,
    info: Seq<u8>,
)
    requires
        chan < 16,
        spec_radio_frame(src, tocall, path, info).valid(),
        spec_radio_frame(src, tocall, path, info).encoded().len() < MAX_FRAME,
    ensures
        ({
            let frames = spec_decoded(
                spec_idle(),
                spec_kiss_packet(chan, src, tocall, path, info),
            );
            spec_kiss_heard(frames, frames.len() as int, chan) == seq![
                spec_from_frame(spec_radio_frame(src, tocall, path, info)),
            ]
        }),
{
    let frame = spec_radio_frame(src, tocall, path, info);
    law_frame_decoding_undoes_encoding(frame);
    assert(frame.encoded().len() > 0);
    kiss::law_decoding_undoes_encoding(chan as int, frame.encoded());
    let frames = spec_decoded(spec_idle(), spec_kiss_packet(chan, src, tocall, path, info));
    assert(spec_kiss_heard(frames, 0, chan) =~= Seq::<HeardView>::empty());
    assert(spec_kiss_heard(frames, 1, chan) =~= seq![spec_from_frame(frame)]);
}

/// A packet sent to an APRS-IS server reads back as it was sent: from the same source, to the
/// same destination, by way of `TCPIP`, with the same information. Left out is information that
/// ends in a line break, which is taken for the end of the line.
pub proof fn law_internet_packet_is_heard(src: AddressView, tocall: AddressView, info: Seq<u8>)
    requires
        src.valid(),
        tocall.valid(),
        info.len() > 0 ==> info.last() != 0x0d && info.last() != 0x0a,
    ensures
        spec_line_event(spec_internet_packet(src, tocall, info)) == Some(
            LinkEventView::Heard(
                HeardView {
                    source: src.text(),
                    dest: tocall.text(),
                    path: seq![HopView { call: "TCPIP"@, used: true }],
                    info,
                    from_internet: true,
                },
            ),
        ),
{
    let header = spec_internet_header(src, tocall);
    reveal_strlit(">");
    reveal_strlit(":");
    reveal_strlit(",TCPIP*");
    reveal_strlit("TCPIP");
    lemma_address_text(src);
    lemma_address_text(tocall);
    let head = encode_utf8(header);
    assert forall|i: int| 0 <= i < header.len() implies '\0' <= #[trigger] header[i] <= '\u{7f}'
        && header[i] != ':' && header[i] != '#' by {
        if i < src.text().len() {
            assert(header[i] == src.text()[i]);
        } else if src.text().len() < i < src.text().len() + 1 + tocall.text().len() {
            assert(header[i] == tocall.text()[i - src.text().len() - 1]);
        }
    }
    vstd::utf8::is_ascii_chars_encode_utf8(header);
    crate::encoding::lemma_encode_concat(header, ":"@);
    vstd::utf8::is_ascii_chars_encode_utf8(":"@);
    assert(encode_utf8(":"@) =~= seq![':' as u8]);
    lemma_text_of_encoded(header);
    let packet = spec_internet_packet(src, tocall, info);
    let line = head + seq![':' as u8] + info;
    assert(packet =~= line + seq![0x0du8, 0x0au8]);
    assert(packet.drop_last() =~= line + seq![0x0du8]);
    assert(packet.drop_last().drop_last() =~= line);
    reveal_with_fuel(spec_trim_line_end, 3);
    assert(spec_trim_line_end(packet) == line) by {
        if info.len() == 0 {
            assert(line.last() == ':' as u8);
        } else {
            assert(line.last() == info.last());
        }
    }
    assert(line[0] == header[0] as u8);
    assert forall|i: int| 0 <= i < head.len() implies line[i] != ':' as u8 by {
        assert(line[i] == header[i] as u8);
    }
    lemma_find_from_is(line, ':' as u8, 0, head.len() as int);
    assert(line.take(head.len() as int) =~= head);
    assert(line.skip(head.len() as int + 1) =~= info);
    lemma_internet_header(src, tocall, info);
}

/// A station's text is made of letters, digits and hyphens.
proof fn lemma_address_text(a: AddressView)
    requires
        a.valid(),
    ensures
        a.text().len() > 0,
        forall|i: int|
            0 <= i < a.text().len() ==> spec_is_alnum(#[trigger] a.text()[i]) || a.text()[i] == '-',
{
    reveal_strlit("-");
    law_decimal_reads_back(a.ssid as nat);
    let numeral = spec_decimal(a.ssid as nat);
    assert forall|i: int| 0 <= i < a.text().len() implies spec_is_alnum(#[trigger] a.text()[i])
        || a.text()[i] == '-' by {
        if i < a.call.len() {
            assert(a.text()[i] == a.call[i]);
        } else if i > a.call.len() {
            assert(a.text()[i] == numeral[i - a.call.len() - 1]);
            assert(spec_is_digit(numeral[i - a.call.len() - 1]));
        }
    }
}

proof fn lemma_internet_header(src: AddressView, tocall: AddressView, info: Seq<u8>)
    requires
        src.valid(),
        tocall.valid(),
    ensures
        spec_parse_header(spec_internet_header(src, tocall), info) == Some(
            HeardView {
                source: src.text(),
                dest: tocall.text(),
                path: seq![HopView { call: "TCPIP"@, used: true }],
                info,
                from_internet: true,
            },
        ),
{
    reveal_strlit(">");
    reveal_strlit(",TCPIP*");
    reveal_strlit("TCPIP");
    lemma_address_text(src);
    lemma_address_text(tocall);
    let header = spec_internet_header(src, tocall);
    let s = src.text();
    let d = tocall.text();
    assert forall|i: int| 0 <= i < s.len() implies header[i] != '>' by {
        assert(header[i] == s[i]);
    }
    lemma_find_from_is(header, '>', 0, s.len() as int);
    assert(header.take(s.len() as int) =~= s);
    let route = d + ",TCPIP*"@;
    assert(header.skip(s.len() as int + 1) =~= route);
    assert forall|i: int| 0 <= i < d.len() implies route[i] != ',' by {
        assert(route[i] == d[i]);
    }
    lemma_find_from_is(route, ',', 0, d.len() as int);
    let hop = seq!['T', 'C', 'P', 'I', 'P', '*'];
    assert(route.subrange(0, d.len() as int) =~= d);
    assert(route.subrange(d.len() as int + 1, route.len() as int) =~= hop);
    lemma_find_from_none(route, ',', d.len() as int + 1);
    reveal_with_fuel(spec_split_from, 3);
    let pieces = spec_split(route, ',');
    assert(pieces =~= seq![d, hop]);
    reveal_with_fuel(spec_strip_trailing, 3);
    assert(hop.drop_last() =~= "TCPIP"@);
    assert(spec_tnc2_hop(hop) == (HopView { call: "TCPIP"@, used: true }));
    reveal_with_fuel(spec_tnc2_path, 3);
    assert(spec_tnc2_path(pieces, 2) =~= seq![HopView { call: "TCPIP"@, used: true }]);
}

/// The packet that is heard of one sent by radio: from us, to the software's destination, by the
/// path that was asked for, of which no hop has been used.
pub open spec fn spec_heard_of_us(
    src: AddressView,
    tocall: AddressView,
    path: Seq<AddressView>,
    info: Seq<u8>,
) -> HeardView {
    HeardView {
        source: src.text(),
        dest: tocall.text(),
        path: Seq::new(path.len(), |i: int| HopView { call: path[i].text(), used: false }),
        info,
        from_internet: false,
    }
}

/// A packet sent by radio names its stations as they are, and asks every digipeater of the path to
/// repeat it: none is marked as having done so, neither in what is heard nor in the bytes.
pub proof fn law_radio_packet_asks_to_be_repeated(
    src: AddressView,
    tocall: AddressView,
    path: Seq<AddressView>,
    info: Seq<u8>,
    k: int,
)
    requires
        src.valid() && tocall.valid(),
        forall|i: int| 0 <= i < path.len() ==> (#[trigger] path[i]).valid(),
        0 <= k < path.len(),
    ensures
        spec_from_frame(spec_radio_frame(src, tocall, path, info)) == spec_heard_of_us(
            src,
            tocall,
            path,
            info,
        ),
        spec_radio_frame(src, tocall, path, info).encoded()[7 * (k + 2) + 6] & 0x80 == 0,
        spec_radio_frame(src, tocall, path, info).encoded()[6] & 0x80 != 0,
        spec_radio_frame(src, tocall, path, info).encoded()[13] & 0x80 == 0,
{
    let frame = spec_radio_frame(src, tocall, path, info);
    assert(spec_from_frame(frame).path =~= spec_heard_of_us(src, tocall, path, info).path);
    assert forall|i: int| 0 <= i < frame.digis.len() implies (#[trigger] frame.digis[i]).0.valid() by {
        assert(path[i].valid());
    }
    law_wire_of_frame(frame, k + 2, 0);
    law_wire_of_frame(frame, 0, 0);
    law_wire_of_frame(frame, 1, 0);
    assert(frame.digis[k] == (path[k], false));
}

/// Frames on other channels are not for us.
pub proof fn law_other_channels_are_ignored(frames: Seq<KissFrameView>, n: int, chan: u8)
    requires
        0 <= n <= frames.len(),
        forall|i: int| 0 <= i < n ==> (#[trigger] frames[i]).channel != chan,
    ensures
        spec_kiss_heard(frames, n, chan) == Seq::<HeardView>::empty(),
    decreases n,
{
    if n > 0 {
        law_other_channels_are_ignored(frames, n - 1, chan);
        assert(frames[n - 1].channel != chan);
    }
}

/// Every frame on our channel that holds a packet is heard, behind those before it.
pub proof fn law_our_channel_is_heard(
    frames: Seq<KissFrameView>,
    payload: Seq<u8>,
    frame: UiFrameView,
    chan: u8,
)
    requires
        spec_decode_frame(payload) == Some(frame),
    ensures
        ({
            let more = frames.push(KissFrameView { channel: chan as int, payload });
            spec_kiss_heard(more, more.len() as int, chan) == spec_kiss_heard(
                frames,
                frames.len() as int,
                chan,
            ).push(spec_from_frame(frame))
        }),
{
    lemma_heard_prefix(
        frames,
        KissFrameView { channel: chan as int, payload },
        frames.len() as int,
        chan,
    );
}

proof fn lemma_heard_prefix(frames: Seq<KissFrameView>, more: KissFrameView, n: int, chan: u8)
    requires
        0 <= n <= frames.len(),
    ensures
        spec_kiss_heard(frames.push(more), n, chan) == spec_kiss_heard(frames, n, chan),
    decreases n,
{
    if n > 0 {
        lemma_heard_prefix(frames, more, n - 1, chan);
        assert(frames.push(more)[n - 1] == frames[n - 1]);
    }
}

/// What is said to an APRS-IS server: who we are, our passcode, the software and the filter, in one
/// line; packets as lines with the path `TCPIP*`; and a comment after five minutes of silence.
pub proof fn law_words_to_the_server(
    call: Seq<char>,
    code: u16,
    filter: Seq<char>,
    src: AddressView,
    tocall: AddressView,
    info: Seq<u8>,
    quiet: u128,
    now: u128,
    chan: u8,
)
    ensures
        spec_login_line(call, code, filter) == encode_utf8(
            "user "@ + call + " pass "@ + spec_decimal(code as nat) + " vers aprsmsg "@ + "0.1.0"@
                + " filter "@ + filter + "\r\n"@,
        ),
        spec_internet_packet(src, tocall, info) == encode_utf8(
            (src.text() + ">"@ + tocall.text() + ",TCPIP*"@) + ":"@,
        ) + info + seq![13u8, 10],
        (Link::AprsIs { last_tx: quiet }).spec_keepalive_due(now) <==> now >= quiet
            + 300_000_000_000,
        (Link::AprsIs { last_tx: quiet }).spec_next_deadline() == Some(quiet + 300_000_000_000),
        (Link::AprsIs { last_tx: quiet }).after_write(now) == (Link::AprsIs { last_tx: now }),
        !(Link::Kiss { chan }).spec_keepalive_due(now),
        (Link::Kiss { chan }).spec_next_deadline() is None,
        spec_keepalive_line() == encode_utf8("# aprsmsg keepalive\r\n"@),
{
}

/// A comment of the server is told where it answers the login, and is never taken for a packet.
pub proof fn law_comments_of_the_server(comment: Seq<u8>)
    requires
        comment.len() > 0 ==> comment.last() != 0x0d && comment.last() != 0x0a,
    ensures
        ({
            let text = spec_trim(spec_text_of(comment));
            spec_line_event(seq!['#' as u8] + comment) == if text.len() >= 7 && text.take(7)
                == "logresp"@ {
                Some(LinkEventView::Notice(text))
            } else {
                None
            }
        }),
{
    reveal_strlit("logresp");
    let line = seq!['#' as u8] + comment;
    let text = spec_trim(spec_text_of(comment));
    assert(line.last() == if comment.len() > 0 {
        comment.last()
    } else {
        '#' as u8
    });
    assert(spec_trim_line_end(line) == line);
    assert(line.skip(1) =~= comment);
    if text.len() >= 7 {
        assert(text.take(7) =~= text.subrange(0, 7));
    }
}

/// A packet to an APRS-IS server is one line: its only line feed is its last byte.
pub proof fn lemma_internet_packet_is_a_line(src: AddressView, tocall: AddressView, info: Seq<u8>)
    requires
        src.valid() && tocall.valid(),
        !info.contains(0x0au8),
    ensures
        ({
            let packet = spec_internet_packet(src, tocall, info);
            &&& packet.len() > 0 && packet.last() == 0x0au8
            &&& packet[0] != '#' as u8
            &&& forall|i: int| 0 <= i < packet.len() - 1 ==> #[trigger] packet[i] != 0x0au8
        }),
{
    let header = spec_internet_header(src, tocall) + ":"@;
    reveal_strlit(">");
    reveal_strlit(":");
    reveal_strlit(",TCPIP*");
    lemma_address_text(src);
    lemma_address_text(tocall);
    assert forall|i: int| 0 <= i < header.len() implies '!' <= #[trigger] header[i] <= '\u{7f}' by {
        if i < src.text().len() {
            assert(header[i] == src.text()[i]);
        } else if src.text().len() < i < src.text().len() + 1 + tocall.text().len() {
            assert(header[i] == tocall.text()[i - src.text().len() - 1]);
        }
    }
    assert(header[0] == src.text()[0]);
    vstd::utf8::is_ascii_chars_encode_utf8(header);
    let head = encode_utf8(header);
    let packet = spec_internet_packet(src, tocall, info);
    assert forall|i: int| 0 <= i < packet.len() - 1 implies #[trigger] packet[i] != 0x0au8 by {
        if i < head.len() {
            assert(packet[i] == header[i] as u8);
            assert('!' <= header[i]);
        } else if i < head.len() + info.len() {
            assert(packet[i] == info[i - head.len()]);
            assert(info.contains(info[i - head.len()]));
        }
    }
}

/// Why a link was closed is told: which link, and by whom or by which error.
pub proof fn law_closed_links_are_told(e: Seq<char>)
    ensures
        spec_closed_reason(true, None) == "Direwolf closed the KISS connection"@,
        spec_closed_reason(true, Some(e)) == "KISS connection error: "@ + e,
        spec_closed_reason(false, None) == "APRS-IS server closed the connection"@,
        spec_closed_reason(false, Some(e)) == "APRS-IS connection error: "@ + e,
{
}

} // verus!
