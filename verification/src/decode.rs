//! Human-readable decoding of APRS information fields for the monitor view:
//! positions (plain, timestamped, compressed), Mic-E, objects, items, status,
//! messages and third-party packets relayed from the internet.

use vstd::prelude::*;
use vstd::slice::slice_subrange;
use vstd::utf8::encode_utf8;

use crate::aprs::{parse_message, spec_parse_message, Message, MessageView};
use crate::encoding::{lemma_text_of_encoded, spec_text_of, text_of};
use crate::mic_e::{mic_e, spec_mic_e};
use crate::numeral::{push_hex2, spec_hex2};
pub use crate::position::{Figures, Fix};
use crate::position::{position, spec_position, FiguresView, FixView};
use crate::split::{
    before, find_byte, lemma_find_from, lemma_find_from_is, lemma_find_from_none, spec_before,
    spec_find, spec_split_once, split_once,
};
use crate::text::{
    chars_of, is_control, spec_is_control, spec_trim, spec_trim_end, starts_with, string_of, trim,
    trim_end,
};

verus! {

pub const MAX_DEPTH: usize = 3;

#[allow(inconsistent_fields)]
#[derive(Debug, PartialEq, Eq)]
pub enum Packet {
    Position(Fix),
    MicE { fix: Fix, status: &'static str, device: Option<&'static str> },
    Object { name: String, killed: bool, fix: Fix },
    Item { name: String, killed: bool, fix: Fix },
    Status(String),
    Message(Message),
    ThirdParty { source: String, inner: Box<Packet> },
    Other(&'static str),
    Unknown,
}

#[allow(inconsistent_fields)]
pub enum PacketView {
    Position(FixView),
    MicE { fix: FixView, status: Seq<char>, device: Option<Seq<char>> },
    Object { name: Seq<char>, killed: bool, fix: FixView },
    Item { name: Seq<char>, killed: bool, fix: FixView },
    Status(Seq<char>),
    Message(MessageView),
    ThirdParty { source: Seq<char>, inner: Box<PacketView> },
    Other(Seq<char>),
    Unknown,
}

impl Packet {
    pub open spec fn model(self) -> PacketView
        decreases self,
    {
        match self {
            Packet::Position(fix) => PacketView::Position(fix@),
            Packet::MicE { fix, status, device } => PacketView::MicE {
                fix: fix@,
                status: status@,
                device: match device {
                    Some(name) => Some(name@),
                    None => None,
                },
            },
            Packet::Object { name, killed, fix } => PacketView::Object {
                name: name@,
                killed,
                fix: fix@,
            },
            Packet::Item { name, killed, fix } => PacketView::Item { name: name@, killed, fix: fix@ },
            Packet::Status(text) => PacketView::Status(text@),
            Packet::Message(message) => PacketView::Message(message@),
            Packet::ThirdParty { source, inner } => PacketView::ThirdParty {
                source: source@,
                inner: Box::new((*inner).model()),
            },
            Packet::Other(what) => PacketView::Other(what@),
            Packet::Unknown => PacketView::Unknown,
        }
    }
}

impl View for Packet {
    type V = PacketView;

    open spec fn view(&self) -> PacketView {
        self.model()
    }
}

impl Clone for Packet {
    fn clone(&self) -> (r: Packet)
        ensures
            r == *self,
        decreases self,
    {
        match self {
            Packet::Position(fix) => Packet::Position(fix.clone()),
            Packet::MicE { fix, status, device } => Packet::MicE {
                fix: fix.clone(),
                status: *status,
                device: *device,
            },
            Packet::Object { name, killed, fix } => Packet::Object {
                name: name.clone(),
                killed: *killed,
                fix: fix.clone(),
            },
            Packet::Item { name, killed, fix } => Packet::Item {
                name: name.clone(),
                killed: *killed,
                fix: fix.clone(),
            },
            Packet::Status(text) => Packet::Status(text.clone()),
            Packet::Message(message) => Packet::Message(message.clone()),
            Packet::ThirdParty { source, inner } => Packet::ThirdParty {
                source: source.clone(),
                inner: Box::new((**inner).clone()),
            },
            Packet::Other(what) => Packet::Other(*what),
            Packet::Unknown => Packet::Unknown,
        }
    }
}

// ---------------------------------------------------------------------------
// Decoding
// ---------------------------------------------------------------------------

/// Nothing but carriage returns and line feeds.
pub open spec fn spec_is_line_end(bytes: Seq<u8>) -> bool {
    forall|i: int| 0 <= i < bytes.len() ==> #[trigger] bytes[i] == 0x0d || bytes[i] == 0x0a
}

/// Every trailing carriage return and line feed removed.
pub open spec fn spec_trim_line_end(info: Seq<u8>) -> Seq<u8>
    decreases info.len(),
{
    if info.len() > 0 && (info.last() == 0x0d || info.last() == 0x0a) {
        spec_trim_line_end(info.drop_last())
    } else {
        info
    }
}

/// `;NAME_____*DDHHMMz` + position (name is exactly 9 characters).
pub open spec fn spec_object(body: Seq<u8>) -> Option<PacketView> {
    if body.len() < 17 || (body[9] != '*' as u8 && body[9] != '_' as u8) {
        None
    } else {
        match spec_position(body.skip(17)) {
            Some(fix) => Some(
                PacketView::Object {
                    name: spec_trim_end(spec_text_of(body.take(9))),
                    killed: body[9] == '_' as u8,
                    fix,
                },
            ),
            None => None,
        }
    }
}

/// The first `!` or `_` among the bytes from `from` on that come before the tenth.
pub open spec fn spec_item_mark(body: Seq<u8>, from: int) -> Option<int>
    decreases 10 - from,
{
    if from < 0 || from >= 10 || from >= body.len() {
        None
    } else if body[from] == '!' as u8 || body[from] == '_' as u8 {
        Some(from)
    } else {
        spec_item_mark(body, from + 1)
    }
}

/// `)NAME!` + position (3-9 character name, `!` live or `_` killed).
pub open spec fn spec_item(body: Seq<u8>) -> Option<PacketView> {
    match spec_item_mark(body, 0) {
        Some(end) => if end < 3 {
            None
        } else {
            match spec_position(body.skip(end + 1)) {
                Some(fix) => Some(
                    PacketView::Item {
                        name: spec_text_of(body.take(end)),
                        killed: body[end] == '_' as u8,
                        fix,
                    },
                ),
                None => None,
            }
        },
        None => None,
    }
}

/// `DDHHMMz` in front.
pub open spec fn spec_is_timestamped(body: Seq<u8>) -> bool {
    &&& body.len() >= 7
    &&& body[6] == 'z' as u8
    &&& forall|i: int| 0 <= i < 6 ==> '0' as u8 <= #[trigger] body[i] <= '9' as u8
}

/// Status text, without an optional leading `DDHHMMz` timestamp.
pub open spec fn spec_status_text(body: Seq<u8>) -> Seq<char> {
    spec_text_of(
        if spec_is_timestamped(body) {
            body.skip(7)
        } else {
            body
        },
    )
}

/// `}SRC>DEST,PATH:info` — a packet relayed from the internet by an iGate.
pub open spec fn spec_third_party(body: Seq<u8>, depth: int) -> Option<PacketView>
    decreases MAX_DEPTH - depth, 0int,
    when depth < MAX_DEPTH
{
    match spec_find(body, ':' as u8) {
        Some(colon) => match spec_split_once(spec_text_of(body.take(colon)), '>') {
            Some((source, route)) => Some(
                PacketView::ThirdParty {
                    source: spec_trim(source),
                    inner: Box::new(
                        spec_decode_at(
                            spec_before(spec_before(route, ','), '-'),
                            body.skip(colon + 1),
                            depth + 1,
                        ),
                    ),
                },
            ),
            None => None,
        },
        None => None,
    }
}

/// The position in `body`, as a packet.
pub open spec fn spec_position_packet(body: Seq<u8>) -> Option<PacketView> {
    match spec_position(body) {
        Some(fix) => Some(PacketView::Position(fix)),
        None => None,
    }
}

/// What an information field says, by its first byte; `None` where that cannot be read.
pub open spec fn spec_decode_kind(dest_call: Seq<char>, info: Seq<u8>, depth: int) -> Option<
    PacketView,
>
    decreases MAX_DEPTH - depth, 1int,
    when depth <= MAX_DEPTH
{
    let kind = info[0] as char;
    let body = info.skip(1);
    if kind == '!' || kind == '=' {
        spec_position_packet(body)
    } else if kind == '/' || kind == '@' {
        if body.len() >= 7 {
            spec_position_packet(body.skip(7))
        } else {
            None
        }
    } else if kind == '`' || kind == '\'' || kind == '\u{1c}' || kind == '\u{1d}' {
        match spec_mic_e(dest_call, body) {
            Some((fix, status, device)) => Some(PacketView::MicE { fix, status, device }),
            None => None,
        }
    } else if kind == ';' {
        spec_object(body)
    } else if kind == ')' {
        spec_item(body)
    } else if kind == '>' {
        Some(PacketView::Status(spec_status_text(body)))
    } else if kind == ':' {
        match spec_parse_message(info) {
            Some(message) => Some(PacketView::Message(message)),
            None => None,
        }
    } else if kind == '}' && depth < MAX_DEPTH {
        spec_third_party(body, depth)
    } else if kind == '_' {
        Some(PacketView::Other("Weather report"@))
    } else if kind == 'T' && body.len() > 0 && body[0] == '#' as u8 {
        Some(PacketView::Other("Telemetry"@))
    } else if kind == '<' {
        Some(PacketView::Other("Station capabilities"@))
    } else if kind == '?' {
        Some(PacketView::Other("Query"@))
    } else if kind == '$' {
        Some(PacketView::Other("Raw GPS (NMEA)"@))
    } else if kind == '{' {
        Some(PacketView::Other("User-defined data"@))
    } else {
        None
    }
}

/// The packet in an information field inside `depth` third-party wrappers.
pub open spec fn spec_decode_at(dest_call: Seq<char>, info: Seq<u8>, depth: int) -> PacketView
    decreases MAX_DEPTH - depth, 2int,
    when depth <= MAX_DEPTH
{
    let trimmed = spec_trim_line_end(info);
    if trimmed.len() == 0 {
        PacketView::Unknown
    } else {
        match spec_decode_kind(dest_call, trimmed, depth) {
            Some(packet) => packet,
            None => PacketView::Unknown,
        }
    }
}

pub open spec fn spec_decode(dest_call: Seq<char>, info: Seq<u8>) -> PacketView {
    spec_decode_at(dest_call, info, 0)
}

/// Decodes an information field; `dest_call` is the AX.25 destination
/// callsign without SSID (Mic-E encodes the latitude there).
pub fn decode(dest_call: &str, info: &[u8]) -> (r: Packet)
    ensures
        r@ == spec_decode(dest_call@, info@),
{
    decode_at(dest_call, info, 0)
}

/// The bytes without trailing carriage returns and line feeds.
pub fn trim_line_end(info: &[u8]) -> (r: &[u8])
    ensures
        r@ == spec_trim_line_end(info@),
{
    let mut end: usize = info.len();
    assert(info@.take(end as int) =~= info@);
    while end > 0 && (info[end - 1] == 0x0d || info[end - 1] == 0x0a)
        invariant
            end <= info@.len(),
            spec_trim_line_end(info@) == spec_trim_line_end(info@.take(end as int)),
        decreases end,
    {
        assert(info@.take(end as int).drop_last() =~= info@.take(end - 1));
        end -= 1;
    }
    slice_subrange(info, 0, end)
}

fn lossy(bytes: &[u8]) -> (r: String)
    ensures
        r@ == spec_text_of(bytes@),
{
    string_of(text_of(bytes).as_slice())
}

/// The slice from `start` on.
fn from(bytes: &[u8], start: usize) -> (r: &[u8])
    requires
        start <= bytes@.len(),
    ensures
        r@ == bytes@.skip(start as int),
{
    let r = slice_subrange(bytes, start, bytes.len());
    assert(r@ =~= bytes@.skip(start as int));
    r
}

fn position_packet(body: &[u8]) -> (r: Option<Packet>)
    ensures
        match r {
            Some(packet) => spec_position_packet(body@) == Some(packet@),
            None => spec_position_packet(body@) is None,
        },
{
    match position(body) {
        Some(fix) => Some(Packet::Position(fix)),
        None => None,
    }
}

fn object(body: &[u8]) -> (r: Option<Packet>)
    ensures
        match r {
            Some(packet) => spec_object(body@) == Some(packet@),
            None => spec_object(body@) is None,
        },
{
    if body.len() < 17 || (body[9] != '*' as u8 && body[9] != '_' as u8) {
        return None;
    }
    match position(from(body, 17)) {
        Some(fix) => {
            let name = text_of(slice_subrange(body, 0, 9));
            Some(
                Packet::Object {
                    name: string_of(trim_end(name.as_slice())),
                    killed: body[9] == '_' as u8,
                    fix,
                },
            )
        },
        None => None,
    }
}

fn item_mark(body: &[u8]) -> (r: Option<usize>)
    ensures
        match r {
            Some(end) => spec_item_mark(body@, 0) == Some(end as int) && end < body@.len(),
            None => spec_item_mark(body@, 0) is None,
        },
{
    let mut i: usize = 0;
    while i < 10 && i < body.len()
        invariant
            i <= 10,
            spec_item_mark(body@, 0) == spec_item_mark(body@, i as int),
        decreases 10 - i,
    {
        if body[i] == '!' as u8 || body[i] == '_' as u8 {
            return Some(i);
        }
        i += 1;
    }
    None
}

fn item(body: &[u8]) -> (r: Option<Packet>)
    ensures
        match r {
            Some(packet) => spec_item(body@) == Some(packet@),
            None => spec_item(body@) is None,
        },
{
    let end: usize = match item_mark(body) {
        Some(end) => end,
        None => return None,
    };
    assert(end < body.len());
    if end < 3 {
        return None;
    }
    match position(from(body, end + 1)) {
        Some(fix) => Some(
            Packet::Item {
                name: lossy(slice_subrange(body, 0, end)),
                killed: body[end] == '_' as u8,
                fix,
            },
        ),
        None => None,
    }
}

fn is_timestamped(body: &[u8]) -> (r: bool)
    ensures
        r == spec_is_timestamped(body@),
{
    if body.len() < 7 || body[6] != 'z' as u8 {
        return false;
    }
    for i in 0..6usize
        invariant
            body@.len() >= 7,
            forall|j: int| 0 <= j < i ==> '0' as u8 <= #[trigger] body@[j] <= '9' as u8,
    {
        if body[i] < '0' as u8 || body[i] > '9' as u8 {
            assert(!('0' as u8 <= body@[i as int] <= '9' as u8));
            return false;
        }
    }
    true
}

fn status_text(body: &[u8]) -> (r: String)
    ensures
        r@ == spec_status_text(body@),
{
    if is_timestamped(body) {
        lossy(from(body, 7))
    } else {
        lossy(body)
    }
}

fn third_party(body: &[u8], depth: usize) -> (r: Option<Packet>)
    requires
        depth < MAX_DEPTH,
    ensures
        match r {
            Some(packet) => spec_third_party(body@, depth as int) == Some(packet@),
            None => spec_third_party(body@, depth as int) is None,
        },
    decreases MAX_DEPTH - depth, 0int,
{
    let colon: usize = match find_byte(body, ':' as u8) {
        Some(colon) => colon,
        None => return None,
    };
    assert(colon < body.len());
    let header = text_of(slice_subrange(body, 0, colon));
    match split_once(header.as_slice(), '>') {
        Some((source, route)) => {
            let dest_call = string_of(before(before(route, ','), '-'));
            let inner = decode_at(dest_call.as_str(), from(body, colon + 1), depth + 1);
            Some(Packet::ThirdParty { source: string_of(trim(source)), inner: Box::new(inner) })
        },
        None => None,
    }
}

fn decode_kind(dest_call: &str, info: &[u8], depth: usize) -> (r: Option<Packet>)
    requires
        depth <= MAX_DEPTH,
        info@.len() > 0,
    ensures
        match r {
            Some(packet) => spec_decode_kind(dest_call@, info@, depth as int) == Some(packet@),
            None => spec_decode_kind(dest_call@, info@, depth as int) is None,
        },
    decreases MAX_DEPTH - depth, 1int,
{
    let body = from(info, 1);
    match info[0] as char {
        '!' | '=' => position_packet(body),
        '/' | '@' => if body.len() >= 7 {
            position_packet(from(body, 7))
        } else {
            None
        },
        '`' | '\'' | '\u{1c}' | '\u{1d}' => match mic_e(dest_call, body) {
            Some((fix, status, device)) => Some(Packet::MicE { fix, status, device }),
            None => None,
        },
        ';' => object(body),
        ')' => item(body),
        '>' => Some(Packet::Status(status_text(body))),
        ':' => match parse_message(info) {
            Some(message) => Some(Packet::Message(message)),
            None => None,
        },
        '}' => if depth < MAX_DEPTH {
            third_party(body, depth)
        } else {
            None
        },
        '_' => Some(Packet::Other("Weather report")),
        'T' => if body.len() > 0 && body[0] == '#' as u8 {
            Some(Packet::Other("Telemetry"))
        } else {
            None
        },
        '<' => Some(Packet::Other("Station capabilities")),
        '?' => Some(Packet::Other("Query")),
        '$' => Some(Packet::Other("Raw GPS (NMEA)")),
        '{' => Some(Packet::Other("User-defined data")),
        _ => None,
    }
}

fn decode_at(dest_call: &str, info: &[u8], depth: usize) -> (r: Packet)
    requires
        depth <= MAX_DEPTH,
    ensures
        r@ == spec_decode_at(dest_call@, info@, depth as int),
    decreases MAX_DEPTH - depth, 2int,
{
    let trimmed = trim_line_end(info);
    if trimmed.len() == 0 {
        return Packet::Unknown;
    }
    match decode_kind(dest_call, trimmed, depth) {
        Some(packet) => packet,
        None => Packet::Unknown,
    }
}

// ---------------------------------------------------------------------------
// Display
// ---------------------------------------------------------------------------

/// ` (killed)` behind the name of an object or item that is no longer there.
pub open spec fn spec_killed_mark(killed: bool) -> Seq<char> {
    if killed {
        " (killed)"@
    } else {
        Seq::empty()
    }
}

/// What a message says, in words.
pub open spec fn spec_describe_message(message: MessageView) -> Seq<char> {
    match message {
        MessageView::Text { to, text, id, .. } => (if "BLN"@.is_prefix_of(to) {
            "Bulletin"@
        } else {
            "Message to"@
        }) + " "@ + to + ": "@ + text + match id {
            Some(id) => " (#"@ + id + ")"@,
            None => Seq::empty(),
        },
        MessageView::Ack { to, id } => "Ack #"@ + id + " to "@ + to,
        MessageView::Rej { to, id } => "Reject #"@ + id + " to "@ + to,
    }
}

impl PacketView {
    pub open spec fn describe(self, figures: FiguresView) -> Seq<char>
        decreases self,
    {
        match self {
            PacketView::Position(fix) => "Position: "@ + fix.describe(figures),
            PacketView::MicE { fix, status, device } => "Mic-E"@ + (match device {
                Some(name) => " "@ + name,
                None => Seq::empty(),
            }) + ", "@ + status + ": "@ + fix.describe(figures),
            PacketView::Object { name, killed, fix } => "Object "@ + name + spec_killed_mark(killed)
                + ": "@ + fix.describe(figures),
            PacketView::Item { name, killed, fix } => "Item "@ + name + spec_killed_mark(killed)
                + ": "@ + fix.describe(figures),
            PacketView::Status(text) => "Status: "@ + text,
            PacketView::Message(message) => spec_describe_message(message),
            PacketView::ThirdParty { source, inner } => "Via internet from "@ + source + ": "@
                + (*inner).describe(figures),
            PacketView::Other(what) => what,
            PacketView::Unknown => "Not decoded"@,
        }
    }

    /// The packet inside every third-party wrapper.
    pub open spec fn innermost(self) -> PacketView
        decreases self,
    {
        match self {
            PacketView::ThirdParty { inner, .. } => (*inner).innermost(),
            _ => self,
        }
    }

    /// The fix that the packet reports, inside any third-party wrapper.
    pub open spec fn fix(self) -> Option<FixView>
        decreases self,
    {
        match self {
            PacketView::Position(fix) => Some(fix),
            PacketView::MicE { fix, .. } => Some(fix),
            PacketView::Object { fix, .. } => Some(fix),
            PacketView::Item { fix, .. } => Some(fix),
            PacketView::ThirdParty { inner, .. } => (*inner).fix(),
            _ => None,
        }
    }

    /// Number of third-party wrappers.
    pub open spec fn wrappers(self) -> nat
        decreases self,
    {
        match self {
            PacketView::ThirdParty { inner, .. } => 1 + (*inner).wrappers(),
            _ => 0,
        }
    }
}

fn describe_message(message: &Message) -> (r: String)
    ensures
        r@ == spec_describe_message(message@),
{
    match message {
        Message::Text { to, text, id, .. } => {
            let mut out = if starts_with(chars_of(to.as_str()).as_slice(), "BLN") {
                String::from_str("Bulletin")
            } else {
                String::from_str("Message to")
            };
            out.append(" ");
            out.append(to.as_str());
            out.append(": ");
            out.append(text.as_str());
            if let Some(id) = id {
                out.append(" (#");
                out.append(id.as_str());
                out.append(")");
            }
            assert(out@ =~= spec_describe_message(message@));
            out
        },
        Message::Ack { to, id } => {
            let mut out = String::from_str("Ack #");
            out.append(id.as_str());
            out.append(" to ");
            out.append(to.as_str());
            out
        },
        Message::Rej { to, id } => {
            let mut out = String::from_str("Reject #");
            out.append(id.as_str());
            out.append(" to ");
            out.append(to.as_str());
            out
        },
    }
}

/// `KIND NAME (killed): ` and the fix.
fn describe_named(kind: &str, name: &str, killed: bool, fix: &Fix, figures: &Figures) -> (r: String)
    ensures
        r@ == kind@ + name@ + spec_killed_mark(killed) + ": "@ + fix@.describe(figures@),
{
    let mut out = String::from_str(kind);
    out.append(name);
    if killed {
        out.append(" (killed)");
    }
    assert(out@ =~= kind@ + name@ + spec_killed_mark(killed));
    out.append(": ");
    out.append(fix.describe(figures).as_str());
    out
}

impl Packet {
    /// The packet in one line. The figures are those of its fix, where it has one.
    pub fn describe(&self, figures: &Figures) -> (r: String)
        ensures
            r@ == self@.describe(figures@),
        decreases self,
    {
        match self {
            Packet::Position(fix) => {
                let mut out = String::from_str("Position: ");
                out.append(fix.describe(figures).as_str());
                out
            },
            Packet::MicE { fix, status, device } => {
                let mut out = String::from_str("Mic-E");
                if let Some(name) = device {
                    out.append(" ");
                    out.append(name);
                }
                out.append(", ");
                out.append(status);
                out.append(": ");
                out.append(fix.describe(figures).as_str());
                assert(out@ =~= self@.describe(figures@));
                out
            },
            Packet::Object { name, killed, fix } => describe_named(
                "Object ",
                name.as_str(),
                *killed,
                fix,
                figures,
            ),
            Packet::Item { name, killed, fix } => describe_named(
                "Item ",
                name.as_str(),
                *killed,
                fix,
                figures,
            ),
            Packet::Status(text) => {
                let mut out = String::from_str("Status: ");
                out.append(text.as_str());
                out
            },
            Packet::Message(message) => describe_message(message),
            Packet::ThirdParty { source, inner } => {
                let mut out = String::from_str("Via internet from ");
                out.append(source.as_str());
                out.append(": ");
                out.append((**inner).describe(figures).as_str());
                out
            },
            Packet::Other(what) => String::from_str(what),
            Packet::Unknown => String::from_str("Not decoded"),
        }
    }

    /// The packet inside every third-party wrapper.
    pub fn innermost(self) -> (r: Packet)
        ensures
            r@ == self@.innermost(),
        decreases self,
    {
        match self {
            Packet::ThirdParty { inner, .. } => (*inner).innermost(),
            other => other,
        }
    }

    /// The fix that the packet reports, inside any third-party wrapper.
    pub fn fix(&self) -> (r: Option<&Fix>)
        ensures
            match r {
                Some(fix) => self@.fix() == Some(fix@),
                None => self@.fix() is None,
            },
        decreases self,
    {
        match self {
            Packet::Position(fix) => Some(fix),
            Packet::MicE { fix, .. } => Some(fix),
            Packet::Object { fix, .. } => Some(fix),
            Packet::Item { fix, .. } => Some(fix),
            Packet::ThirdParty { inner, .. } => (**inner).fix(),
            _ => None,
        }
    }
}

/// One character for display: a control character as `<0x0d>`.
pub open spec fn spec_escape(c: char) -> Seq<char> {
    if spec_is_control(c) {
        "<0x"@ + spec_hex2(c as u32 as nat) + ">"@
    } else {
        seq![c]
    }
}

pub open spec fn spec_escape_all(s: Seq<char>) -> Seq<char>
    decreases s.len(),
{
    if s.len() == 0 {
        Seq::empty()
    } else {
        spec_escape_all(s.drop_last()) + spec_escape(s.last())
    }
}

pub open spec fn spec_printable(bytes: Seq<u8>) -> Seq<char> {
    spec_escape_all(spec_text_of(bytes))
}

/// Renders bytes for display, showing control characters as `<0x0d>`.
pub fn printable(bytes: &[u8]) -> (r: String)
    ensures
        r@ == spec_printable(bytes@),
{
    escape_all(text_of(bytes).as_slice())
}

/// Renders text for display, showing control characters as `<0x0d>`.
pub fn escape_all(text: &[char]) -> (r: String)
    ensures
        r@ == spec_escape_all(text@),
{
    let mut out = String::new();
    for i in 0..text.len()
        invariant
            out@ == spec_escape_all(text@.take(i as int)),
    {
        let c: char = text[i];
        let ghost so_far = out@;
        assert(text@.take(i + 1).drop_last() =~= text@.take(i as int));
        if is_control(c) {
            let code: u32 = c as u32;
            out.append("<0x");
            push_hex2(&mut out, code as u8);
            out.append(">");
            assert(out@ =~= so_far + spec_escape(c));
        } else {
            out.push(c);
            assert(out@ =~= so_far + spec_escape(c));
        }
    }
    assert(text@.take(text@.len() as int) =~= text@);
    out
}

// ---------------------------------------------------------------------------
// Laws
// ---------------------------------------------------------------------------

/// Decoding looks into at most three third-party wrappers.
pub proof fn law_decoding_depth_is_bounded(dest_call: Seq<char>, info: Seq<u8>)
    ensures
        spec_decode(dest_call, info).wrappers() <= MAX_DEPTH,
{
    lemma_wrappers_left(dest_call, info, 0);
}

proof fn lemma_wrappers_left(dest_call: Seq<char>, info: Seq<u8>, depth: int)
    requires
        0 <= depth <= MAX_DEPTH,
    ensures
        spec_decode_at(dest_call, info, depth).wrappers() <= MAX_DEPTH - depth,
    decreases MAX_DEPTH - depth,
{
    let trimmed = spec_trim_line_end(info);
    if trimmed.len() > 0 && trimmed[0] as char == '}' && depth < MAX_DEPTH {
        let body = trimmed.skip(1);
        if let Some(colon) = spec_find(body, ':' as u8) {
            if let Some((source, route)) = spec_split_once(spec_text_of(body.take(colon)), '>') {
                lemma_wrappers_left(
                    spec_before(spec_before(route, ','), '-'),
                    body.skip(colon + 1),
                    depth + 1,
                );
            }
        }
    }
}

/// Text made printable holds no control character.
pub proof fn law_printable_has_no_controls(bytes: Seq<u8>)
    ensures
        forall|i: int|
            0 <= i < spec_printable(bytes).len() ==> !spec_is_control(
                #[trigger] spec_printable(bytes)[i],
            ),
{
    lemma_escaped_has_no_controls(spec_text_of(bytes));
}

proof fn lemma_escaped_has_no_controls(s: Seq<char>)
    ensures
        forall|i: int|
            0 <= i < spec_escape_all(s).len() ==> !spec_is_control(
                #[trigger] spec_escape_all(s)[i],
            ),
    decreases s.len(),
{
    reveal_strlit("<0x");
    reveal_strlit(">");
    if s.len() > 0 {
        lemma_escaped_has_no_controls(s.drop_last());
        let front = spec_escape_all(s.drop_last());
        let back = spec_escape(s.last());
        assert forall|i: int| 0 <= i < back.len() implies !spec_is_control(#[trigger] back[i]) by {
            if spec_is_control(s.last()) {
                assert(back =~= seq![
                    '<',
                    '0',
                    'x',
                    spec_hex2(s.last() as u32 as nat)[0],
                    spec_hex2(s.last() as u32 as nat)[1],
                    '>',
                ]);
            }
        }
        assert forall|i: int| 0 <= i < (front + back).len() implies !spec_is_control(
            #[trigger] (front + back)[i],
        ) by {
            if i >= front.len() {
                assert((front + back)[i] == back[i - front.len()]);
            } else {
                assert((front + back)[i] == front[i]);
            }
        }
    }
}

/// Text without control characters is printed unchanged, hence what was printed once is printed
/// the same again.
pub proof fn law_printing_plain_text_changes_nothing(bytes: Seq<u8>)
    ensures
        (forall|i: int|
            0 <= i < spec_text_of(bytes).len() ==> !spec_is_control(
                #[trigger] spec_text_of(bytes)[i],
            )) ==> spec_printable(bytes) == spec_text_of(bytes),
        spec_printable(encode_utf8(spec_printable(bytes))) == spec_printable(bytes),
{
    let text = spec_text_of(bytes);
    if forall|i: int| 0 <= i < text.len() ==> !spec_is_control(#[trigger] text[i]) {
        lemma_plain_is_kept(text);
    }
    let printed = spec_printable(bytes);
    law_printable_has_no_controls(bytes);
    lemma_text_of_encoded(printed);
    lemma_plain_is_kept(printed);
}

proof fn lemma_plain_is_kept(s: Seq<char>)
    requires
        forall|i: int| 0 <= i < s.len() ==> !spec_is_control(#[trigger] s[i]),
    ensures
        spec_escape_all(s) == s,
    decreases s.len(),
{
    if s.len() > 0 {
        let front = s.drop_last();
        assert forall|i: int| 0 <= i < front.len() implies !spec_is_control(#[trigger] front[i]) by {
            assert(front[i] == s[i]);
        }
        lemma_plain_is_kept(front);
        assert(!spec_is_control(s[s.len() - 1]));
        assert(spec_escape_all(s) =~= s);
    } else {
        assert(spec_escape_all(s) =~= s);
    }
}

/// Carriage returns and line feeds behind an information field do not change what it says.
pub proof fn law_line_ends_do_not_change_packets(
    dest_call: Seq<char>,
    info: Seq<u8>,
    line_end: Seq<u8>,
)
    requires
        spec_is_line_end(line_end),
    ensures
        spec_decode(dest_call, info + line_end) == spec_decode(dest_call, info),
{
    lemma_trim_line_end(info, line_end);
}

/// A line end is removed, whatever it stands behind.
pub proof fn lemma_trim_line_end(info: Seq<u8>, line_end: Seq<u8>)
    requires
        spec_is_line_end(line_end),
    ensures
        spec_trim_line_end(info + line_end) == spec_trim_line_end(info),
    decreases line_end.len(),
{
    if line_end.len() == 0 {
        assert(info + line_end =~= info);
    } else {
        let whole = info + line_end;
        let front = line_end.drop_last();
        assert(whole.last() == line_end[line_end.len() - 1]);
        assert(whole.drop_last() =~= info + front);
        assert forall|i: int| 0 <= i < front.len() implies #[trigger] front[i] == 0x0d || front[i]
            == 0x0a by {
            assert(front[i] == line_end[i]);
        }
        lemma_trim_line_end(info, front);
    }
}

/// A packet is what its first byte says: a position behind `!` and `=`, or behind a timestamp of
/// seven bytes after `/` and `@`; a Mic-E report; a status, whose timestamp does not belong to its
/// text; a message; and what is only named. What cannot be read as that is not decoded.
pub proof fn law_packets_are_what_their_first_byte_says(dest_call: Seq<char>, info: Seq<u8>)
    requires
        info.len() > 0,
        info.last() != 0x0d && info.last() != 0x0a,
    ensures
        ({
            let packet = spec_decode(dest_call, info);
            let kind = info[0];
            &&& kind == '!' as u8 || kind == '=' as u8 ==> packet == match spec_position(
                info.skip(1),
            ) {
                Some(fix) => PacketView::Position(fix),
                None => PacketView::Unknown,
            }
            &&& kind == '/' as u8 || kind == '@' as u8 ==> packet == (if info.len() >= 8 {
                match spec_position(info.skip(8)) {
                    Some(fix) => PacketView::Position(fix),
                    None => PacketView::Unknown,
                }
            } else {
                PacketView::Unknown
            })
            &&& kind == '`' as u8 || kind == '\'' as u8 || kind == 0x1c || kind == 0x1d ==> packet
                == match spec_mic_e(dest_call, info.skip(1)) {
                Some((fix, status, device)) => PacketView::MicE { fix, status, device },
                None => PacketView::Unknown,
            }
            &&& kind == ':' as u8 ==> packet == match spec_parse_message(info) {
                Some(message) => PacketView::Message(message),
                None => PacketView::Unknown,
            }
            &&& kind == '>' as u8 ==> packet == PacketView::Status(
                spec_text_of(
                    if info.len() >= 8 && info[7] == 'z' as u8 && (forall|i: int|
                        1 <= i <= 6 ==> 48 <= #[trigger] info[i] <= 57) {
                        info.skip(8)
                    } else {
                        info.skip(1)
                    },
                ),
            )
            &&& kind == '_' as u8 ==> packet == PacketView::Other("Weather report"@)
            &&& kind == 'T' as u8 && info.len() > 1 && info[1] == '#' as u8 ==> packet
                == PacketView::Other("Telemetry"@)
            &&& kind == '<' as u8 ==> packet == PacketView::Other("Station capabilities"@)
            &&& kind == '?' as u8 ==> packet == PacketView::Other("Query"@)
            &&& kind == '$' as u8 ==> packet == PacketView::Other("Raw GPS (NMEA)"@)
            &&& kind == '{' as u8 ==> packet == PacketView::Other("User-defined data"@)
            &&& kind == 'T' as u8 && !(info.len() > 1 && info[1] == '#' as u8) ==> packet
                == PacketView::Unknown
            &&& !seq![
                '!' as u8,
                '=' as u8,
                '/' as u8,
                '@' as u8,
                '`' as u8,
                '\'' as u8,
                0x1cu8,
                0x1du8,
                ';' as u8,
                ')' as u8,
                '>' as u8,
                ':' as u8,
                '}' as u8,
                '_' as u8,
                'T' as u8,
                '<' as u8,
                '?' as u8,
                '$' as u8,
                '{' as u8,
            ].contains(kind) ==> packet == PacketView::Unknown
        }),
{
    let body = info.skip(1);
    assert(info.len() >= 8 ==> body.skip(7) =~= info.skip(8));
    assert(spec_trim_line_end(info) == info);
    let kinds = seq![
        '!' as u8,
        '=' as u8,
        '/' as u8,
        '@' as u8,
        '`' as u8,
        '\'' as u8,
        0x1cu8,
        0x1du8,
        ';' as u8,
        ')' as u8,
        '>' as u8,
        ':' as u8,
        '}' as u8,
        '_' as u8,
        'T' as u8,
        '<' as u8,
        '?' as u8,
        '$' as u8,
        '{' as u8,
    ];
    assert forall|i: int| 0 <= i < 19 implies kinds.contains(#[trigger] kinds[i]) by {}
    assert(kinds[0] == 33 && kinds[1] == 61 && kinds[2] == 47 && kinds[3] == 64 && kinds[4] == 96);
    assert(kinds[5] == 39 && kinds[6] == 28 && kinds[7] == 29 && kinds[8] == 59 && kinds[9] == 41);
    assert(kinds[10] == 62 && kinds[11] == 58 && kinds[12] == 125 && kinds[13] == 95);
    assert(kinds[14] == 84 && kinds[15] == 60 && kinds[16] == 63 && kinds[17] == 36);
    assert(kinds[18] == 123);
    if info[0] == '>' as u8 && info.len() >= 8 {
        if forall|i: int| 1 <= i <= 6 ==> 48 <= #[trigger] info[i] <= 57 {
            assert forall|i: int| 0 <= i < 6 implies '0' as u8 <= #[trigger] body[i]
                <= '9' as u8 by {
                assert(body[i] == info[i + 1]);
            }
        } else {
            let i = choose|i: int| 1 <= i <= 6 && !(48 <= #[trigger] info[i] <= 57);
            assert(body[i - 1] == info[i]);
        }
    }
}

/// An object has a name of nine bytes, `*` where it is alive and `_` where it was killed, and its
/// position behind a timestamp of seven bytes.
pub proof fn law_objects_have_a_name_and_a_place(dest_call: Seq<char>, info: Seq<u8>)
    requires
        info.len() >= 18,
        info.last() != 0x0d && info.last() != 0x0a,
        info[0] == ';' as u8,
    ensures
        ({
            let packet = spec_decode(dest_call, info);
            match spec_position(info.skip(18)) {
                Some(fix) => if info[10] == '*' as u8 || info[10] == '_' as u8 {
                    packet == PacketView::Object {
                        name: spec_trim_end(spec_text_of(info.subrange(1, 10))),
                        killed: info[10] == '_' as u8,
                        fix,
                    }
                } else {
                    packet is Unknown
                },
                None => packet is Unknown,
            }
        }),
{
    let body = info.skip(1);
    assert(spec_trim_line_end(info) == info);
    assert(body.skip(17) =~= info.skip(18));
    assert(body.take(9) =~= info.subrange(1, 10));
}

/// An item has a name of three to nine bytes, `!` behind it where it is alive and `_` where it was
/// killed, and its position behind that.
pub proof fn law_items_have_a_name_and_a_place(dest_call: Seq<char>, info: Seq<u8>, end: int)
    requires
        info.last() != 0x0d && info.last() != 0x0a,
        4 <= end <= 10,
        end < info.len(),
        info[0] == ')' as u8,
        info[end] == '!' as u8 || info[end] == '_' as u8,
        forall|i: int|
            1 <= i < end ==> #[trigger] info[i] != '!' as u8 && info[i] != '_' as u8,
    ensures
        spec_decode(dest_call, info) == match spec_position(info.skip(end + 1)) {
            Some(fix) => PacketView::Item {
                name: spec_text_of(info.subrange(1, end)),
                killed: info[end] == '_' as u8,
                fix,
            },
            None => PacketView::Unknown,
        },
{
    let body = info.skip(1);
    assert(spec_trim_line_end(info) == info);
    lemma_item_mark_is(body, 0, end - 1);
    assert(body.skip(end) =~= info.skip(end + 1));
    assert(body.take(end - 1) =~= info.subrange(1, end));
}

proof fn lemma_item_mark_is(body: Seq<u8>, from: int, at: int)
    requires
        0 <= from <= at < 10,
        at < body.len(),
        body[at] == '!' as u8 || body[at] == '_' as u8,
        forall|i: int|
            from <= i < at ==> #[trigger] body[i] != '!' as u8 && body[i] != '_' as u8,
    ensures
        spec_item_mark(body, from) == Some(at),
    decreases at - from,
{
    if from < at {
        assert(body[from] != '!' as u8);
        lemma_item_mark_is(body, from + 1, at);
    }
}

/// A packet that was relayed from the internet is the packet inside, from the station in front of
/// `>`, read with the destination that follows it there.
#[verifier::spinoff_prover]
#[verifier::rlimit(50)]
pub proof fn law_relayed_packets_are_opened(
    dest_call: Seq<char>,
    header: Seq<u8>,
    source: Seq<char>,
    dest: Seq<char>,
    rest: Seq<char>,
    inner: Seq<u8>,
)
    requires
        !header.contains(':' as u8),
        spec_text_of(header) == source + ">"@ + dest + rest,
        !source.contains('>'),
        !dest.contains(',') && !dest.contains('-'),
        rest.len() == 0 || rest[0] == ',' || rest[0] == '-',
        inner.len() > 0,
        inner[0] != '}' as u8,
        inner.last() != 0x0d && inner.last() != 0x0a,
    ensures
        spec_decode(dest_call, seq!['}' as u8] + header + seq![':' as u8] + inner)
            == (PacketView::ThirdParty {
            source: spec_trim(source),
            inner: Box::new(spec_decode(dest, inner)),
        }),
        spec_decode(dest_call, seq!['}' as u8] + header + seq![':' as u8] + inner).innermost()
            == spec_decode(dest, inner).innermost(),
{
    reveal_strlit(">");
    let info = seq!['}' as u8] + header + seq![':' as u8] + inner;
    let body = info.skip(1);
    let colon = header.len() as int;
    let text = spec_text_of(header);
    assert(info.last() == inner.last());
    assert(spec_trim_line_end(info) == info);
    assert(body[colon] == ':' as u8);
    assert forall|i: int| 0 <= i < colon implies body[i] != ':' as u8 by {
        assert(body[i] == header[i]);
        assert(header.contains(header[i]));
    }
    lemma_find_from_is(body, ':' as u8, 0, colon);
    assert(body.take(colon) =~= header);
    assert(body.skip(colon + 1) =~= inner);
    let at = source.len() as int;
    assert forall|i: int| 0 <= i < at implies text[i] != '>' by {
        assert(text[i] == source[i]);
        assert(source.contains(source[i]));
    }
    lemma_find_from_is(text, '>', 0, at);
    assert(text.take(at) =~= source);
    let route = text.skip(at + 1);
    assert(route =~= dest + rest);
    lemma_before_both(dest, rest);
    lemma_depth_does_not_matter(dest, inner);
    assert(spec_third_party(body, 0) == Some(
        PacketView::ThirdParty {
            source: spec_trim(source),
            inner: Box::new(spec_decode_at(dest, inner, 1)),
        },
    ));
}

/// What is no relayed packet itself is read the same inside a wrapper.
#[verifier::spinoff_prover]
#[verifier::rlimit(30)]
proof fn lemma_depth_does_not_matter(dest: Seq<char>, inner: Seq<u8>)
    requires
        inner.len() > 0,
        inner[0] != '}' as u8,
        inner.last() != 0x0d && inner.last() != 0x0a,
    ensures
        spec_decode_at(dest, inner, 1) == spec_decode(dest, inner),
{
    assert(spec_trim_line_end(inner) == inner);
    assert(spec_decode_kind(dest, inner, 1) == spec_decode_kind(dest, inner, 0));
}

proof fn lemma_before_both(dest: Seq<char>, rest: Seq<char>)
    requires
        !dest.contains(',') && !dest.contains('-'),
        rest.len() == 0 || rest[0] == ',' || rest[0] == '-',
    ensures
        spec_before(spec_before(dest + rest, ','), '-') == dest,
{
    let route = dest + rest;
    let at = dest.len() as int;
    assert forall|i: int| 0 <= i < at implies route[i] != ',' && route[i] != '-' by {
        assert(route[i] == dest[i]);
        assert(dest.contains(dest[i]));
    }
    lemma_find_from(route, ',', 0);
    let first = spec_before(route, ',');
    match spec_find(route, ',') {
        Some(comma) => {
            assert(comma >= at);
            if comma == at {
                assert(first =~= dest);
                lemma_find_from_none(first, '-', 0);
            } else {
                assert(first[at] == rest[0]);
                lemma_find_from_is(first, '-', 0, at);
                assert(first.take(at) =~= dest);
            }
        },
        None => {
            if rest.len() == 0 {
                assert(route =~= dest);
                lemma_find_from_none(route, '-', 0);
            } else {
                assert(route[at] == rest[0]);
                lemma_find_from_is(route, '-', 0, at);
                assert(route.take(at) =~= dest);
            }
        },
    }
}

/// What is said of each packet.
pub proof fn law_packets_in_words(
    fix: FixView,
    name: Seq<char>,
    to: Seq<char>,
    text: Seq<char>,
    id: Seq<char>,
    inner: PacketView,
    figures: FiguresView,
)
    ensures
        ({
            let place = fix.describe(figures);
            let named = |killed: bool| PacketView::Object { name, killed, fix };
            let item = |killed: bool| PacketView::Item { name, killed, fix };
            let mic_e = |device: Option<Seq<char>>| PacketView::MicE { fix, status: text, device };
            &&& PacketView::Position(fix).describe(figures) == "Position: "@ + place
            &&& mic_e(None).describe(figures) == "Mic-E"@ + Seq::empty() + ", "@ + text + ": "@
                + place
            &&& mic_e(Some(name)).describe(figures) == "Mic-E"@ + (" "@ + name) + ", "@ + text
                + ": "@ + place
            &&& named(false).describe(figures) == "Object "@ + name + Seq::empty() + ": "@ + place
            &&& named(true).describe(figures) == "Object "@ + name + " (killed)"@ + ": "@ + place
            &&& item(false).describe(figures) == "Item "@ + name + Seq::empty() + ": "@ + place
            &&& item(true).describe(figures) == "Item "@ + name + " (killed)"@ + ": "@ + place
            &&& PacketView::Status(text).describe(figures) == "Status: "@ + text
            &&& (PacketView::ThirdParty { source: name, inner: Box::new(inner) }).describe(figures)
                == "Via internet from "@ + name + ": "@ + inner.describe(figures)
            &&& PacketView::Unknown.describe(figures) == "Not decoded"@
            &&& PacketView::Message(MessageView::Ack { to, id }).describe(figures) == "Ack #"@ + id
                + " to "@ + to
            &&& PacketView::Message(MessageView::Rej { to, id }).describe(figures) == "Reject #"@
                + id + " to "@ + to
            &&& PacketView::Message(
                MessageView::Text { to: "BLN"@ + to, text, id: None, reply_ack: None },
            ).describe(figures) == "Bulletin"@ + " "@ + ("BLN"@ + to) + ": "@ + text + Seq::empty()
            &&& to.len() == 0 || to[0] != 'B' ==> PacketView::Message(
                MessageView::Text { to, text, id: Some(id), reply_ack: None },
            ).describe(figures) == "Message to"@ + " "@ + to + ": "@ + text + (" (#"@ + id + ")"@)
        }),
{
    reveal_strlit("BLN");
    reveal_with_fuel(PacketView::describe, 2);
    assert(("BLN"@ + to).subrange(0, 3) =~= "BLN"@);
    if "BLN"@.is_prefix_of(to) {
        assert(to.subrange(0, 3)[0] == 'B');
    }
}

/// A control character is shown by its code in two hexadecimal digits, everything else as it is, one
/// after the other.
pub proof fn law_controls_are_shown_by_their_codes(front: Seq<char>, c: char)
    ensures
        ({
            let digits = "0123456789abcdef"@;
            let code = c as u32 as int;
            spec_escape_all(front.push(c)) == spec_escape_all(front) + if code <= 31 || 127 <= code
                <= 159 {
                "<0x"@ + seq![digits[code / 16], digits[code % 16]] + ">"@
            } else {
                seq![c]
            }
        }),
{
    reveal_strlit("0123456789abcdef");
    assert(front.push(c).drop_last() =~= front);
    let code = c as u32 as int;
    if code <= 31 || 127 <= code <= 159 {
        assert(spec_hex2(code as nat) =~= seq![
            "0123456789abcdef"@[code / 16],
            "0123456789abcdef"@[code % 16],
        ]);
    }
}

/// What has no name of three to nine bytes in front of its mark is no item.
pub proof fn law_items_need_a_name(dest_call: Seq<char>, info: Seq<u8>)
    requires
        info.len() > 0,
        info.last() != 0x0d && info.last() != 0x0a,
        info[0] == ')' as u8,
        (exists|i: int|
            1 <= i <= 3 && i < info.len() && (#[trigger] info[i] == '!' as u8 || info[i]
                == '_' as u8)) || (forall|i: int|
            1 <= i <= 10 && i < info.len() ==> #[trigger] info[i] != '!' as u8 && info[i]
                != '_' as u8),
    ensures
        spec_decode(dest_call, info) is Unknown,
{
    let body = info.skip(1);
    assert(spec_trim_line_end(info) == info);
    lemma_item_mark(body, 0);
    if exists|i: int|
        1 <= i <= 3 && i < info.len() && (#[trigger] info[i] == '!' as u8 || info[i] == '_' as u8) {
        let i = choose|i: int|
            1 <= i <= 3 && i < info.len() && (#[trigger] info[i] == '!' as u8 || info[i]
                == '_' as u8);
        assert(body[i - 1] == info[i]);
    } else if let Some(at) = spec_item_mark(body, 0) {
        assert(body[at] == info[at + 1]);
    }
}

proof fn lemma_item_mark(body: Seq<u8>, from: int)
    requires
        0 <= from,
    ensures
        match spec_item_mark(body, from) {
            Some(at) => {
                &&& from <= at < 10 && at < body.len()
                &&& body[at] == '!' as u8 || body[at] == '_' as u8
                &&& forall|i: int|
                    from <= i < at ==> #[trigger] body[i] != '!' as u8 && body[i] != '_' as u8
            },
            None => forall|i: int|
                from <= i < 10 && i < body.len() ==> #[trigger] body[i] != '!' as u8 && body[i]
                    != '_' as u8,
        },
    decreases 10 - from,
{
    if from < 10 && from < body.len() && body[from] != '!' as u8 && body[from] != '_' as u8 {
        lemma_item_mark(body, from + 1);
    }
}

/// A wrapper without a colon, or without `>` in front of it, cannot be opened.
pub proof fn law_broken_wrappers_are_not_opened(dest_call: Seq<char>, header: Seq<u8>, rest: Seq<u8>)
    requires
        !header.contains(':' as u8),
        rest.len() > 0 ==> rest[0] == ':' as u8,
        rest.len() > 0 ==> !spec_text_of(header).contains('>'),
        ({
            let info = seq!['}' as u8] + header + rest;
            info.last() != 0x0d && info.last() != 0x0a
        }),
    ensures
        spec_decode(dest_call, seq!['}' as u8] + header + rest) is Unknown,
{
    let info = seq!['}' as u8] + header + rest;
    let body = info.skip(1);
    let text = spec_text_of(header);
    assert(spec_trim_line_end(info) == info);
    assert forall|i: int| 0 <= i < header.len() implies body[i] != ':' as u8 by {
        assert(body[i] == header[i]);
        assert(header.contains(header[i]));
    }
    if rest.len() == 0 {
        lemma_find_from_none(body, ':' as u8, 0);
    } else {
        assert(body[header.len() as int] == rest[0]);
        lemma_find_from_is(body, ':' as u8, 0, header.len() as int);
        assert(body.take(header.len() as int) =~= header);
        assert forall|i: int| 0 <= i < text.len() implies text[i] != '>' by {
            assert(text.contains(text[i]));
        }
        lemma_find_from_none(text, '>', 0);
    }
}

} // verus!
