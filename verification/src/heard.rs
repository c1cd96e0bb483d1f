//! Transport-neutral received packets (`Heard`) and the APRS-IS passcode.

use vstd::prelude::*;
use vstd::slice::{slice_subrange, slice_to_vec};
use vstd::utf8::{decode_utf8, encode_utf8, valid_utf8};

use crate::ax25::{
    is_relay_alias, law_parsing_undoes_display, spec_is_relay_alias, spec_parse_path,
    spec_parse_pieces, AddressView, UiFrame, UiFrameView,
};
use crate::encoding::{bytes_of, strict_text_of};
use crate::split::{
    before, find_byte, lemma_find_from, lemma_find_from_is, lemma_find_from_none, spec_before,
    spec_find, spec_split, spec_split_from, spec_split_once, split, split_once,
};
use crate::text::{
    chars_of, same_text, spec_is_alnum, spec_is_digit, spec_is_space, spec_pieces,
    spec_same_ignoring_case, spec_strip_trailing, spec_to_upper, spec_trim, spec_trim_end,
    spec_upper, starts_with, string_of, strip_trailing, to_upper,
};

verus! {

// ---------------------------------------------------------------------------
// Hops
// ---------------------------------------------------------------------------

#[derive(Debug)]
pub struct Hop {
    pub call: String,
    pub used: bool,
}

pub struct HopView {
    pub call: Seq<char>,
    pub used: bool,
}

impl View for Hop {
    type V = HopView;

    open spec fn view(&self) -> HopView {
        HopView { call: self.call@, used: self.used }
    }
}

impl Clone for Hop {
    fn clone(&self) -> (r: Hop)
        ensures
            r == *self,
    {
        Hop { call: self.call.clone(), used: self.used }
    }
}

pub open spec fn spec_hops(v: Seq<Hop>) -> Seq<HopView> {
    Seq::new(v.len(), |i: int| v[i]@)
}

/// Index of the last used hop among the first `n`.
pub open spec fn spec_last_used(hops: Seq<HopView>, n: int) -> Option<int>
    decreases n,
{
    if n <= 0 || n > hops.len() {
        None
    } else if hops[n - 1].used {
        Some(n - 1)
    } else {
        spec_last_used(hops, n - 1)
    }
}

/// The first `n` hops, each after a comma, with a star behind the hop at `star`.
pub open spec fn spec_hops_text(hops: Seq<HopView>, n: int, star: Option<int>) -> Seq<char>
    decreases n,
{
    if n <= 0 {
        Seq::empty()
    } else {
        spec_hops_text(hops, n - 1, star) + ","@ + hops[n - 1].call + (if star == Some(n - 1) {
            "*"@
        } else {
            Seq::empty()
        })
    }
}

/// `SRC>DEST,HOP,HOP*` with a star on the last used hop.
pub open spec fn spec_header_text(source: Seq<char>, dest: Seq<char>, hops: Seq<HopView>) -> Seq<
    char,
> {
    source + ">"@ + dest + spec_hops_text(
        hops,
        hops.len() as int,
        spec_last_used(hops, hops.len() as int),
    )
}

/// `SRC>DEST,HOP,HOP*` with a star on the last used hop.
pub(crate) fn header_text(source: &str, dest: &str, hops: &Vec<Hop>) -> (r: String)
    ensures
        r@ == spec_header_text(source@, dest@, spec_hops(hops@)),
{
    let ghost path = spec_hops(hops@);
    let mut out = String::from_str(source);
    out.append(">");
    out.append(dest);
    let last: Option<usize> = last_used(hops);
    let ghost star = spec_last_used(path, path.len() as int);
    let ghost head = out@;
    assert(out@ =~= head + spec_hops_text(path, 0, star));
    for i in 0..hops.len()
        invariant
            path == spec_hops(hops@),
            match last {
                Some(k) => star == Some(k as int),
                None => star is None,
            },
            out@ == head + spec_hops_text(path, i as int, star),
    {
        out.append(",");
        out.append(hops[i].call.as_str());
        let here: bool = match last {
            Some(k) => k == i,
            None => false,
        };
        if here {
            out.append("*");
        }
        assert(path[i as int] == hops@[i as int]@);
        assert(out@ =~= head + spec_hops_text(path, i + 1, star));
    }
    out
}

fn last_used(hops: &Vec<Hop>) -> (r: Option<usize>)
    ensures
        match r {
            Some(k) => spec_last_used(spec_hops(hops@), hops@.len() as int) == Some(k as int),
            None => spec_last_used(spec_hops(hops@), hops@.len() as int) is None,
        },
{
    let mut i: usize = hops.len();
    while i > 0
        invariant
            i <= hops@.len(),
            spec_last_used(spec_hops(hops@), hops@.len() as int) == spec_last_used(
                spec_hops(hops@),
                i as int,
            ),
        decreases i,
    {
        if hops[i - 1].used {
            return Some(i - 1);
        }
        i -= 1;
    }
    None
}

// ---------------------------------------------------------------------------
// Received packets
// ---------------------------------------------------------------------------

#[derive(Debug)]
pub struct Heard {
    pub source: String,
    pub dest: String,
    pub path: Vec<Hop>,
    pub info: Vec<u8>,
    pub from_internet: bool,
}

#[verifier::ext_equal]
pub struct HeardView {
    pub source: Seq<char>,
    pub dest: Seq<char>,
    pub path: Seq<HopView>,
    pub info: Seq<u8>,
    pub from_internet: bool,
}

impl View for Heard {
    type V = HeardView;

    open spec fn view(&self) -> HeardView {
        HeardView {
            source: self.source@,
            dest: self.dest@,
            path: spec_hops(self.path@),
            info: self.info@,
            from_internet: self.from_internet,
        }
    }
}

impl Clone for Heard {
    fn clone(&self) -> (r: Heard)
        ensures
            r@ == self@,
    {
        let mut path: Vec<Hop> = Vec::new();
        for i in 0..self.path.len()
            invariant
                path@ == self.path@.take(i as int),
        {
            path.push(self.path[i].clone());
            assert(path@ =~= self.path@.take(i + 1));
        }
        assert(path@ =~= self.path@);
        let info = slice_to_vec(self.info.as_slice());
        Heard {
            source: self.source.clone(),
            dest: self.dest.clone(),
            path,
            info,
            from_internet: self.from_internet,
        }
    }
}

/// Names that stand in a path without naming a station: the aliases that digipeaters mark as
/// used, the internet's own hops, and the three-letter q constructs.
pub open spec fn spec_is_generic_alias(call: Seq<char>) -> bool {
    ||| encode_utf8(call).len() == 3 && "q"@.is_prefix_of(call)
    ||| spec_is_relay_alias(call)
    ||| "TCPIP"@.is_prefix_of(call)
    ||| "TCPXX"@.is_prefix_of(call)
}

impl HeardView {
    /// Destination callsign without SSID.
    pub open spec fn dest_call(self) -> Seq<char> {
        spec_before(self.dest, '-')
    }

    /// Monitor header `SRC>DEST,HOP,HOP*` with a star on the last used hop.
    pub open spec fn header(self) -> Seq<char> {
        spec_header_text(self.source, self.dest, self.path)
    }

    /// Index of the last hop among the first `n` that repeated the packet under its own name.
    pub open spec fn last_repeater(self, n: int) -> Option<int>
        decreases n,
    {
        if n <= 0 || n > self.path.len() {
            None
        } else if self.path[n - 1].used && !spec_is_generic_alias(self.path[n - 1].call) {
            Some(n - 1)
        } else {
            self.last_repeater(n - 1)
        }
    }

    /// The last station that actually repeated this packet.
    pub open spec fn repeated_by(self) -> Option<Seq<char>> {
        match self.last_repeater(self.path.len() as int) {
            Some(i) => Some(self.path[i].call),
            None => None,
        }
    }

    /// Index of the first hop at or after `from` that marks a packet gated from RF.
    pub open spec fn gate_mark(self, from: int) -> Option<int>
        decreases self.path.len() - from,
    {
        if from < 0 || from >= self.path.len() {
            None
        } else if self.path[from].call == "qAR"@ || self.path[from].call == "qAO"@ {
            Some(from)
        } else {
            self.gate_mark(from + 1)
        }
    }

    /// The iGate named after `qAR` or `qAO`.
    pub open spec fn gated_by(self) -> Option<Seq<char>> {
        match self.gate_mark(0) {
            Some(q) => if q + 1 < self.path.len() {
                Some(self.path[q + 1].call)
            } else {
                None
            },
            None => None,
        }
    }

    /// How the packet reached us.
    pub open spec fn route(self) -> Seq<char> {
        if self.info.len() > 0 && self.info[0] == '}' as u8 {
            "iGate "@ + self.source
        } else if self.from_internet {
            match self.gated_by() {
                Some(igate) => "APRS-IS, iGate "@ + igate,
                None => "APRS-IS"@,
            }
        } else {
            match self.repeated_by() {
                Some(digi) => "via "@ + digi,
                None => "direct"@,
            }
        }
    }
}

/// What a frame received by radio tells.
pub open spec fn spec_from_frame(frame: UiFrameView) -> HeardView {
    HeardView {
        source: frame.src.text(),
        dest: frame.dest.text(),
        path: frame.hops(),
        info: frame.info,
        from_internet: false,
    }
}

/// One hop of a TNC2 header: used where a star follows the call.
pub open spec fn spec_tnc2_hop(piece: Seq<char>) -> HopView {
    HopView { call: spec_strip_trailing(piece, '*'), used: piece.len() > 0 && piece.last() == '*' }
}

/// The hops among the first `n` pieces of a TNC2 route: all but the destination and empty pieces.
pub open spec fn spec_tnc2_path(pieces: Seq<Seq<char>>, n: int) -> Seq<HopView>
    decreases n,
{
    if n <= 1 {
        Seq::empty()
    } else if pieces[n - 1].len() == 0 {
        spec_tnc2_path(pieces, n - 1)
    } else {
        spec_tnc2_path(pieces, n - 1).push(spec_tnc2_hop(pieces[n - 1]))
    }
}

/// The packet in a TNC2 header and the information field behind it.
pub open spec fn spec_parse_header(header: Seq<char>, info: Seq<u8>) -> Option<HeardView> {
    match spec_split_once(header, '>') {
        Some((source, route)) => {
            let pieces = spec_split(route, ',');
            if source.len() == 0 || pieces[0].len() == 0 {
                None
            } else {
                Some(
                    HeardView {
                        source,
                        dest: pieces[0],
                        path: spec_tnc2_path(pieces, pieces.len() as int),
                        info,
                        from_internet: true,
                    },
                )
            }
        },
        None => None,
    }
}

/// The packet in an APRS-IS line: a UTF-8 header up to the first colon, then the information.
pub open spec fn spec_parse_tnc2(line: Seq<u8>) -> Option<HeardView> {
    match spec_find(line, ':' as u8) {
        Some(colon) => if valid_utf8(line.take(colon)) {
            spec_parse_header(decode_utf8(line.take(colon)), line.skip(colon + 1))
        } else {
            None
        },
        None => None,
    }
}

fn tnc2_path(pieces: &Vec<Vec<char>>) -> (r: Vec<Hop>)
    ensures
        spec_hops(r@) == spec_tnc2_path(spec_pieces(pieces@), pieces@.len() as int),
{
    let ghost all = spec_pieces(pieces@);
    let mut path: Vec<Hop> = Vec::new();
    let mut i: usize = 1;
    assert(spec_hops(path@) =~= spec_tnc2_path(all, 1));
    while i < pieces.len()
        invariant
            all == spec_pieces(pieces@),
            1 <= i,
            i <= pieces@.len() || i == 1,
            spec_hops(path@) == spec_tnc2_path(all, i as int),
        decreases pieces@.len() - i,
    {
        let piece = pieces[i].as_slice();
        assert(all[i as int] == piece@);
        if piece.len() > 0 {
            let ghost so_far = path@;
            let hop = Hop {
                call: string_of(strip_trailing(piece, '*')),
                used: piece[piece.len() - 1] == '*',
            };
            path.push(hop);
            assert(spec_hops(path@) =~= spec_hops(so_far).push(hop@));
        }
        i += 1;
    }
    assert(pieces@.len() == 0 ==> spec_tnc2_path(all, 0) =~= spec_tnc2_path(all, 1));
    path
}

impl Heard {
    pub fn from_frame(frame: UiFrame) -> (r: Heard)
        ensures
            r@ == spec_from_frame(frame@),
    {
        let path = frame.hops();
        Heard {
            source: frame.src.to_string(),
            dest: frame.dest.to_string(),
            path,
            info: frame.info,
            from_internet: false,
        }
    }

    /// Parses an APRS-IS line in TNC2 format: `SRC>DEST,PATH:info`.
    pub fn parse_tnc2(line: &[u8]) -> (r: Option<Heard>)
        ensures
            match r {
                Some(h) => spec_parse_tnc2(line@) == Some(h@),
                None => spec_parse_tnc2(line@) is None,
            },
    {
        let colon: usize = match find_byte(line, ':' as u8) {
            Some(colon) => colon,
            None => return None,
        };
        let n: usize = line.len();
        let head = slice_subrange(line, 0, colon);
        assert(head@ =~= line@.take(colon as int));
        let header: Vec<char> = match strict_text_of(head) {
            Some(header) => header,
            None => return None,
        };
        let info = slice_to_vec(slice_subrange(line, colon + 1, n));
        assert(info@ =~= line@.skip(colon + 1));
        Self::parse_header(header.as_slice(), info)
    }

    /// Reads a TNC2 header `SRC>DEST,PATH` in front of an information field.
    pub fn parse_header(header: &[char], info: Vec<u8>) -> (r: Option<Heard>)
        ensures
            match r {
                Some(h) => spec_parse_header(header@, info@) == Some(h@),
                None => spec_parse_header(header@, info@) is None,
            },
    {
        let (source, route): (&[char], &[char]) = match split_once(header, '>') {
            Some((source, route)) => (source, route),
            None => return None,
        };
        let pieces = split(route, ',');
        assert(spec_pieces(pieces@)[0] == pieces@[0]@);
        if pieces[0].len() == 0 || source.len() == 0 {
            return None;
        }
        Some(
            Heard {
                source: string_of(source),
                dest: string_of(pieces[0].as_slice()),
                path: tnc2_path(&pieces),
                info,
                from_internet: true,
            },
        )
    }

    /// Destination callsign without SSID (Mic-E encodes latitude there).
    pub fn dest_call(&self) -> (r: String)
        ensures
            r@ == self@.dest_call(),
    {
        let dest = chars_of(self.dest.as_str());
        string_of(before(dest.as_slice(), '-'))
    }

    /// Monitor header `SRC>DEST,HOP,HOP*` with a star on the last used hop.
    pub fn header(&self) -> (r: String)
        ensures
            r@ == self@.header(),
    {
        header_text(self.source.as_str(), self.dest.as_str(), &self.path)
    }

    /// The last station that actually repeated this packet on RF.
    pub fn repeated_by(&self) -> (r: Option<String>)
        ensures
            match r {
                Some(s) => self@.repeated_by() == Some(s@),
                None => self@.repeated_by() is None,
            },
    {
        let mut i: usize = self.path.len();
        while i > 0
            invariant
                i <= self.path@.len(),
                self@.last_repeater(self@.path.len() as int) == self@.last_repeater(i as int),
            decreases i,
        {
            if self.path[i - 1].used && !is_generic_alias(self.path[i - 1].call.as_str()) {
                return Some(self.path[i - 1].call.clone());
            }
            i -= 1;
        }
        None
    }

    /// How the packet reached us, for display.
    pub fn route(&self) -> (r: String)
        ensures
            r@ == self@.route(),
    {
        if self.info.len() > 0 && self.info[0] == '}' as u8 {
            let mut out = String::from_str("iGate ");
            out.append(self.source.as_str());
            return out;
        }
        if self.from_internet {
            return match self.gated_by() {
                Some(igate) => {
                    let mut out = String::from_str("APRS-IS, iGate ");
                    out.append(igate.as_str());
                    out
                },
                None => String::from_str("APRS-IS"),
            };
        }
        match self.repeated_by() {
            Some(digi) => {
                let mut out = String::from_str("via ");
                out.append(digi.as_str());
                out
            },
            None => String::from_str("direct"),
        }
    }

    /// For internet packets that came from RF: the iGate named after `qAR`/`qAO`.
    fn gated_by(&self) -> (r: Option<String>)
        ensures
            match r {
                Some(s) => self@.gated_by() == Some(s@),
                None => self@.gated_by() is None,
            },
    {
        for i in 0..self.path.len()
            invariant
                self@.gate_mark(0) == self@.gate_mark(i as int),
        {
            let call = self.path[i].call.as_str();
            if same_text(call, "qAR") || same_text(call, "qAO") {
                let n: usize = self.path.len();
                if i + 1 < n {
                    return Some(self.path[i + 1].call.clone());
                }
                return None;
            }
        }
        None
    }
}

fn is_generic_alias(call: &str) -> (r: bool)
    ensures
        r == spec_is_generic_alias(call@),
{
    let c = chars_of(call);
    let s = c.as_slice();
    (call.as_bytes().len() == 3 && starts_with(s, "q")) || is_relay_alias(call) || starts_with(
        s,
        "TCPIP",
    ) || starts_with(s, "TCPXX")
}

// ---------------------------------------------------------------------------
// Passcode
// ---------------------------------------------------------------------------

/// The bytes folded into 16 bits in pairs, the first of each pair into the high half.
pub open spec fn spec_fold(bytes: Seq<u8>, n: int) -> u16
    decreases n,
{
    if n <= 0 {
        0x73E2
    } else {
        spec_fold(bytes, n - 1) ^ (if n % 2 == 1 {
            (bytes[n - 1] as u16) << 8
        } else {
            bytes[n - 1] as u16
        })
    }
}

/// The fold of the call without SSID, in upper case, kept to 15 bits.
pub open spec fn spec_passcode(call: Seq<char>) -> u16 {
    let base = encode_utf8(spec_to_upper(spec_before(call, '-')));
    spec_fold(base, base.len() as int) & 0x7FFF
}

/// The standard APRS-IS passcode for a callsign (SSID ignored).
pub fn passcode(call: &str) -> (r: u16)
    ensures
        r == spec_passcode(call@),
{
    let chars = chars_of(call);
    let base = bytes_of(string_of(to_upper(before(chars.as_slice(), '-')).as_slice()).as_str());
    let mut hash: u16 = 0x73E2;
    for i in 0..base.len()
        invariant
            hash == spec_fold(base@, i as int),
    {
        if i % 2 == 0 {
            hash = hash ^ ((base[i] as u16) << 8);
        } else {
            hash = hash ^ (base[i] as u16);
        }
    }
    hash & 0x7FFF
}

// ---------------------------------------------------------------------------
// Laws
// ---------------------------------------------------------------------------

/// A frame received by radio shows the header of the frame itself.
pub proof fn law_heard_frame_keeps_header(frame: UiFrameView)
    ensures
        spec_from_frame(frame).header() == frame.header(),
{
}

/// The station that is said to have repeated a packet stands in its path, marked as used, and is
/// no alias.
pub proof fn law_repeater_is_a_station(heard: HeardView)
    ensures
        heard.repeated_by() matches Some(call) ==> {
            &&& !spec_is_generic_alias(call)
            &&& exists|i: int|
                0 <= i < heard.path.len() && (#[trigger] heard.path[i]).used && heard.path[i].call
                    == call
        },
        heard.repeated_by() is None ==> forall|i: int|
            0 <= i < heard.path.len() && (#[trigger] heard.path[i]).used ==> spec_is_generic_alias(
                heard.path[i].call,
            ),
{
    lemma_last_repeater(heard, heard.path.len() as int);
}

proof fn lemma_last_repeater(heard: HeardView, n: int)
    requires
        0 <= n <= heard.path.len(),
    ensures
        match heard.last_repeater(n) {
            Some(i) => {
                &&& 0 <= i < n
                &&& heard.path[i].used
                &&& !spec_is_generic_alias(heard.path[i].call)
            },
            None => forall|i: int|
                0 <= i < n && (#[trigger] heard.path[i]).used ==> spec_is_generic_alias(
                    heard.path[i].call,
                ),
        },
    decreases n,
{
    if n > 0 {
        lemma_last_repeater(heard, n - 1);
    }
}

/// A passcode has 15 bits.
pub proof fn law_passcode_has_15_bits(call: Seq<char>)
    ensures
        spec_passcode(call) < 0x8000,
{
    let base = encode_utf8(spec_to_upper(spec_before(call, '-')));
    let hash = spec_fold(base, base.len() as int);
    assert(hash & 0x7FFF < 0x8000) by (bit_vector);
}

/// The passcode of a call is that of the call with any SSID behind it.
pub proof fn law_passcode_ignores_ssid(call: Seq<char>, ssid: Seq<char>)
    requires
        !call.contains('-'),
    ensures
        spec_passcode(call + "-"@ + ssid) == spec_passcode(call),
{
    reveal_strlit("-");
    let full = call + "-"@ + ssid;
    assert forall|i: int| 0 <= i < call.len() implies call[i] != '-' && full[i] != '-' by {
        assert(call.contains(call[i]));
        assert(full[i] == call[i]);
    }
    lemma_find_from_none(call, '-', 0);
    lemma_find_from_is(full, '-', 0, call.len() as int);
    assert(full.take(call.len() as int) =~= call);
}

/// The passcode does not depend on the case of letters.
pub proof fn law_passcode_ignores_case(a: Seq<char>, b: Seq<char>)
    requires
        spec_same_ignoring_case(a, b),
    ensures
        spec_passcode(a) == spec_passcode(b),
{
    lemma_before_hyphen_upper(a);
    lemma_before_hyphen_upper(b);
}

/// Making letters upper case moves no hyphen.
proof fn lemma_before_hyphen_upper(s: Seq<char>)
    ensures
        spec_to_upper(spec_before(s, '-')) == spec_before(spec_to_upper(s), '-'),
{
    let u = spec_to_upper(s);
    assert forall|i: int| 0 <= i < s.len() implies (u[i] == '-') == (s[i] == '-') by {
        assert(u[i] == spec_upper(s[i]));
    }
    lemma_find_from(s, '-', 0);
    match spec_find(s, '-') {
        Some(at) => {
            lemma_find_from_is(u, '-', 0, at);
            assert(spec_to_upper(s.take(at)) =~= u.take(at));
        },
        None => {
            lemma_find_from_none(u, '-', 0);
        },
    }
}

/// The station that repeated a packet is the last one in its path that is marked as used and named:
/// aliases behind it do not matter, whether used or not.
pub proof fn law_last_named_hop_repeated_the_packet(heard: HeardView, i: int)
    requires
        0 <= i < heard.path.len(),
        heard.path[i].used,
        !spec_is_generic_alias(heard.path[i].call),
        forall|j: int|
            i < j < heard.path.len() && (#[trigger] heard.path[j]).used ==> spec_is_generic_alias(
                heard.path[j].call,
            ),
    ensures
        heard.repeated_by() == Some(heard.path[i].call),
{
    lemma_last_repeater_is(heard, heard.path.len() as int, i);
}

proof fn lemma_last_repeater_is(heard: HeardView, n: int, i: int)
    requires
        0 <= i < n <= heard.path.len(),
        heard.path[i].used,
        !spec_is_generic_alias(heard.path[i].call),
        forall|j: int|
            i < j < n && (#[trigger] heard.path[j]).used ==> spec_is_generic_alias(
                heard.path[j].call,
            ),
    ensures
        heard.last_repeater(n) == Some(i),
    decreases n,
{
    if i < n - 1 {
        assert(heard.path[n - 1].used ==> spec_is_generic_alias(heard.path[n - 1].call));
        lemma_last_repeater_is(heard, n - 1, i);
    }
}

/// The same holds of a frame.
pub proof fn law_frame_and_packet_agree_on_the_repeater(frame: UiFrameView, i: int)
    requires
        0 <= i < frame.digis.len(),
        frame.digis[i].1,
        !spec_is_relay_alias(frame.digis[i].0.call),
        forall|j: int|
            i < j < frame.digis.len() && (#[trigger] frame.digis[j]).1 ==> spec_is_relay_alias(
                frame.digis[j].0.call,
            ),
    ensures
        frame.repeated_by() == Some(frame.digis[i].0.text()),
{
    lemma_frame_repeater_is(frame, frame.digis.len() as int, i);
}

proof fn lemma_frame_repeater_is(frame: UiFrameView, n: int, i: int)
    requires
        0 <= i < n <= frame.digis.len(),
        frame.digis[i].1,
        !spec_is_relay_alias(frame.digis[i].0.call),
        forall|j: int|
            i < j < n && (#[trigger] frame.digis[j]).1 ==> spec_is_relay_alias(
                frame.digis[j].0.call,
            ),
    ensures
        frame.last_repeater(n) == Some(i),
    decreases n,
{
    if i < n - 1 {
        assert(frame.digis[n - 1].1 ==> spec_is_relay_alias(frame.digis[n - 1].0.call));
        lemma_frame_repeater_is(frame, n - 1, i);
    }
}

/// What names no station: the aliases of digipeaters with anything behind them, the internet's own
/// hops, and `q` with two more characters. What begins with another letter is a station.
pub proof fn law_aliases(tail: Seq<char>, a: char, b: char, call: Seq<char>)
    requires
        a as u32 <= 0x7f && b as u32 <= 0x7f,
        call.len() > 0,
        call[0] != 'W' && call[0] != 'T' && call[0] != 'R' && call[0] != 'E' && call[0] != 'G'
            && call[0] != 'q',
    ensures
        spec_is_generic_alias("WIDE"@ + tail),
        spec_is_generic_alias("TRACE"@ + tail),
        spec_is_generic_alias("RELAY"@ + tail),
        spec_is_generic_alias("TEMP"@ + tail),
        spec_is_generic_alias("ECHO"@ + tail),
        spec_is_generic_alias("GATE"@ + tail),
        spec_is_generic_alias("TCPIP"@ + tail),
        spec_is_generic_alias("TCPXX"@ + tail),
        spec_is_generic_alias(seq!['q', a, b]),
        !spec_is_generic_alias(call),
        spec_is_relay_alias("WIDE"@ + tail),
        !spec_is_relay_alias("TCPIP"@ + tail),
        !spec_is_relay_alias(call),
{
    reveal_strlit("WIDE");
    reveal_strlit("TRACE");
    reveal_strlit("RELAY");
    reveal_strlit("TEMP");
    reveal_strlit("ECHO");
    reveal_strlit("GATE");
    reveal_strlit("TCPIP");
    reveal_strlit("TCPXX");
    reveal_strlit("q");
    lemma_begins("WIDE"@, tail);
    lemma_begins("TRACE"@, tail);
    lemma_begins("RELAY"@, tail);
    lemma_begins("TEMP"@, tail);
    lemma_begins("ECHO"@, tail);
    lemma_begins("GATE"@, tail);
    lemma_begins("TCPIP"@, tail);
    lemma_begins("TCPXX"@, tail);
    let q = seq!['q', a, b];
    vstd::utf8::is_ascii_chars_encode_utf8(q);
    assert(q.subrange(0, 1) =~= "q"@);
    let other = "TCPIP"@ + tail;
    assert(other[0] == 'T' && other[1] == 'C');
    lemma_begins_otherwise("WIDE"@, call, 0);
    lemma_begins_otherwise("TRACE"@, call, 0);
    lemma_begins_otherwise("RELAY"@, call, 0);
    lemma_begins_otherwise("TEMP"@, call, 0);
    lemma_begins_otherwise("ECHO"@, call, 0);
    lemma_begins_otherwise("GATE"@, call, 0);
    lemma_begins_otherwise("TCPIP"@, call, 0);
    lemma_begins_otherwise("TCPXX"@, call, 0);
    lemma_begins_otherwise("q"@, call, 0);
    lemma_begins_otherwise("WIDE"@, other, 0);
    lemma_begins_otherwise("TRACE"@, other, 1);
    lemma_begins_otherwise("RELAY"@, other, 0);
    lemma_begins_otherwise("TEMP"@, other, 1);
    lemma_begins_otherwise("ECHO"@, other, 0);
    lemma_begins_otherwise("GATE"@, other, 0);
}

proof fn lemma_begins(word: Seq<char>, tail: Seq<char>)
    ensures
        word.is_prefix_of(word + tail),
{
    assert((word + tail).subrange(0, word.len() as int) =~= word);
}

proof fn lemma_begins_otherwise(word: Seq<char>, s: Seq<char>, i: int)
    requires
        0 <= i < word.len(),
        i < s.len(),
        s[i] != word[i],
    ensures
        !word.is_prefix_of(s),
{
    if word.is_prefix_of(s) {
        assert(s.subrange(0, word.len() as int)[i] == word[i]);
    }
}

/// How a packet reached us: relayed by an iGate, from the internet, with the iGate that heard it
/// where the path tells that behind `qAR` or `qAO`, by a digipeater, or directly.
pub proof fn law_routes(heard: HeardView, q: int)
    requires
        0 <= q < heard.path.len(),
        heard.path[q].call == "qAR"@ || heard.path[q].call == "qAO"@,
        forall|i: int|
            0 <= i < q ==> (#[trigger] heard.path[i]).call != "qAR"@ && heard.path[i].call
                != "qAO"@,
    ensures
        ({
            let relayed = heard.info.len() > 0 && heard.info[0] == '}' as u8;
            &&& relayed ==> heard.route() == "iGate "@ + heard.source
            &&& !relayed && heard.from_internet && q + 1 < heard.path.len() ==> heard.route()
                == "APRS-IS, iGate "@ + heard.path[q + 1].call
            &&& !relayed && heard.from_internet && q + 1 == heard.path.len() ==> heard.route()
                == "APRS-IS"@
        }),
{
    lemma_gate_mark_is(heard, 0, q);
}

proof fn lemma_gate_mark_is(heard: HeardView, from: int, q: int)
    requires
        0 <= from <= q < heard.path.len(),
        heard.path[q].call == "qAR"@ || heard.path[q].call == "qAO"@,
        forall|i: int|
            from <= i < q ==> (#[trigger] heard.path[i]).call != "qAR"@ && heard.path[i].call
                != "qAO"@,
    ensures
        heard.gate_mark(from) == Some(q),
    decreases q - from,
{
    if from < q {
        assert(heard.path[from].call != "qAR"@);
        lemma_gate_mark_is(heard, from + 1, q);
    }
}

/// Without a mark of an iGate in its path, a packet from the internet came by APRS-IS; one from the
/// radio came by the digipeater that repeated it, or directly.
pub proof fn law_routes_without_a_gate(heard: HeardView)
    requires
        heard.info.len() == 0 || heard.info[0] != '}' as u8,
        forall|i: int|
            0 <= i < heard.path.len() ==> (#[trigger] heard.path[i]).call != "qAR"@
                && heard.path[i].call != "qAO"@,
    ensures
        heard.from_internet ==> heard.route() == "APRS-IS"@,
        !heard.from_internet ==> heard.route() == match heard.repeated_by() {
            Some(digi) => "via "@ + digi,
            None => "direct"@,
        },
{
    lemma_no_gate_mark(heard, 0);
}

proof fn lemma_no_gate_mark(heard: HeardView, from: int)
    requires
        0 <= from,
        forall|i: int|
            from <= i < heard.path.len() ==> (#[trigger] heard.path[i]).call != "qAR"@
                && heard.path[i].call != "qAO"@,
    ensures
        heard.gate_mark(from) is None,
    decreases heard.path.len() - from,
{
    if from < heard.path.len() {
        assert(heard.path[from].call != "qAR"@);
        lemma_no_gate_mark(heard, from + 1);
    }
}

/// Pieces with a comma between each two.
pub open spec fn spec_with_commas(pieces: Seq<Seq<char>>) -> Seq<char>
    decreases pieces.len(),
{
    if pieces.len() == 0 {
        Seq::empty()
    } else if pieces.len() == 1 {
        pieces[0]
    } else {
        pieces[0] + seq![','] + spec_with_commas(pieces.skip(1))
    }
}

/// Destination and hops as they stand in a line: a star behind each hop that was used.
pub open spec fn spec_route_pieces(dest: Seq<char>, hops: Seq<HopView>) -> Seq<Seq<char>> {
    seq![dest] + Seq::new(
        hops.len(),
        |i: int|
            hops[i].call + if hops[i].used {
                seq!['*']
            } else {
                seq![]
            },
    )
}

/// A line `SOURCE>DEST,HOP,HOP*:INFO` is read as what it was made from.
pub proof fn law_line_reads_as_it_was_made(
    source: Seq<char>,
    dest: Seq<char>,
    hops: Seq<HopView>,
    info: Seq<u8>,
)
    requires
        source.len() > 0 && !source.contains('>'),
        dest.len() > 0 && !dest.contains(','),
        forall|i: int|
            0 <= i < hops.len() ==> (#[trigger] hops[i]).call.len() > 0 && !hops[i].call.contains(
                ',',
            ) && hops[i].call.last() != '*',
        ({
            let header = source + seq!['>'] + spec_with_commas(spec_route_pieces(dest, hops));
            forall|i: int|
                0 <= i < header.len() ==> '!' <= #[trigger] header[i] <= '~' && header[i] != ':'
        }),
    ensures
        ({
            let header = source + seq!['>'] + spec_with_commas(spec_route_pieces(dest, hops));
            spec_parse_tnc2(encode_utf8(header) + seq![':' as u8] + info) == Some(
                HeardView { source, dest, path: hops, info, from_internet: true },
            )
        }),
{
    let pieces = spec_route_pieces(dest, hops);
    let route = spec_with_commas(pieces);
    let header = source + seq!['>'] + route;
    let bytes = encode_utf8(header);
    let line = bytes + seq![':' as u8] + info;
    vstd::utf8::is_ascii_chars_encode_utf8(header);
    assert forall|i: int| 0 <= i < bytes.len() implies line[i] != ':' as u8 by {
        assert(line[i] == header[i] as u8);
        assert('!' <= header[i] <= '~');
    }
    lemma_find_from_is(line, ':' as u8, 0, bytes.len() as int);
    assert(line.take(bytes.len() as int) =~= bytes);
    assert(line.skip(bytes.len() as int + 1) =~= info);
    vstd::utf8::encode_utf8_valid_utf8(header);
    vstd::utf8::encode_utf8_decode_utf8(header);
    let at = source.len() as int;
    assert forall|i: int| 0 <= i < at implies header[i] != '>' by {
        assert(header[i] == source[i]);
        assert(source.contains(source[i]));
    }
    lemma_find_from_is(header, '>', 0, at);
    assert(header.take(at) =~= source);
    assert(header.skip(at + 1) =~= route);
    assert forall|i: int| 0 <= i < pieces.len() implies !(#[trigger] pieces[i]).contains(',') by {
        if i > 0 {
            let hop = hops[i - 1];
            assert(!hop.call.contains(','));
            assert forall|j: int| 0 <= j < pieces[i].len() implies pieces[i][j] != ',' by {
                if j < hop.call.len() {
                    assert(pieces[i][j] == hop.call[j]);
                    assert(hop.call.contains(hop.call[j]));
                }
            }
        }
    }
    lemma_split_pieces(Seq::empty(), pieces);
    assert(Seq::<char>::empty() + route =~= route);
    lemma_path_of_pieces(dest, hops, pieces.len() as int);
    assert(hops.take(hops.len() as int) =~= hops);
}

/// Pieces without commas are found again behind anything.
proof fn lemma_split_pieces(front: Seq<char>, pieces: Seq<Seq<char>>)
    requires
        pieces.len() > 0,
        forall|i: int| 0 <= i < pieces.len() ==> !(#[trigger] pieces[i]).contains(','),
    ensures
        spec_split_from(front + spec_with_commas(pieces), ',', front.len() as int) == pieces,
    decreases pieces.len(),
{
    let s = front + spec_with_commas(pieces);
    let from = front.len() as int;
    let first = pieces[0];
    assert forall|j: int| from <= j < from + first.len() implies s[j] != ',' by {
        assert(s[j] == first[j - from]);
        assert(first.contains(first[j - from]));
    }
    if pieces.len() == 1 {
        lemma_find_from_none(s, ',', from);
        assert(s.subrange(from, s.len() as int) =~= first);
        assert(seq![first] =~= pieces);
    } else {
        let rest = pieces.skip(1);
        let at = from + first.len();
        assert(s[at] == ',');
        lemma_find_from_is(s, ',', from, at);
        assert(s.subrange(from, at) =~= first);
        let longer = front + first + seq![','];
        assert(s =~= longer + spec_with_commas(rest));
        assert(longer.len() == at + 1);
        assert forall|i: int| 0 <= i < rest.len() implies !(#[trigger] rest[i]).contains(',') by {
            assert(rest[i] == pieces[i + 1]);
        }
        lemma_split_pieces(longer, rest);
        assert(seq![first] + rest =~= pieces);
    }
}

proof fn lemma_path_of_pieces(dest: Seq<char>, hops: Seq<HopView>, n: int)
    requires
        1 <= n <= hops.len() + 1,
        forall|i: int|
            0 <= i < hops.len() ==> (#[trigger] hops[i]).call.len() > 0 && hops[i].call.last()
                != '*',
    ensures
        spec_tnc2_path(spec_route_pieces(dest, hops), n) == hops.take(n - 1),
    decreases n,
{
    let pieces = spec_route_pieces(dest, hops);
    if n > 1 {
        lemma_path_of_pieces(dest, hops, n - 1);
        let hop = hops[n - 2];
        let piece = pieces[n - 1];
        reveal_with_fuel(spec_strip_trailing, 2);
        if hop.used {
            assert(piece.last() == '*');
            assert(piece.drop_last() =~= hop.call);
        } else {
            assert(piece =~= hop.call);
        }
        assert(spec_tnc2_hop(piece) == hop);
        assert(hops.take(n - 1) =~= hops.take(n - 2).push(hop));
    } else {
        assert(hops.take(0) =~= Seq::<HopView>::empty());
    }
}

/// A passcode starts from 0x73E2 and takes in the call in pairs of characters, the first of each in
/// the high half; only the lower fifteen bits count.
pub proof fn law_passcode_takes_in_pairs(call: Seq<char>, a: char, b: char)
    requires
        forall|i: int|
            0 <= i < call.len() ==> 'A' <= #[trigger] call[i] <= 'Z' || '0' <= call[i] <= '9',
        call.len() % 2 == 0,
        'A' <= a <= 'Z' || '0' <= a <= '9',
        'A' <= b <= 'Z' || '0' <= b <= '9',
    ensures
        spec_passcode(seq![]) == 0x73E2,
        spec_passcode(call.push(a)) == spec_passcode(call) ^ (((a as u16) << 8) & 0x7FFF),
        spec_passcode(call.push(a).push(b)) == spec_passcode(call) ^ (((a as u16) << 8) & 0x7FFF)
            ^ (b as u16),
{
    lemma_plain_base(seq![]);
    lemma_plain_base(call);
    lemma_plain_base(call.push(a));
    let two = call.push(a).push(b);
    assert forall|i: int| 0 <= i < two.len() implies 'A' <= #[trigger] two[i] <= 'Z' || '0'
        <= two[i] <= '9' by {
        if i < call.len() {
            assert(two[i] == call[i]);
        }
    }
    lemma_plain_base(two);
    let n = call.len() as int;
    let x = encode_utf8(call);
    let y = encode_utf8(call.push(a));
    let z = encode_utf8(two);
    lemma_fold_prefix(x, y, n);
    lemma_fold_prefix(y, z, n + 1);
    assert(z[n + 1] == b as u8);
    assert(y[n] == a as u8);
    let h = spec_fold(x, n);
    let (p, q) = (a as u16, b as u16);
    assert((h ^ (p << 8)) & 0x7FFF == (h & 0x7FFF) ^ ((p << 8) & 0x7FFF)) by (bit_vector);
    assert(q < 128 ==> (h ^ (p << 8) ^ q) & 0x7FFF == (h & 0x7FFF) ^ ((p << 8) & 0x7FFF) ^ q)
        by (bit_vector);
    assert(0x73E2u16 & 0x7FFF == 0x73E2) by (bit_vector);
}

proof fn lemma_plain_base(call: Seq<char>)
    requires
        forall|i: int|
            0 <= i < call.len() ==> 'A' <= #[trigger] call[i] <= 'Z' || '0' <= call[i] <= '9',
    ensures
        encode_utf8(call).len() == call.len(),
        forall|i: int| 0 <= i < call.len() ==> #[trigger] encode_utf8(call)[i] == call[i] as u8,
        spec_passcode(call) == spec_fold(encode_utf8(call), call.len() as int) & 0x7FFF,
{
    assert forall|i: int| 0 <= i < call.len() implies call[i] != '-' by {
        assert('A' <= call[i] <= 'Z' || '0' <= call[i] <= '9');
    }
    lemma_find_from_none(call, '-', 0);
    assert forall|i: int| 0 <= i < call.len() implies '\0' <= #[trigger] call[i] <= '\u{7f}' by {}
    vstd::utf8::is_ascii_chars_encode_utf8(call);
    assert(spec_to_upper(call) =~= call);
}

proof fn lemma_fold_prefix(short: Seq<u8>, long: Seq<u8>, n: int)
    requires
        0 <= n <= short.len(),
        n <= long.len(),
        forall|i: int| 0 <= i < n ==> #[trigger] short[i] == long[i],
    ensures
        spec_fold(short, n) == spec_fold(long, n),
    decreases n,
{
    if n > 0 {
        lemma_fold_prefix(short, long, n - 1);
        assert(short[n - 1] == long[n - 1]);
    }
}

/// A header names the source, the destination and every hop, and marks only the last hop that was
/// used with a star.
pub proof fn law_header_stars_the_last_used_hop(
    source: Seq<char>,
    dest: Seq<char>,
    hops: Seq<HopView>,
    star: int,
)
    requires
        -1 <= star < hops.len(),
        star >= 0 ==> hops[star].used,
        forall|i: int| star < i < hops.len() ==> !(#[trigger] hops[i]).used,
    ensures
        ({
            let starred = Seq::new(
                hops.len(),
                |i: int| HopView { call: hops[i].call, used: i == star },
            );
            spec_header_text(source, dest, hops) == source + ">"@ + spec_with_commas(
                spec_route_pieces(dest, starred),
            )
        }),
{
    let starred = Seq::new(hops.len(), |i: int| HopView { call: hops[i].call, used: i == star });
    let n = hops.len() as int;
    let mark = if star >= 0 {
        Some(star)
    } else {
        None
    };
    lemma_last_used_is(hops, n, star);
    lemma_hops_text(dest, hops, n, star);
    let pieces = spec_route_pieces(dest, starred);
    assert(pieces.take(n + 1) =~= pieces);
    assert(source + ">"@ + (dest + spec_hops_text(hops, n, mark)) =~= source + ">"@ + dest
        + spec_hops_text(hops, n, mark));
}

proof fn lemma_last_used_is(hops: Seq<HopView>, n: int, star: int)
    requires
        -1 <= star < n <= hops.len() || (star == -1 && n == 0),
        star >= 0 ==> hops[star].used,
        forall|i: int| star < i < n ==> !(#[trigger] hops[i]).used,
    ensures
        spec_last_used(hops, n) == if star >= 0 {
            Some(star)
        } else {
            None
        },
    decreases n,
{
    if n > 0 && star < n - 1 {
        assert(!hops[n - 1].used);
        lemma_last_used_is(hops, n - 1, star);
    }
}

proof fn lemma_hops_text(dest: Seq<char>, hops: Seq<HopView>, n: int, star: int)
    requires
        0 <= n <= hops.len(),
    ensures
        ({
            let starred = Seq::new(
                hops.len(),
                |i: int| HopView { call: hops[i].call, used: i == star },
            );
            let mark = if star >= 0 {
                Some(star)
            } else {
                None
            };
            spec_with_commas(spec_route_pieces(dest, starred).take(n + 1)) == dest + spec_hops_text(
                hops,
                n,
                mark,
            )
        }),
    decreases n,
{
    reveal_strlit(",");
    reveal_strlit("*");
    let starred = Seq::new(hops.len(), |i: int| HopView { call: hops[i].call, used: i == star });
    let pieces = spec_route_pieces(dest, starred);
    let mark = if star >= 0 {
        Some(star)
    } else {
        None
    };
    if n == 0 {
        assert(pieces.take(1) =~= seq![dest]);
        assert(dest + Seq::<char>::empty() =~= dest);
    } else {
        lemma_hops_text(dest, hops, n - 1, star);
        let front = pieces.take(n);
        assert(pieces.take(n + 1) =~= front.push(pieces[n]));
        lemma_with_commas_push(front, pieces[n]);
        let before = spec_hops_text(hops, n - 1, mark);
        assert(dest + before + seq![','] + pieces[n] =~= dest + spec_hops_text(hops, n, mark));
    }
}

proof fn lemma_with_commas_push(pieces: Seq<Seq<char>>, last: Seq<char>)
    requires
        pieces.len() > 0,
    ensures
        spec_with_commas(pieces.push(last)) == spec_with_commas(pieces) + seq![','] + last,
    decreases pieces.len(),
{
    let all = pieces.push(last);
    if pieces.len() == 1 {
        assert(all.skip(1) =~= seq![last]);
        reveal_with_fuel(spec_with_commas, 2);
    } else {
        assert(all.skip(1) =~= pieces.skip(1).push(last));
        lemma_with_commas_push(pieces.skip(1), last);
        assert(all[0] == pieces[0]);
        assert(spec_with_commas(all) =~= spec_with_commas(pieces) + seq![','] + last);
    }
}

/// The texts of a path's stations, with commas between them, are read as that path.
pub proof fn law_path_reads_as_it_was_made(path: Seq<AddressView>)
    requires
        path.len() > 0,
        forall|i: int|
            0 <= i < path.len() ==> (#[trigger] path[i]).valid() && spec_to_upper(path[i].call)
                == path[i].call,
        !spec_same_ignoring_case(
            spec_with_commas(Seq::new(path.len(), |i: int| path[i].text())),
            "none"@,
        ),
    ensures
        spec_parse_path(spec_with_commas(Seq::new(path.len(), |i: int| path[i].text()))) == Ok::<
            Seq<AddressView>,
            Seq<char>,
        >(path),
        spec_parse_path("none"@) == Ok::<Seq<AddressView>, Seq<char>>(seq![]),
        spec_parse_path(seq![]) == Ok::<Seq<AddressView>, Seq<char>>(seq![]),
{
    let pieces = Seq::new(path.len(), |i: int| path[i].text());
    let text = spec_with_commas(pieces);
    assert forall|i: int| 0 <= i < pieces.len() implies !(#[trigger] pieces[i]).contains(',') by {
        assert(path[i].valid());
        lemma_station_text(path[i]);
    }
    lemma_split_pieces(Seq::empty(), pieces);
    assert(Seq::<char>::empty() + text =~= text);
    lemma_station_text(path[0]);
    assert(pieces[0].len() > 0);
    assert(text[0] == pieces[0][0]);
    lemma_trim_is_not_empty(text);
    lemma_pieces_read(path, path.len() as int);
    assert(path.take(path.len() as int) =~= path);
}

proof fn lemma_trim_is_not_empty(s: Seq<char>)
    requires
        s.len() > 0,
        !spec_is_space(s[0]),
    ensures
        spec_trim(s).len() > 0,
{
    lemma_trim_end_keeps_first(s);
}

proof fn lemma_trim_end_keeps_first(s: Seq<char>)
    requires
        s.len() > 0,
        !spec_is_space(s[0]),
    ensures
        spec_trim_end(s).len() > 0,
    decreases s.len(),
{
    if spec_is_space(s.last()) {
        assert(s.drop_last()[0] == s[0]);
        lemma_trim_end_keeps_first(s.drop_last());
    }
}

proof fn lemma_station_text(a: AddressView)
    requires
        a.valid(),
    ensures
        a.text().len() > 0,
        !spec_is_space(a.text()[0]),
        !a.text().contains(','),
{
    reveal_strlit("-");
    crate::numeral::law_decimal_reads_back(a.ssid as nat);
    let numeral = crate::numeral::spec_decimal(a.ssid as nat);
    assert(spec_is_alnum(a.call[0]));
    assert forall|i: int| 0 <= i < a.text().len() implies a.text()[i] != ',' by {
        if i < a.call.len() {
            assert(a.text()[i] == a.call[i]);
            assert(spec_is_alnum(a.call[i]));
        } else if i > a.call.len() {
            assert(a.text()[i] == numeral[i - a.call.len() - 1]);
            assert(spec_is_digit(numeral[i - a.call.len() - 1]));
        }
    }
}

proof fn lemma_pieces_read(path: Seq<AddressView>, n: int)
    requires
        0 <= n <= path.len(),
        forall|i: int|
            0 <= i < path.len() ==> (#[trigger] path[i]).valid() && spec_to_upper(path[i].call)
                == path[i].call,
    ensures
        spec_parse_pieces(Seq::new(path.len(), |i: int| path[i].text()), n) == Ok::<
            Seq<AddressView>,
            Seq<char>,
        >(path.take(n)),
    decreases n,
{
    if n > 0 {
        lemma_pieces_read(path, n - 1);
        law_parsing_undoes_display(path[n - 1]);
        assert(path.take(n) =~= path.take(n - 1).push(path[n - 1]));
    } else {
        assert(path.take(0) =~= Seq::<AddressView>::empty());
    }
}

/// What is no packet is not taken for one: a line without a colon, a header without `>`, and one
/// without a source or a destination.
pub proof fn law_other_lines_are_no_packets(line: Seq<u8>, header: Seq<char>, info: Seq<u8>)
    ensures
        !line.contains(':' as u8) ==> spec_parse_tnc2(line) is None,
        !header.contains('>') ==> spec_parse_header(header, info) is None,
        header.len() > 0 && header[0] == '>' ==> spec_parse_header(header, info) is None,
        spec_parse_tnc2(line) matches Some(heard) ==> heard.from_internet && heard.source.len() > 0
            && heard.dest.len() > 0,
{
    if !line.contains(':' as u8) {
        assert forall|i: int| 0 <= i < line.len() implies line[i] != ':' as u8 by {
            assert(line.contains(line[i]));
        }
        lemma_find_from_none(line, ':' as u8, 0);
    }
    if !header.contains('>') {
        assert forall|i: int| 0 <= i < header.len() implies header[i] != '>' by {
            assert(header.contains(header[i]));
        }
        lemma_find_from_none(header, '>', 0);
    }
    if header.len() > 0 && header[0] == '>' {
        lemma_find_from_is(header, '>', 0, 0);
    }
}

/// A destination without its SSID.
pub proof fn law_destination_without_ssid(heard: HeardView, call: Seq<char>, ssid: Seq<char>)
    requires
        !call.contains('-'),
        heard.dest == call || heard.dest == call + seq!['-'] + ssid,
    ensures
        heard.dest_call() == call,
{
    let full = heard.dest;
    assert forall|i: int| 0 <= i < call.len() implies full[i] != '-' by {
        assert(full[i] == call[i]);
        assert(call.contains(call[i]));
    }
    if full.len() > call.len() {
        lemma_find_from_is(full, '-', 0, call.len() as int);
        assert(full.take(call.len() as int) =~= call);
    } else {
        assert(full =~= call);
        lemma_find_from_none(full, '-', 0);
    }
}

} // verus!
