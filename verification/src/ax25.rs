//! AX.25 UI frames: the only frame type APRS uses.

use vstd::prelude::*;
use vstd::slice::{slice_subrange, slice_to_vec};
use vstd::utf8::encode_utf8;

use crate::encoding::{bytes_of, debug_text, spec_debug_text};
use crate::heard::{header_text, spec_header_text, spec_hops, Hop, HopView};
use crate::numeral::{decimal, parse_up_to, spec_decimal, spec_parse_up_to};
use crate::split::{spec_split, spec_split_once, split, split_once};
use crate::text::{
    all_alnum, chars_of, lemma_trim_end_padding, lemma_trim_ends, same_ignoring_case,
    spec_all_alnum, spec_is_alnum, spec_is_digit, spec_is_space, spec_pieces, spec_same_ignoring_case,
    spec_to_upper, spec_trim, spec_trim_end, spec_upper, starts_with, string_of, to_upper, trim,
    trim_end,
};

verus! {

pub const ADDR_LEN: usize = 7;

pub const MAX_DIGIS: usize = 8;

pub const CONTROL_UI: u8 = 0x03;

pub const POLL_FINAL: u8 = 0x10;

pub const PID_NO_LAYER3: u8 = 0xF0;

/// Command bit on destination/source, has-been-repeated bit on digipeaters.
pub const HIGH_BIT: u8 = 0x80;

pub const RESERVED_BITS: u8 = 0x60;

pub const EXTENSION_BIT: u8 = 0x01;

// ---------------------------------------------------------------------------
// Addresses
// ---------------------------------------------------------------------------

#[derive(Debug, PartialEq, Eq)]
pub struct Address {
    pub call: String,
    pub ssid: u8,
}

pub struct AddressView {
    pub call: Seq<char>,
    pub ssid: u8,
}

impl View for Address {
    type V = AddressView;

    open spec fn view(&self) -> AddressView {
        AddressView { call: self.call@, ssid: self.ssid }
    }
}

impl Clone for Address {
    fn clone(&self) -> (r: Address)
        ensures
            r == *self,
    {
        Address { call: self.call.clone(), ssid: self.ssid }
    }
}

impl AddressView {
    /// What a station may be called: 1-6 letters or digits and an SSID of 0-15.
    pub open spec fn valid(self) -> bool {
        1 <= self.call.len() <= 6 && spec_all_alnum(self.call) && self.ssid <= 15
    }

    /// `CALL`, or `CALL-SSID` where the SSID is not zero.
    pub open spec fn text(self) -> Seq<char> {
        if self.ssid == 0 {
            self.call
        } else {
            self.call + "-"@ + spec_decimal(self.ssid as nat)
        }
    }
}

/// The address that a text names, or why it names none.
pub open spec fn spec_parse_address(text: Seq<char>) -> Result<AddressView, Seq<char>> {
    let upper = spec_to_upper(spec_trim(text));
    match spec_split_once(upper, '-') {
        Some((call, ssid)) => match spec_parse_up_to(ssid, 255) {
            Some(n) => spec_checked_address(AddressView { call, ssid: n as u8 }, text),
            None => Err("invalid SSID in "@ + spec_debug_text(text)),
        },
        None => spec_checked_address(AddressView { call: upper, ssid: 0 }, text),
    }
}

pub open spec fn spec_checked_address(a: AddressView, text: Seq<char>) -> Result<
    AddressView,
    Seq<char>,
> {
    if a.valid() {
        Ok(a)
    } else {
        Err("invalid callsign "@ + spec_debug_text(text))
    }
}

/// The SSID byte of an address field, with its flag bits.
pub open spec fn spec_ssid_byte(ssid: u8, high_bit: bool, last: bool) -> u8 {
    RESERVED_BITS | (ssid << 1) | (if high_bit {
        HIGH_BIT
    } else {
        0u8
    }) | (if last {
        EXTENSION_BIT
    } else {
        0u8
    })
}

/// The seven bytes of an address field: the call shifted left and padded, then the SSID byte.
pub open spec fn spec_address_field(a: AddressView, high_bit: bool, last: bool) -> Seq<u8> {
    let call = encode_utf8(a.call);
    Seq::new(
        6,
        |i: int|
            if i < call.len() {
                call[i] << 1
            } else {
                0x40u8
            },
    ).push(spec_ssid_byte(a.ssid, high_bit, last))
}

/// The call in the first six bytes of an address field.
pub open spec fn spec_field_call(field: Seq<u8>) -> Seq<char> {
    spec_trim_end(Seq::new(6, |i: int| (field[i] >> 1) as char))
}

/// The address in an address field of seven bytes.
pub open spec fn spec_decode_field(field: Seq<u8>) -> Option<AddressView> {
    let call = spec_field_call(field);
    if call.len() > 0 && spec_all_alnum(call) {
        Some(AddressView { call, ssid: (field[6] >> 1) & 0x0F })
    } else {
        None
    }
}

impl Address {
    /// Parses `CALL` or `CALL-SSID` (1-6 alphanumerics, SSID 0-15).
    pub fn parse(text: &str) -> (r: Result<Address, String>)
        ensures
            match r {
                Ok(a) => spec_parse_address(text@) == Ok::<AddressView, Seq<char>>(a@),
                Err(e) => spec_parse_address(text@) == Err::<AddressView, Seq<char>>(e@),
            },
    {
        let chars = chars_of(text);
        let upper = to_upper(trim(chars.as_slice()));
        let (call, ssid): (&[char], u32) = match split_once(upper.as_slice(), '-') {
            Some((call, ssid)) => match parse_up_to(ssid, 255) {
                Some(n) => (call, n),
                None => {
                    let mut e = String::from_str("invalid SSID in ");
                    e.append(debug_text(text).as_str());
                    return Err(e);
                },
            },
            None => (upper.as_slice(), 0),
        };
        if call.len() < 1 || call.len() > 6 || !all_alnum(call) || ssid > 15 {
            let mut e = String::from_str("invalid callsign ");
            e.append(debug_text(text).as_str());
            return Err(e);
        }
        Ok(Address { call: string_of(call), ssid: ssid as u8 })
    }

    /// `CALL`, or `CALL-SSID` where the SSID is not zero.
    pub fn to_string(&self) -> (r: String)
        ensures
            r@ == self@.text(),
    {
        let mut out = self.call.clone();
        if self.ssid != 0 {
            out.append("-");
            out.append(decimal(self.ssid as u128).as_str());
        }
        out
    }

    fn encode(&self, high_bit: bool, last: bool, out: &mut Vec<u8>)
        ensures
            final(out)@ == old(out)@ + spec_address_field(self@, high_bit, last),
    {
        let call = bytes_of(self.call.as_str());
        let ghost field = spec_address_field(self@, high_bit, last);
        assert((32u8 << 1) == 0x40u8) by (bit_vector);
        assert(out@ =~= old(out)@ + field.take(0));
        for i in 0..6usize
            invariant
                call@ == encode_utf8(self.call@),
                field == spec_address_field(self@, high_bit, last),
                (32u8 << 1) == 0x40u8,
                out@ == old(out)@ + field.take(i as int),
        {
            if i < call.len() {
                out.push(call[i] << 1);
            } else {
                out.push(32u8 << 1);
            }
            assert(out@ =~= old(out)@ + field.take(i + 1));
        }
        let mut ssid_byte: u8 = RESERVED_BITS | (self.ssid << 1);
        if high_bit {
            ssid_byte = ssid_byte | HIGH_BIT;
        }
        if last {
            ssid_byte = ssid_byte | EXTENSION_BIT;
        }
        assert(forall|b: u8| b | 0u8 == b) by (bit_vector);
        out.push(ssid_byte);
        assert(out@ =~= old(out)@ + field);
    }

    /// Returns the address and its raw SSID byte (for the flag bits).
    fn decode(field: &[u8]) -> (r: Option<(Address, u8)>)
        requires
            field@.len() == 7,
        ensures
            match r {
                Some((a, b)) => spec_decode_field(field@) == Some(a@) && b == field@[6],
                None => spec_decode_field(field@) is None,
            },
    {
        let mut shifted: Vec<char> = Vec::new();
        for i in 0..6usize
            invariant
                field@.len() == 7,
                shifted@.len() == i,
                forall|j: int| 0 <= j < i ==> shifted@[j] == (field@[j] >> 1) as char,
        {
            shifted.push((field[i] >> 1) as char);
        }
        assert(shifted@ =~= Seq::new(6, |i: int| (field@[i] >> 1) as char));
        let call = trim_end(shifted.as_slice());
        if call.len() == 0 || !all_alnum(call) {
            return None;
        }
        let ssid_byte: u8 = field[6];
        Some((Address { call: string_of(call), ssid: (ssid_byte >> 1) & 0x0F }, ssid_byte))
    }
}

// ---------------------------------------------------------------------------
// Paths
// ---------------------------------------------------------------------------

pub open spec fn spec_path(v: Seq<Address>) -> Seq<AddressView> {
    Seq::new(v.len(), |i: int| v[i]@)
}

/// The addresses that the first `n` pieces name, or why the first bad one names none.
pub open spec fn spec_parse_pieces(pieces: Seq<Seq<char>>, n: int) -> Result<
    Seq<AddressView>,
    Seq<char>,
>
    decreases n,
{
    if n <= 0 {
        Ok(Seq::empty())
    } else {
        match spec_parse_pieces(pieces, n - 1) {
            Ok(path) => match spec_parse_address(pieces[n - 1]) {
                Ok(address) => Ok(path.push(address)),
                Err(e) => Err(e),
            },
            Err(e) => Err(e),
        }
    }
}

/// A digipeater path: addresses with commas between them; nothing or `none` for an empty one.
pub open spec fn spec_parse_path(text: Seq<char>) -> Result<Seq<AddressView>, Seq<char>> {
    if spec_trim(text).len() == 0 || spec_same_ignoring_case(text, "none"@) {
        Ok(Seq::empty())
    } else {
        spec_parse_pieces(spec_split(text, ','), spec_split(text, ',').len() as int)
    }
}

/// The first error stays the result however many pieces follow.
proof fn lemma_pieces_error(pieces: Seq<Seq<char>>, n: int, m: int)
    requires
        n <= m,
        spec_parse_pieces(pieces, n) is Err,
    ensures
        spec_parse_pieces(pieces, m) == spec_parse_pieces(pieces, n),
    decreases m - n,
{
    if n < m {
        lemma_pieces_error(pieces, n, m - 1);
    }
}

/// Parses a digipeater path such as `WIDE1-1,WIDE2-1`, or `none`.
pub fn parse_path(text: &str) -> (r: Result<Vec<Address>, String>)
    ensures
        match r {
            Ok(path) => spec_parse_path(text@) == Ok::<Seq<AddressView>, Seq<char>>(
                spec_path(path@),
            ),
            Err(e) => spec_parse_path(text@) == Err::<Seq<AddressView>, Seq<char>>(e@),
        },
{
    let chars = chars_of(text);
    let mut path: Vec<Address> = Vec::new();
    assert(spec_path(path@) =~= Seq::<AddressView>::empty());
    if trim(chars.as_slice()).len() == 0 || same_ignoring_case(
        chars.as_slice(),
        chars_of("none").as_slice(),
    ) {
        return Ok(path);
    }
    let pieces = split(chars.as_slice(), ',');
    let ghost all = spec_pieces(pieces@);
    for i in 0..pieces.len()
        invariant
            all == spec_pieces(pieces@),
            all == spec_split(text@, ','),
            spec_parse_path(text@) == spec_parse_pieces(all, all.len() as int),
            spec_parse_pieces(all, i as int) == Ok::<Seq<AddressView>, Seq<char>>(
                spec_path(path@),
            ),
    {
        assert(all[i as int] == pieces@[i as int]@);
        match Address::parse(string_of(pieces[i].as_slice()).as_str()) {
            Ok(address) => {
                let ghost before = path@;
                path.push(address);
                assert(spec_path(path@) =~= spec_path(before).push(address@));
            },
            Err(e) => {
                proof {
                    lemma_pieces_error(all, i + 1, all.len() as int);
                }
                return Err(e);
            },
        }
    }
    Ok(path)
}

// ---------------------------------------------------------------------------
// Frames
// ---------------------------------------------------------------------------

pub struct UiFrame {
    pub dest: Address,
    pub src: Address,
    /// Digipeater path; the flag is the has-been-repeated bit.
    pub digis: Vec<(Address, bool)>,
    pub info: Vec<u8>,
}

pub struct UiFrameView {
    pub dest: AddressView,
    pub src: AddressView,
    pub digis: Seq<(AddressView, bool)>,
    pub info: Seq<u8>,
}

pub open spec fn spec_flagged(v: Seq<(Address, bool)>) -> Seq<(AddressView, bool)> {
    Seq::new(v.len(), |i: int| (v[i].0@, v[i].1))
}

impl View for UiFrame {
    type V = UiFrameView;

    open spec fn view(&self) -> UiFrameView {
        UiFrameView {
            dest: self.dest@,
            src: self.src@,
            digis: spec_flagged(self.digis@),
            info: self.info@,
        }
    }
}

impl UiFrameView {
    /// A frame whose stations are validly named and whose path a frame can hold.
    pub open spec fn valid(self) -> bool {
        &&& self.dest.valid()
        &&& self.src.valid()
        &&& self.digis.len() <= MAX_DIGIS
        &&& forall|i: int| 0 <= i < self.digis.len() ==> (#[trigger] self.digis[i]).0.valid()
    }

    /// The first `n` digipeater fields; the last of the whole path carries the extension bit.
    pub open spec fn digi_fields(self, n: int) -> Seq<u8>
        decreases n,
    {
        if n <= 0 {
            Seq::empty()
        } else {
            self.digi_fields(n - 1) + spec_address_field(
                self.digis[n - 1].0,
                self.digis[n - 1].1,
                n == self.digis.len(),
            )
        }
    }

    /// The address fields: destination, source and path.
    pub open spec fn address_fields(self) -> Seq<u8> {
        spec_address_field(self.dest, true, false) + spec_address_field(
            self.src,
            false,
            self.digis.len() == 0,
        ) + self.digi_fields(self.digis.len() as int)
    }

    pub open spec fn encoded(self) -> Seq<u8> {
        self.address_fields() + seq![CONTROL_UI, PID_NO_LAYER3] + self.info
    }

    /// The path as the hops of a monitor line.
    pub open spec fn hops(self) -> Seq<HopView> {
        Seq::new(
            self.digis.len(),
            |i: int| HopView { call: self.digis[i].0.text(), used: self.digis[i].1 },
        )
    }

    /// TNC2 monitor header: `SRC>DEST,DIGI1,DIGI2*` (star on the last repeated hop).
    pub open spec fn header(self) -> Seq<char> {
        spec_header_text(self.src.text(), self.dest.text(), self.hops())
    }

    /// Index of the last station among the first `n` that repeated the frame under its own name.
    pub open spec fn last_repeater(self, n: int) -> Option<int>
        decreases n,
    {
        if n <= 0 || n > self.digis.len() {
            None
        } else if self.digis[n - 1].1 && !spec_is_relay_alias(self.digis[n - 1].0.call) {
            Some(n - 1)
        } else {
            self.last_repeater(n - 1)
        }
    }

    pub open spec fn repeated_by(self) -> Option<Seq<char>> {
        match self.last_repeater(self.digis.len() as int) {
            Some(i) => Some(self.digis[i].0.text()),
            None => None,
        }
    }
}

/// Generic aliases that a digipeater marks as used in place of its own call.
pub open spec fn spec_is_relay_alias(call: Seq<char>) -> bool {
    ||| "WIDE"@.is_prefix_of(call)
    ||| "TRACE"@.is_prefix_of(call)
    ||| "RELAY"@.is_prefix_of(call)
    ||| "TEMP"@.is_prefix_of(call)
    ||| "ECHO"@.is_prefix_of(call)
    ||| "GATE"@.is_prefix_of(call)
}

/// The address fields of a frame from the `n`th on, each with its high bit, up to the one that
/// carries the extension bit; at most ten in all.
pub open spec fn spec_addresses(frame: Seq<u8>, n: int) -> Option<Seq<(AddressView, bool)>>
    decreases 2 + MAX_DIGIS - n,
{
    if n < 0 || n >= 2 + MAX_DIGIS || frame.len() < ADDR_LEN * (n + 1) {
        None
    } else {
        let field = frame.subrange(ADDR_LEN * n, ADDR_LEN * (n + 1));
        match spec_decode_field(field) {
            Some(a) => {
                let here = seq![(a, field[6] & HIGH_BIT != 0)];
                if field[6] & EXTENSION_BIT != 0 {
                    Some(here)
                } else {
                    match spec_addresses(frame, n + 1) {
                        Some(rest) => Some(here + rest),
                        None => None,
                    }
                }
            },
            None => None,
        }
    }
}

/// The APRS UI frame in a frame as a TNC delivers it. The poll/final bit does not matter.
pub open spec fn spec_decode_frame(frame: Seq<u8>) -> Option<UiFrameView> {
    match spec_addresses(frame, 0) {
        Some(a) => {
            let pos = ADDR_LEN * a.len();
            if a.len() >= 2 && frame.len() >= pos + 2 && (frame[pos] == CONTROL_UI || frame[pos]
                == CONTROL_UI | POLL_FINAL) && frame[pos + 1] == PID_NO_LAYER3 {
                Some(
                    UiFrameView {
                        dest: a[0].0,
                        src: a[1].0,
                        digis: a.skip(2),
                        info: frame.skip(pos + 2),
                    },
                )
            } else {
                None
            }
        },
        None => None,
    }
}

impl UiFrame {
    /// Encodes the frame without FCS (the TNC adds it).
    pub fn encode(&self) -> (r: Vec<u8>)
        ensures
            r@ == self@.encoded(),
    {
        let mut out: Vec<u8> = Vec::new();
        self.dest.encode(true, false, &mut out);
        self.src.encode(false, self.digis.is_empty(), &mut out);
        let ghost head = out@;
        assert(head =~= spec_address_field(self@.dest, true, false) + spec_address_field(
            self@.src,
            false,
            self@.digis.len() == 0,
        ));
        assert(out@ =~= head + self@.digi_fields(0));
        for i in 0..self.digis.len()
            invariant
                out@ == head + self@.digi_fields(i as int),
        {
            let ghost before = out@;
            self.digis[i].0.encode(self.digis[i].1, i + 1 == self.digis.len(), &mut out);
            assert(self@.digis[i as int] == (self.digis@[i as int].0@, self.digis@[i as int].1));
            assert(out@ =~= head + self@.digi_fields(i + 1));
        }
        out.push(CONTROL_UI);
        out.push(PID_NO_LAYER3);
        out.extend_from_slice(self.info.as_slice());
        assert(out@ =~= self@.encoded());
        out
    }

    /// Decodes a frame as delivered by a KISS TNC; `None` unless it is an APRS UI frame.
    pub fn decode(frame: &[u8]) -> (r: Option<UiFrame>)
        ensures
            match r {
                Some(f) => spec_decode_frame(frame@) == Some(f@),
                None => spec_decode_frame(frame@) is None,
            },
    {
        let mut digis: Vec<(Address, bool)> = match Self::decode_addresses(frame, 0) {
            Some(digis) => digis,
            None => return None,
        };
        let ghost all = spec_flagged(digis@);
        if digis.len() < 2 {
            return None;
        }
        let pos: usize = ADDR_LEN * digis.len();
        if frame.len() < pos + 2 {
            return None;
        }
        let control: u8 = frame[pos];
        assert((control & !POLL_FINAL == CONTROL_UI) == (control == CONTROL_UI || control
            == CONTROL_UI | POLL_FINAL)) by (bit_vector);
        if control & !POLL_FINAL != CONTROL_UI || frame[pos + 1] != PID_NO_LAYER3 {
            return None;
        }
        let (dest, _) = digis.remove(0);
        let (src, _) = digis.remove(0);
        let info = slice_to_vec(slice_subrange(frame, pos + 2, frame.len()));
        assert(info@ =~= frame@.skip(pos + 2));
        assert(spec_flagged(digis@) =~= all.skip(2));
        assert(dest@ == all[0].0 && src@ == all[1].0);
        Some(UiFrame { dest, src, digis, info })
    }

    /// The address fields from the `n`th on.
    fn decode_addresses(frame: &[u8], n: usize) -> (r: Option<Vec<(Address, bool)>>)
        requires
            n <= 2 + MAX_DIGIS,
        ensures
            match r {
                Some(v) => {
                    &&& spec_addresses(frame@, n as int) == Some(spec_flagged(v@))
                    &&& ADDR_LEN * (n + v@.len()) <= frame@.len()
                    &&& n + v@.len() <= 2 + MAX_DIGIS
                },
                None => spec_addresses(frame@, n as int) is None,
            },
        decreases 2 + MAX_DIGIS - n,
    {
        if n >= 2 + MAX_DIGIS || frame.len() < ADDR_LEN * (n + 1) {
            return None;
        }
        let field = slice_subrange(frame, ADDR_LEN * n, ADDR_LEN * (n + 1));
        match Address::decode(field) {
            Some((address, ssid_byte)) => {
                let flag: bool = ssid_byte & HIGH_BIT != 0;
                if ssid_byte & EXTENSION_BIT != 0 {
                    let mut out: Vec<(Address, bool)> = Vec::new();
                    out.push((address, flag));
                    assert(spec_flagged(out@) =~= seq![(address@, flag)]);
                    Some(out)
                } else {
                    match Self::decode_addresses(frame, n + 1) {
                        Some(mut rest) => {
                            let ghost tail = spec_flagged(rest@);
                            rest.insert(0, (address, flag));
                            assert(spec_flagged(rest@) =~= seq![(address@, flag)] + tail);
                            Some(rest)
                        },
                        None => None,
                    }
                }
            },
            None => None,
        }
    }

    /// TNC2 monitor header: `SRC>DEST,DIGI1,DIGI2*` (star on the last repeated hop).
    pub fn header(&self) -> (r: String)
        ensures
            r@ == self@.header(),
    {
        let hops = self.hops();
        header_text(self.src.to_string().as_str(), self.dest.to_string().as_str(), &hops)
    }

    /// The path as the hops of a monitor line.
    pub(crate) fn hops(&self) -> (r: Vec<Hop>)
        ensures
            spec_hops(r@) == self@.hops(),
    {
        let mut hops: Vec<Hop> = Vec::new();
        for i in 0..self.digis.len()
            invariant
                hops@.len() == i,
                forall|j: int| 0 <= j < i ==> (#[trigger] hops@[j])@ == self@.hops()[j],
        {
            hops.push(Hop { call: self.digis[i].0.to_string(), used: self.digis[i].1 });
            assert(hops@[i as int]@ == self@.hops()[i as int]);
        }
        assert(spec_hops(hops@) =~= self@.hops());
        hops
    }

    /// The last station that actually repeated this frame, skipping generic
    /// aliases such as WIDE1 that a digipeater marks as used.
    pub fn repeated_by(&self) -> (r: Option<String>)
        ensures
            match r {
                Some(s) => self@.repeated_by() == Some(s@),
                None => self@.repeated_by() is None,
            },
    {
        let mut i: usize = self.digis.len();
        while i > 0
            invariant
                i <= self.digis@.len(),
                self@.last_repeater(self@.digis.len() as int) == self@.last_repeater(i as int),
            decreases i,
        {
            if self.digis[i - 1].1 && !is_relay_alias(self.digis[i - 1].0.call.as_str()) {
                return Some(self.digis[i - 1].0.to_string());
            }
            i -= 1;
        }
        None
    }
}

/// Generic aliases that a digipeater marks as used in place of its own call.
pub fn is_relay_alias(call: &str) -> (r: bool)
    ensures
        r == spec_is_relay_alias(call@),
{
    let c = chars_of(call);
    let s = c.as_slice();
    starts_with(s, "WIDE") || starts_with(s, "TRACE") || starts_with(s, "RELAY") || starts_with(
        s,
        "TEMP",
    ) || starts_with(s, "ECHO") || starts_with(s, "GATE")
}

// ---------------------------------------------------------------------------
// Laws
// ---------------------------------------------------------------------------

/// What parsing accepts is valid, in upper case, and does not depend on the case of letters or on
/// white space around the text.
pub proof fn law_parsed_addresses_are_valid(text: Seq<char>)
    ensures
        spec_parse_address(text) matches Ok(a) ==> a.valid() && spec_to_upper(a.call) == a.call,
        spec_parse_address(text) is Ok <==> spec_parse_address(spec_to_upper(spec_trim(text))) is Ok,
        spec_parse_address(text) is Ok ==> spec_parse_address(spec_to_upper(spec_trim(text)))
            == spec_parse_address(text),
{
    let upper = spec_to_upper(spec_trim(text));
    lemma_trim_ends(text);
    assert(spec_trim(upper) == upper) by {
        if upper.len() > 0 {
            assert(upper[0] == spec_upper(spec_trim(text)[0]));
            assert(upper.last() == spec_upper(spec_trim(text).last()));
        }
    }
    assert(spec_to_upper(upper) =~= upper);
    if let Ok(a) = spec_parse_address(text) {
        assert(spec_to_upper(a.call) =~= a.call) by {
            crate::split::lemma_find_from(upper, '-', 0);
            assert forall|i: int| 0 <= i < a.call.len() implies spec_upper(a.call[i])
                == a.call[i] by {
                assert(a.call[i] == upper[i]);
            }
        }
    }
}

/// An address's text names that address: parsing undoes display for every valid address in
/// upper case.
pub proof fn law_parsing_undoes_display(a: AddressView)
    requires
        a.valid(),
        spec_to_upper(a.call) == a.call,
    ensures
        spec_parse_address(a.text()) == Ok::<AddressView, Seq<char>>(a),
{
    let text = a.text();
    let numeral = spec_decimal(a.ssid as nat);
    crate::numeral::law_decimal_reads_back(a.ssid as nat);
    reveal_strlit("-");
    assert(spec_is_alnum(a.call[0]));
    assert(spec_is_alnum(a.call.last()));
    assert(a.ssid != 0 ==> spec_is_digit(numeral.last()));
    assert(spec_trim(text) == text);
    assert forall|i: int| 0 <= i < text.len() implies spec_upper(text[i]) == #[trigger] text[i] by {
        if i < a.call.len() {
            assert(spec_to_upper(a.call)[i] == a.call[i]);
        } else if i > a.call.len() {
            assert(spec_is_digit(numeral[i - a.call.len() - 1]));
        }
    }
    assert(spec_to_upper(text) =~= text);
    assert forall|i: int| 0 <= i < a.call.len() implies text[i] != '-' by {
        assert(spec_is_alnum(a.call[i]));
    }
    if a.ssid == 0 {
        crate::split::lemma_find_from_none(text, '-', 0);
    } else {
        crate::split::lemma_find_from_is(text, '-', 0, a.call.len() as int);
        assert(text.take(a.call.len() as int) =~= a.call);
        assert(text.skip(a.call.len() as int + 1) =~= numeral);
    }
}

/// A valid address survives its address field, and the field's flag bits are as they were set.
proof fn lemma_field_round_trip(a: AddressView, high_bit: bool, last: bool)
    requires
        a.valid(),
    ensures
        spec_address_field(a, high_bit, last).len() == ADDR_LEN,
        spec_decode_field(spec_address_field(a, high_bit, last)) == Some(a),
        (spec_address_field(a, high_bit, last)[6] & HIGH_BIT != 0) == high_bit,
        (spec_address_field(a, high_bit, last)[6] & EXTENSION_BIT != 0) == last,
{
    let field = spec_address_field(a, high_bit, last);
    let call = a.call;
    assert forall|i: int| 0 <= i < call.len() implies '\0' <= #[trigger] call[i] <= '\u{7f}' by {
        assert(spec_is_alnum(call[i]));
    }
    vstd::utf8::is_ascii_chars_encode_utf8(call);
    let bytes = encode_utf8(call);
    let shifted = Seq::new(6, |i: int| (field[i] >> 1) as char);
    assert forall|i: int| 0 <= i < 6 implies shifted[i] == (if i < call.len() {
        call[i]
    } else {
        ' '
    }) by {
        if i < call.len() {
            assert(spec_is_alnum(call[i]));
            let b = bytes[i];
            assert(b == call[i] as u8);
            assert(b < 128 ==> (b << 1) >> 1 == b) by (bit_vector);
        } else {
            assert(0x40u8 >> 1 == 0x20u8) by (bit_vector);
        }
    }
    assert(shifted.take(call.len() as int) =~= call);
    lemma_trim_end_padding(call, shifted);
    assert(spec_is_alnum(call.last()));
    assert(spec_field_call(field) == call);
    let ssid = a.ssid;
    assert(ssid <= 15 ==> {
        &&& ((0x60u8 | (ssid << 1) | 0x80 | 1) >> 1) & 0x0F == ssid
        &&& ((0x60u8 | (ssid << 1) | 0x80 | 0) >> 1) & 0x0F == ssid
        &&& ((0x60u8 | (ssid << 1) | 0 | 1) >> 1) & 0x0F == ssid
        &&& ((0x60u8 | (ssid << 1) | 0 | 0) >> 1) & 0x0F == ssid
        &&& (0x60u8 | (ssid << 1) | 0x80 | 1) & 0x80 != 0
        &&& (0x60u8 | (ssid << 1) | 0x80 | 0) & 0x80 != 0
        &&& (0x60u8 | (ssid << 1) | 0 | 1) & 0x80 == 0
        &&& (0x60u8 | (ssid << 1) | 0 | 0) & 0x80 == 0
        &&& (0x60u8 | (ssid << 1) | 0x80 | 1) & 1 != 0
        &&& (0x60u8 | (ssid << 1) | 0x80 | 0) & 1 == 0
        &&& (0x60u8 | (ssid << 1) | 0 | 1) & 1 != 0
        &&& (0x60u8 | (ssid << 1) | 0 | 0) & 1 == 0
    }) by (bit_vector);
}

impl UiFrameView {
    /// Every address field of the frame with its high bit: destination, source, then the path.
    spec fn stations(self) -> Seq<(AddressView, bool)> {
        seq![(self.dest, true), (self.src, false)] + self.digis
    }

    spec fn station_field(self, n: int) -> Seq<u8> {
        spec_address_field(
            self.stations()[n].0,
            self.stations()[n].1,
            n == self.stations().len() - 1,
        )
    }

    proof fn lemma_digi_fields(self, n: int, k: int)
        requires
            0 <= k < n <= self.digis.len(),
        ensures
            self.digi_fields(n).len() == ADDR_LEN * n,
            self.digi_fields(n).subrange(ADDR_LEN * k, ADDR_LEN * (k + 1)) == self.station_field(
                k + 2,
            ),
        decreases n,
    {
        let front = self.digi_fields(n - 1);
        let field = spec_address_field(self.digis[n - 1].0, self.digis[n - 1].1, n
            == self.digis.len());
        assert(field.len() == ADDR_LEN);
        if n > 1 {
            self.lemma_digi_fields(n - 1, if k < n - 1 {
                k
            } else {
                0
            });
        }
        if k == n - 1 {
            assert(self.digi_fields(n).subrange(ADDR_LEN * k, ADDR_LEN * (k + 1)) =~= field);
            assert(self.stations()[k + 2] == self.digis[k]);
        } else {
            assert(self.digi_fields(n).subrange(ADDR_LEN * k, ADDR_LEN * (k + 1))
                =~= front.subrange(ADDR_LEN * k, ADDR_LEN * (k + 1)));
        }
    }

    /// Each station's field stands in the encoded frame at its place.
    proof fn lemma_encoded_fields(self, n: int)
        requires
            0 <= n < self.stations().len(),
        ensures
            self.address_fields().len() == ADDR_LEN * self.stations().len(),
            self.encoded().len() == ADDR_LEN * self.stations().len() + 2 + self.info.len(),
            self.encoded().subrange(ADDR_LEN * n, ADDR_LEN * (n + 1)) == self.station_field(n),
    {
        assert(spec_address_field(self.dest, true, false).len() == ADDR_LEN);
        assert(spec_address_field(self.src, false, self.digis.len() == 0).len() == ADDR_LEN);
        if self.digis.len() > 0 {
            self.lemma_digi_fields(self.digis.len() as int, if n >= 2 {
                n - 2
            } else {
                0
            });
        }
        if n < 2 {
            assert(self.encoded().subrange(ADDR_LEN * n, ADDR_LEN * (n + 1))
                =~= self.station_field(n));
        } else {
            assert(self.encoded().subrange(ADDR_LEN * n, ADDR_LEN * (n + 1)) =~= self.digi_fields(
                self.digis.len() as int,
            ).subrange(ADDR_LEN * (n - 2), ADDR_LEN * (n - 1)));
        }
    }

    proof fn lemma_addresses(self, n: int)
        requires
            self.valid(),
            0 <= n < self.stations().len(),
        ensures
            spec_addresses(self.encoded(), n) == Some(self.stations().skip(n)),
        decreases self.stations().len() - n,
    {
        let s = self.stations()[n];
        let last = n == self.stations().len() - 1;
        self.lemma_encoded_fields(n);
        assert(s.0.valid()) by {
            if n >= 2 {
                assert(s == self.digis[n - 2]);
            }
        }
        lemma_field_round_trip(s.0, s.1, last);
        if last {
            assert(self.stations().skip(n) =~= seq![s]);
        } else {
            self.lemma_addresses(n + 1);
            assert(self.stations().skip(n) =~= seq![s] + self.stations().skip(n + 1));
        }
    }

    /// With too long a path, none of the fields that are looked at carries the extension bit.
    proof fn lemma_no_addresses(self, n: int)
        requires
            self.digis.len() > MAX_DIGIS,
            0 <= n <= 2 + MAX_DIGIS,
        ensures
            spec_addresses(self.encoded(), n) is None,
        decreases 2 + MAX_DIGIS - n,
    {
        if n < 2 + MAX_DIGIS {
            self.lemma_no_addresses(n + 1);
            self.lemma_encoded_fields(n);
            let ssid = self.stations()[n].0.ssid;
            assert((0x60u8 | (ssid << 1) | 0x80 | 0) & 1 == 0) by (bit_vector);
            assert((0x60u8 | (ssid << 1) | 0 | 0) & 1 == 0) by (bit_vector);
            assert(self.station_field(n)[6] & EXTENSION_BIT == 0);
        }
    }
}

/// Decoding undoes encoding: a frame with validly named stations and at most eight digipeaters
/// comes back with the same addresses, the same has-been-repeated bits and the same information.
pub proof fn law_decoding_undoes_encoding(frame: UiFrameView)
    requires
        frame.valid(),
    ensures
        spec_decode_frame(frame.encoded()) == Some(frame),
{
    frame.lemma_addresses(0);
    frame.lemma_encoded_fields(0);
    let a = frame.stations();
    assert(a.skip(0) =~= a);
    assert(a.skip(2) =~= frame.digis);
    let pos = ADDR_LEN * a.len();
    assert(frame.encoded()[pos] == CONTROL_UI);
    assert(frame.encoded()[pos + 1] == PID_NO_LAYER3);
    assert(frame.encoded().skip(pos + 2) =~= frame.info);
}

/// A frame with more than eight digipeaters is not decoded, whatever its stations are named.
pub proof fn law_too_long_a_path_is_refused(frame: UiFrameView)
    requires
        frame.digis.len() > MAX_DIGIS,
    ensures
        spec_decode_frame(frame.encoded()) is None,
{
    frame.lemma_no_addresses(0);
}

proof fn lemma_ssid_bits(ssid: u8, high_bit: bool, last: bool)
    ensures
        (spec_ssid_byte(ssid, high_bit, last) & 0x80 != 0) == (high_bit || ssid & 0x40 != 0),
        (spec_ssid_byte(ssid, high_bit, last) & 0x01 != 0) == last,
        ssid <= 15 ==> ssid & 0x40 == 0,
        ssid <= 15 ==> spec_ssid_byte(ssid, high_bit, last) == 0x60 + 2 * ssid + (if high_bit {
            0x80int
        } else {
            0
        }) + (if last {
            1int
        } else {
            0
        }),
{
    assert((0x60u8 | (ssid << 1) | 0x80 | 1) & 0x80 != 0) by (bit_vector);
    assert((0x60u8 | (ssid << 1) | 0x80 | 0) & 0x80 != 0) by (bit_vector);
    assert(((0x60u8 | (ssid << 1) | 0 | 1) & 0x80 != 0) == (ssid & 0x40 != 0)) by (bit_vector);
    assert(((0x60u8 | (ssid << 1) | 0 | 0) & 0x80 != 0) == (ssid & 0x40 != 0)) by (bit_vector);
    assert({
        &&& (0x60u8 | (ssid << 1) | 0x80 | 1) & 1 != 0
        &&& (0x60u8 | (ssid << 1) | 0x80 | 0) & 1 == 0
        &&& (0x60u8 | (ssid << 1) | 0 | 1) & 1 != 0
        &&& (0x60u8 | (ssid << 1) | 0 | 0) & 1 == 0
    }) by (bit_vector);
    assert(ssid <= 15 ==> {
        &&& ssid & 0x40 == 0
        &&& (0x60u8 | (ssid << 1) | 0x80 | 1) == 0x60 + 2 * ssid + 0x80 + 1
        &&& (0x60u8 | (ssid << 1) | 0x80 | 0) == 0x60 + 2 * ssid + 0x80
        &&& (0x60u8 | (ssid << 1) | 0 | 1) == 0x60 + 2 * ssid + 1
        &&& (0x60u8 | (ssid << 1) | 0 | 0) == 0x60 + 2 * ssid
    }) by (bit_vector);
}

/// The `n`th station of a frame: destination, source, then the path.
pub open spec fn spec_nth_station(frame: UiFrameView, n: int) -> AddressView {
    if n == 0 {
        frame.dest
    } else if n == 1 {
        frame.src
    } else {
        frame.digis[n - 2].0
    }
}

/// How a frame looks on the wire. Each station takes seven bytes: its call as doubled ASCII codes,
/// filled up with doubled spaces, and a byte with twice its SSID and three flags. The high bit is
/// set for the destination, clear for the source, and set for a digipeater exactly where that has
/// repeated the frame; the lowest bit is set for the last station only. Then come the two bytes of
/// an information frame without layer 3, and the information.
pub proof fn law_frame_on_the_wire(frame: UiFrameView, n: int, i: int)
    requires
        frame.dest.valid(),
        frame.src.valid(),
        forall|k: int| 0 <= k < frame.digis.len() ==> (#[trigger] frame.digis[k]).0.valid(),
        0 <= n < 2 + frame.digis.len(),
        0 <= i < 6,
    ensures
        ({
            let wire = frame.encoded();
            let station = spec_nth_station(frame, n);
            let stations: int = 2 + frame.digis.len() as int;
            let high = n == 0 || (n >= 2 && frame.digis[n - 2].1);
            &&& wire.len() == 7 * stations + 2 + frame.info.len()
            &&& wire[7 * n + i] as int == 2 * (if i < station.call.len() {
                station.call[i] as int
            } else {
                ' ' as int
            })
            &&& (wire[7 * n + 6] & 0x80 != 0) == high
            &&& wire[7 * n + 6] as int == 0x60 + 2 * station.ssid + (if high {
                0x80int
            } else {
                0
            }) + (if n == stations - 1 {
                1int
            } else {
                0
            })
            &&& wire[7 * stations] == 0x03
            &&& wire[7 * stations + 1] == 0xF0
            &&& wire.skip(7 * stations + 2) == frame.info
        }),
{
    let wire = frame.encoded();
    let station = spec_nth_station(frame, n);
    let stations: int = 2 + frame.digis.len() as int;
    let (a, high) = frame.stations()[n];
    let last = n == stations - 1;
    assert(a == station);
    assert(a.valid()) by {
        if n >= 2 {
            assert(frame.digis[n - 2].0.valid());
        }
    }
    frame.lemma_encoded_fields(n);
    let field = spec_address_field(a, high, last);
    assert(wire.subrange(7 * n, 7 * n + 7) == field);
    assert(wire[7 * n + i] == field[i]) by {
        assert(wire[7 * n + i] == wire.subrange(7 * n, 7 * n + 7)[i]);
    }
    assert(wire[7 * n + 6] == field[6]) by {
        assert(wire[7 * n + 6] == wire.subrange(7 * n, 7 * n + 7)[6]);
    }
    lemma_ssid_bits(a.ssid, high, last);
    let call = a.call;
    assert forall|j: int| 0 <= j < call.len() implies '\0' <= #[trigger] call[j] <= '\u{7f}' by {
        assert(spec_is_alnum(call[j]));
    }
    vstd::utf8::is_ascii_chars_encode_utf8(call);
    if i < call.len() {
        assert(spec_is_alnum(call[i]));
        let b = encode_utf8(call)[i];
        assert(b == call[i] as u8);
        assert(b < 128 ==> b << 1 == 2 * b) by (bit_vector);
    }
    assert(wire.skip(7 * stations + 2) =~= frame.info);
}

/// What a received frame says. The has-been-repeated flag of the `k`th digipeater is the high bit
/// of the last byte of its field; a call is read from the upper seven bits of its bytes, and what
/// stands behind it in the field is white space.
pub proof fn law_received_frame_is_read_by_its_bits(wire: Seq<u8>, n: int, i: int)
    requires
        spec_decode_frame(wire) is Some,
        0 <= n < 2 + spec_decode_frame(wire)->0.digis.len(),
        0 <= i < 6,
    ensures
        ({
            let frame = spec_decode_frame(wire)->0;
            let station = spec_nth_station(frame, n);
            let stations: int = 2 + frame.digis.len() as int;
            &&& wire.len() >= 7 * stations + 2
            &&& n >= 2 ==> frame.digis[n - 2].1 == (wire[7 * n + 6] & 0x80 != 0)
            &&& (wire[7 * n + 6] & 0x01 != 0) == (n == stations - 1)
            &&& station.ssid == (wire[7 * n + 6] >> 1) & 0x0F
            &&& 1 <= station.call.len() <= 6 && spec_all_alnum(station.call)
            &&& i < station.call.len() ==> station.call[i] == (wire[7 * n + i] >> 1) as char
            &&& station.call.len() <= i ==> spec_is_space((wire[7 * n + i] >> 1) as char)
            &&& wire[7 * stations + 1] == 0xF0
            &&& wire[7 * stations] == 0x03 || wire[7 * stations] == 0x13
            &&& frame.info == wire.skip(7 * stations + 2)
        }),
{
    let frame = spec_decode_frame(wire)->0;
    let all = spec_addresses(wire, 0)->0;
    assert(0x03u8 | 0x10u8 == 0x13u8) by (bit_vector);
    assert(frame.digis =~= all.skip(2));
    lemma_address_read(wire, 0, n);
    let field = wire.subrange(7 * n, 7 * (n + 1));
    let shifted = Seq::new(6, |j: int| (field[j] >> 1) as char);
    assert(spec_nth_station(frame, n) == all[n].0);
    assert(field[i] == wire[7 * n + i] && field[6] == wire[7 * n + 6]);
    assert(shifted[i] == (wire[7 * n + i] >> 1) as char);
    lemma_trim_end_cut(shifted, i);
}

/// Trimming keeps the front and cuts only white space.
proof fn lemma_trim_end_cut(s: Seq<char>, i: int)
    requires
        0 <= i < s.len(),
    ensures
        spec_trim_end(s).len() <= s.len(),
        i < spec_trim_end(s).len() ==> spec_trim_end(s)[i] == s[i],
        spec_trim_end(s).len() <= i ==> spec_is_space(s[i]),
    decreases s.len(),
{
    if spec_is_space(s.last()) && i < s.len() - 1 {
        lemma_trim_end_cut(s.drop_last(), i);
        assert(s.drop_last()[i] == s[i]);
    } else if spec_is_space(s.last()) {
        lemma_trim_end_len(s.drop_last());
    }
}

proof fn lemma_trim_end_len(s: Seq<char>)
    ensures
        spec_trim_end(s).len() <= s.len(),
    decreases s.len(),
{
    if s.len() > 0 && spec_is_space(s.last()) {
        lemma_trim_end_len(s.drop_last());
    }
}

/// The address at `n` among those read from `from` on comes from its own field.
proof fn lemma_address_read(wire: Seq<u8>, from: int, n: int)
    requires
        0 <= from <= n,
        spec_addresses(wire, from) is Some,
        n - from < spec_addresses(wire, from)->0.len(),
    ensures
        ({
            let read = spec_addresses(wire, from)->0;
            let field = wire.subrange(ADDR_LEN * n, ADDR_LEN * (n + 1));
            &&& ADDR_LEN * (from + read.len()) <= wire.len()
            &&& spec_decode_field(field) == Some(read[n - from].0)
            &&& read[n - from].1 == (field[6] & HIGH_BIT != 0)
            &&& (field[6] & EXTENSION_BIT != 0) == (n - from == read.len() - 1)
        }),
    decreases 2 + MAX_DIGIS - from,
{
    let read = spec_addresses(wire, from)->0;
    let here = wire.subrange(ADDR_LEN * from, ADDR_LEN * (from + 1));
    if here[6] & EXTENSION_BIT != 0 {
        assert(read.len() == 1);
    } else {
        let rest = spec_addresses(wire, from + 1)->0;
        lemma_some_addresses(wire, from + 1);
        assert(read =~= seq![read[0]] + rest);
        if n > from {
            lemma_address_read(wire, from + 1, n);
            assert(read[n - from] == rest[n - from - 1]);
        } else {
            lemma_address_read(wire, from + 1, from + 1);
        }
    }
}

proof fn lemma_some_addresses(wire: Seq<u8>, from: int)
    requires
        spec_addresses(wire, from) is Some,
    ensures
        spec_addresses(wire, from)->0.len() >= 1,
{
}

} // verus!
