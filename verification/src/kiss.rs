//! KISS framing between host and TNC, as spoken on Direwolf's KISS TCP port.

use vstd::prelude::*;
use vstd::slice::{slice_subrange, slice_to_vec};

verus! {

pub const FEND: u8 = 0xC0;

pub const FESC: u8 = 0xDB;

pub const TFEND: u8 = 0xDC;

pub const TFESC: u8 = 0xDD;

pub const CMD_DATA: u8 = 0x00;

pub const MAX_FRAME: usize = 2048;

/// A KISS data frame: the radio channel and the AX.25 frame it carries.
pub struct KissFrame {
    pub channel: u8,
    pub payload: Vec<u8>,
}

pub struct KissFrameView {
    pub channel: int,
    pub payload: Seq<u8>,
}

impl View for KissFrame {
    type V = KissFrameView;

    open spec fn view(&self) -> KissFrameView {
        KissFrameView { channel: self.channel as int, payload: self.payload@ }
    }
}

pub open spec fn spec_frames(v: Seq<KissFrame>) -> Seq<KissFrameView> {
    Seq::new(v.len(), |i: int| v[i]@)
}

// ---------------------------------------------------------------------------
// Encoding
// ---------------------------------------------------------------------------

/// A byte as it appears inside a frame.
pub open spec fn spec_escape_byte(b: u8) -> Seq<u8> {
    if b == FEND {
        seq![FESC, TFEND]
    } else if b == FESC {
        seq![FESC, TFESC]
    } else {
        seq![b]
    }
}

pub open spec fn spec_escape(s: Seq<u8>) -> Seq<u8>
    decreases s.len(),
{
    if s.len() == 0 {
        Seq::empty()
    } else {
        spec_escape(s.drop_last()) + spec_escape_byte(s.last())
    }
}

/// The command byte of a data frame: the channel in the high nibble.
pub open spec fn spec_data_command(channel: int) -> u8 {
    ((channel % 16) * 16) as u8
}

/// A frame with its command byte in front, escaped and between delimiters. The command byte is
/// escaped like any other: that of channel 12 has the delimiter's value.
pub open spec fn spec_encode(channel: int, frame: Seq<u8>) -> Seq<u8> {
    seq![FEND] + spec_escape(seq![spec_data_command(channel)] + frame) + seq![FEND]
}

fn push_escaped(out: &mut Vec<u8>, b: u8)
    ensures
        final(out)@ == old(out)@ + spec_escape_byte(b),
{
    if b == FEND {
        out.push(FESC);
        out.push(TFEND);
    } else if b == FESC {
        out.push(FESC);
        out.push(TFESC);
    } else {
        out.push(b);
    }
    assert(out@ =~= old(out)@ + spec_escape_byte(b));
}

/// Wraps an AX.25 frame as a KISS data frame for `channel` (0-15).
pub fn encode(channel: u8, frame: &[u8]) -> (r: Vec<u8>)
    ensures
        r@ == spec_encode(channel as int, frame@),
{
    let mut out: Vec<u8> = Vec::new();
    out.push(FEND);
    let command: u8 = (channel & 0x0F) << 4 | CMD_DATA;
    assert((channel & 0x0F) << 4 | 0 == (channel % 16) * 16) by (bit_vector);
    push_escaped(&mut out, command);
    let ghost plain = seq![command] + frame@;
    proof {
        reveal_with_fuel(spec_escape, 2);
        assert(plain.take(1).drop_last() =~= Seq::<u8>::empty());
        assert(plain.take(1).last() == command);
        assert(out@ =~= seq![FEND] + spec_escape(plain.take(1)));
    }
    for i in 0..frame.len()
        invariant
            plain == seq![command] + frame@,
            out@ == seq![FEND] + spec_escape(plain.take(i + 1)),
    {
        let b: u8 = frame[i];
        proof {
            assert(plain.take(i + 2).drop_last() =~= plain.take(i + 1));
            assert(plain.take(i + 2).last() == b);
        }
        push_escaped(&mut out, b);
        assert(out@ =~= seq![FEND] + spec_escape(plain.take(i + 2)));
    }
    assert(plain.take(plain.len() as int) =~= plain);
    out.push(FEND);
    assert(out@ =~= spec_encode(channel as int, frame@));
    out
}

// ---------------------------------------------------------------------------
// Decoding
// ---------------------------------------------------------------------------

/// Incremental decoder: feed it bytes as they arrive from the TCP stream.
pub struct Decoder {
    buf: Vec<u8>,
    escaped: bool,
    overflow: bool,
}

/// Where the decoder is: the unescaped bytes of the frame under way, whether an escape is open,
/// and whether the frame has grown too long to be kept.
pub struct DecoderView {
    pub buf: Seq<u8>,
    pub escaped: bool,
    pub overflow: bool,
}

impl View for Decoder {
    type V = DecoderView;

    closed spec fn view(&self) -> DecoderView {
        DecoderView { buf: self.buf@, escaped: self.escaped, overflow: self.overflow }
    }
}

/// Between two frames.
pub open spec fn spec_idle() -> DecoderView {
    DecoderView { buf: Seq::empty(), escaped: false, overflow: false }
}

/// The data frame in a completed buffer: commands other than data, and empty frames, carry none.
pub open spec fn spec_take_frame(buf: Seq<u8>) -> Option<KissFrameView> {
    if buf.len() >= 2 && buf[0] % 16 == CMD_DATA {
        Some(KissFrameView { channel: (buf[0] / 16) as int, payload: buf.skip(1) })
    } else {
        None
    }
}

/// The decoder after one more byte.
pub open spec fn spec_step(s: DecoderView, b: u8) -> DecoderView {
    if b == FEND {
        spec_idle()
    } else if s.overflow {
        s
    } else if !s.escaped && b == FESC {
        DecoderView { escaped: true, ..s }
    } else {
        let plain = if s.escaped && b == TFEND {
            FEND
        } else if s.escaped && b == TFESC {
            FESC
        } else {
            b
        };
        let buf = s.buf.push(plain);
        DecoderView { buf, escaped: false, overflow: buf.len() > MAX_FRAME }
    }
}

/// The frame that one more byte completes.
pub open spec fn spec_completes(s: DecoderView, b: u8) -> Option<KissFrameView> {
    if b == FEND && !s.overflow {
        spec_take_frame(s.buf)
    } else {
        None
    }
}

/// The decoder after `bytes`.
pub open spec fn spec_after(s: DecoderView, bytes: Seq<u8>) -> DecoderView
    decreases bytes.len(),
{
    if bytes.len() == 0 {
        s
    } else {
        spec_step(spec_after(s, bytes.drop_last()), bytes.last())
    }
}

/// The frames that `bytes` complete, in order.
pub open spec fn spec_decoded(s: DecoderView, bytes: Seq<u8>) -> Seq<KissFrameView>
    decreases bytes.len(),
{
    if bytes.len() == 0 {
        Seq::empty()
    } else {
        let before = spec_decoded(s, bytes.drop_last());
        match spec_completes(spec_after(s, bytes.drop_last()), bytes.last()) {
            Some(frame) => before.push(frame),
            None => before,
        }
    }
}

impl Default for Decoder {
    fn default() -> (r: Decoder)
        ensures
            r@ == spec_idle(),
    {
        Decoder { buf: Vec::new(), escaped: false, overflow: false }
    }
}

impl Decoder {
    /// Consumes `bytes` and returns every data frame completed by them.
    pub fn push(&mut self, bytes: &[u8]) -> (r: Vec<KissFrame>)
        ensures
            final(self)@ == spec_after(old(self)@, bytes@),
            spec_frames(r@) == spec_decoded(old(self)@, bytes@),
    {
        let mut frames: Vec<KissFrame> = Vec::new();
        assert(spec_frames(frames@) =~= Seq::empty());
        for i in 0..bytes.len()
            invariant
                self@ == spec_after(old(self)@, bytes@.take(i as int)),
                spec_frames(frames@) == spec_decoded(old(self)@, bytes@.take(i as int)),
        {
            let b: u8 = bytes[i];
            proof {
                assert(bytes@.take(i + 1).drop_last() =~= bytes@.take(i as int));
                assert(bytes@.take(i + 1).last() == b);
            }
            if let Some(frame) = self.step(b) {
                let ghost before = frames@;
                frames.push(frame);
                assert(spec_frames(frames@) =~= spec_frames(before).push(frame@));
            }
        }
        assert(bytes@.take(bytes@.len() as int) =~= bytes@);
        frames
    }

    /// Consumes one byte and returns the data frame that it completes.
    fn step(&mut self, b: u8) -> (r: Option<KissFrame>)
        ensures
            final(self)@ == spec_step(old(self)@, b),
            match r {
                Some(frame) => spec_completes(old(self)@, b) == Some(frame@),
                None => spec_completes(old(self)@, b) is None,
            },
    {
        if b == FEND {
            let frame = if self.overflow {
                None
            } else {
                self.take_frame()
            };
            self.buf.clear();
            self.escaped = false;
            self.overflow = false;
            return frame;
        }
        if self.overflow {
            return None;
        }
        if !self.escaped && b == FESC {
            self.escaped = true;
            return None;
        }
        let plain: u8 = if self.escaped && b == TFEND {
            FEND
        } else if self.escaped && b == TFESC {
            FESC
        } else {
            b
        };
        self.escaped = false;
        self.buf.push(plain);
        self.overflow = self.buf.len() > MAX_FRAME;
        None
    }

    fn take_frame(&self) -> (r: Option<KissFrame>)
        ensures
            match r {
                Some(frame) => spec_take_frame(self@.buf) == Some(frame@),
                None => spec_take_frame(self@.buf) is None,
            },
    {
        if self.buf.len() < 2 {
            return None;
        }
        let command: u8 = self.buf[0];
        assert(command & 0x0F == command % 16) by (bit_vector);
        assert(command >> 4 == command / 16) by (bit_vector);
        if command & 0x0F != CMD_DATA {
            return None;
        }
        let payload = slice_to_vec(slice_subrange(self.buf.as_slice(), 1, self.buf.len()));
        assert(payload@ =~= self.buf@.skip(1));
        Some(KissFrame { channel: command >> 4, payload })
    }
}

// ---------------------------------------------------------------------------
// Laws
// ---------------------------------------------------------------------------

/// It does not matter how a stream is cut into reads: feeding two pieces one after the other
/// leaves the decoder where the whole would, and gives the frames that the whole would.
pub proof fn law_reads_can_be_cut_anywhere(s: DecoderView, first: Seq<u8>, second: Seq<u8>)
    ensures
        spec_after(s, first + second) == spec_after(spec_after(s, first), second),
        spec_decoded(s, first + second) == spec_decoded(s, first) + spec_decoded(
            spec_after(s, first),
            second,
        ),
    decreases second.len(),
{
    if second.len() == 0 {
        assert(first + second =~= first);
        assert(spec_decoded(s, first) + Seq::empty() =~= spec_decoded(s, first));
    } else {
        law_reads_can_be_cut_anywhere(s, first, second.drop_last());
        assert((first + second).drop_last() =~= first + second.drop_last());
        assert(spec_decoded(s, first + second) =~= spec_decoded(s, first) + spec_decoded(
            spec_after(s, first),
            second,
        ));
    }
}

/// One escaped byte is put back as it was.
proof fn lemma_unescape_byte(s: DecoderView, b: u8)
    requires
        !s.escaped,
        !s.overflow,
    ensures
        spec_decoded(s, spec_escape_byte(b)) == Seq::<KissFrameView>::empty(),
        spec_after(s, spec_escape_byte(b)) == (DecoderView {
            buf: s.buf.push(b),
            escaped: false,
            overflow: s.buf.len() >= MAX_FRAME,
        }),
{
    reveal_with_fuel(spec_after, 3);
    reveal_with_fuel(spec_decoded, 3);
    let bytes = spec_escape_byte(b);
    if b == FEND || b == FESC {
        assert(bytes.drop_last() =~= seq![FESC]);
        assert(seq![FESC].drop_last() =~= Seq::<u8>::empty());
    } else {
        assert(bytes.drop_last() =~= Seq::<u8>::empty());
    }
}

/// Escaped bytes are put back as they were, as long as the frame fits.
proof fn lemma_unescape(s: DecoderView, payload: Seq<u8>)
    requires
        !s.escaped,
        !s.overflow,
        s.buf.len() + payload.len() <= MAX_FRAME,
    ensures
        spec_decoded(s, spec_escape(payload)) == Seq::<KissFrameView>::empty(),
        spec_after(s, spec_escape(payload)) == (DecoderView {
            buf: s.buf + payload,
            escaped: false,
            overflow: false,
        }),
    decreases payload.len(),
{
    if payload.len() == 0 {
        assert(s.buf + payload =~= s.buf);
    } else {
        let front = payload.drop_last();
        lemma_unescape(s, front);
        let mid = spec_after(s, spec_escape(front));
        law_reads_can_be_cut_anywhere(s, spec_escape(front), spec_escape_byte(payload.last()));
        lemma_unescape_byte(mid, payload.last());
        assert((s.buf + front).push(payload.last()) =~= s.buf + payload);
    }
}

/// A frame that was encoded is decoded again: an idle decoder fed with it gives exactly that
/// frame, on the channel taken modulo the sixteen there are, and is idle again.
pub proof fn law_decoding_undoes_encoding(channel: int, payload: Seq<u8>)
    requires
        0 <= channel,
        0 < payload.len() < MAX_FRAME,
    ensures
        spec_decoded(spec_idle(), spec_encode(channel, payload)) == seq![
            KissFrameView { channel: channel % 16, payload },
        ],
        spec_after(spec_idle(), spec_encode(channel, payload)) == spec_idle(),
{
    reveal_with_fuel(spec_after, 2);
    reveal_with_fuel(spec_decoded, 2);
    let head = seq![FEND];
    let plain = seq![spec_data_command(channel)] + payload;
    assert(head.drop_last() =~= Seq::<u8>::empty());
    assert(spec_decoded(spec_idle(), head) =~= Seq::empty());
    lemma_unescape(spec_idle(), plain);
    law_reads_can_be_cut_anywhere(spec_idle(), head, spec_escape(plain));
    let body = head + spec_escape(plain);
    let filled = spec_after(spec_idle(), body);
    assert(filled.buf =~= plain);
    law_reads_can_be_cut_anywhere(spec_idle(), body, head);
    assert(filled.buf.skip(1) =~= payload);
    assert(spec_decoded(spec_idle(), body) =~= Seq::empty());
    assert(spec_decoded(filled, head) =~= seq![
        KissFrameView { channel: channel % 16, payload },
    ]);
}

/// How a data frame looks on the wire: between delimiters 0xC0 stand the channel times sixteen and
/// the frame, in which 0xC0 is written 0xDB 0xDC and 0xDB is written 0xDB 0xDD, and every other byte
/// as it is.
pub proof fn law_frame_on_the_wire(channel: int, payload: Seq<u8>, b: u8)
    requires
        0 <= channel <= 15,
    ensures
        channel != 12 ==> spec_encode(channel, seq![]) == seq![0xC0u8, (channel * 16) as u8, 0xC0],
        channel == 12 ==> spec_encode(channel, seq![]) == seq![0xC0u8, 0xDB, 0xDC, 0xC0],
        spec_encode(channel, payload).len() >= 3,
        spec_encode(channel, payload.push(b)) == spec_encode(channel, payload).drop_last() + (if b
            == 0xC0 {
            seq![0xDBu8, 0xDC]
        } else if b == 0xDB {
            seq![0xDBu8, 0xDD]
        } else {
            seq![b]
        }) + seq![0xC0u8],
{
    let command = spec_data_command(channel);
    let plain = seq![command] + payload;
    let none = Seq::<u8>::empty();
    reveal_with_fuel(spec_escape, 2);
    assert(seq![command] + none =~= seq![command]);
    assert(seq![command].drop_last() =~= none);
    assert(none + spec_escape_byte(command) =~= spec_escape_byte(command));
    if channel != 12 {
        assert(command == channel * 16 && command != FEND && command != FESC);
        assert(spec_encode(channel, seq![]) =~= seq![0xC0u8, (channel * 16) as u8, 0xC0]);
    } else {
        assert(spec_encode(channel, seq![]) =~= seq![0xC0u8, 0xDB, 0xDC, 0xC0]);
    }
    let longer = seq![command] + payload.push(b);
    assert(longer.drop_last() =~= plain);
    assert(longer.last() == b);
    assert(spec_escape(longer) == spec_escape(plain) + spec_escape_byte(b));
    assert(spec_encode(channel, payload).drop_last() =~= seq![FEND] + spec_escape(plain));
    assert(spec_encode(channel, payload.push(b)) =~= spec_encode(channel, payload).drop_last()
        + spec_escape_byte(b) + seq![0xC0u8]);
    assert(plain.len() >= 1);
    lemma_escape_grows(plain);
}

proof fn lemma_escape_grows(s: Seq<u8>)
    ensures
        spec_escape(s).len() >= s.len(),
    decreases s.len(),
{
    if s.len() > 0 {
        lemma_escape_grows(s.drop_last());
    }
}

/// What does not carry data is passed over: frames with another command than data, empty frames,
/// and frames longer than the limit.
pub proof fn law_other_frames_are_passed_over(command: u8, payload: Seq<u8>)
    requires
        command % 16 != 0 || payload.len() == 0 || payload.len() >= 2048,
        command != 0xC0 && command != 0xDB,
        forall|i: int| 0 <= i < payload.len() ==> #[trigger] payload[i] != 0xC0 && payload[i] != 0xDB,
    ensures
        ({
            let wire = seq![0xC0u8, command] + payload + seq![0xC0u8];
            &&& spec_decoded(spec_idle(), wire) == Seq::<KissFrameView>::empty()
            &&& spec_after(spec_idle(), wire) == spec_idle()
        }),
{
    let head = seq![0xC0u8];
    let plain = seq![command] + payload;
    let wire = seq![0xC0u8, command] + payload + seq![0xC0u8];
    reveal_with_fuel(spec_after, 2);
    reveal_with_fuel(spec_decoded, 2);
    assert(head.drop_last() =~= Seq::<u8>::empty());
    assert forall|i: int| 0 <= i < plain.len() implies #[trigger] plain[i] != 0xC0 && plain[i]
        != 0xDB by {
        if i > 0 {
            assert(plain[i] == payload[i - 1]);
        }
    }
    lemma_plain_bytes(plain);
    assert(wire =~= head + plain + head);
    law_reads_can_be_cut_anywhere(spec_idle(), head, plain);
    law_reads_can_be_cut_anywhere(spec_idle(), head + plain, head);
    assert(spec_decoded(spec_idle(), head) =~= Seq::empty());
    assert(spec_decoded(spec_idle(), head + plain) =~= Seq::empty());
    let filled = spec_after(spec_idle(), head + plain);
    assert(spec_decoded(filled, head) =~= Seq::empty());
}

proof fn lemma_plain_bytes(s: Seq<u8>)
    requires
        forall|i: int| 0 <= i < s.len() ==> #[trigger] s[i] != 0xC0 && s[i] != 0xDB,
    ensures
        spec_decoded(spec_idle(), s) == Seq::<KissFrameView>::empty(),
        !spec_after(spec_idle(), s).escaped,
        spec_after(spec_idle(), s).overflow == (s.len() > MAX_FRAME),
        s.len() <= MAX_FRAME ==> spec_after(spec_idle(), s).buf == s,
    decreases s.len(),
{
    if s.len() > 0 {
        let front = s.drop_last();
        assert forall|i: int| 0 <= i < front.len() implies #[trigger] front[i] != 0xC0 && front[i]
            != 0xDB by {
            assert(front[i] == s[i]);
        }
        lemma_plain_bytes(front);
        assert(s[s.len() - 1] != 0xC0);
        assert(front.push(s.last()) =~= s);
    } else {
        assert(spec_after(spec_idle(), s).buf =~= s);
    }
}

} // verus!
