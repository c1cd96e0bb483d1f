//! APRS messages, including the reply-ack extension.

use vstd::prelude::*;
use vstd::slice::{slice_subrange, slice_to_vec};
use vstd::utf8::{encode_utf8, valid_utf8};

use crate::decode::{lemma_trim_line_end, spec_is_line_end, spec_trim_line_end, trim_line_end};
use crate::encoding::{
    bytes_of, debug_char, debug_text, lemma_encode_concat, lemma_text_of_encoded, spec_debug_char,
    spec_debug_text, spec_text_of, text_of,
};
use crate::numeral::{decimal, push_pad_right, spec_decimal, spec_pad_right};
use crate::split::{
    before, find_byte, lemma_find_from, lemma_find_from_is, lemma_find_from_none,
    lemma_rfind_below, rfind, spec_before, spec_find, spec_rfind, spec_split_once, split_once,
};
use crate::text::{
    all_alnum, chars_of, is_control, is_graphic, lemma_trim_end_padding, spec_all_alnum,
    spec_is_alnum, spec_is_control, spec_is_graphic, spec_strip_newlines, spec_trim, spec_trim_end,
    starts_with, string_of, trim, trim_end,
};

verus! {

pub const MAX_TEXT: usize = 67;

pub const ADDRESSEE_LEN: usize = 9;

pub const MAX_ID_LEN: usize = 5;

pub const MAX_THIRD_PARTY_DEPTH: usize = 3;

#[allow(inconsistent_fields)]
#[derive(Debug, PartialEq, Eq)]
pub enum Message {
    Text {
        to: String,
        text: String,
        id: Option<String>,
        /// Reply-ack: acknowledges one of our messages inside a new message.
        reply_ack: Option<String>,
    },
    Ack { to: String, id: String },
    Rej { to: String, id: String },
}

#[allow(inconsistent_fields)]
pub enum MessageView {
    Text { to: Seq<char>, text: Seq<char>, id: Option<Seq<char>>, reply_ack: Option<Seq<char>> },
    Ack { to: Seq<char>, id: Seq<char> },
    Rej { to: Seq<char>, id: Seq<char> },
}

/// The text of an optional string.
pub open spec fn spec_opt(s: Option<String>) -> Option<Seq<char>> {
    match s {
        Some(s) => Some(s@),
        None => None,
    }
}

impl View for Message {
    type V = MessageView;

    open spec fn view(&self) -> MessageView {
        match *self {
            Message::Text { to, text, id, reply_ack } => MessageView::Text {
                to: to@,
                text: text@,
                id: spec_opt(id),
                reply_ack: spec_opt(reply_ack),
            },
            Message::Ack { to, id } => MessageView::Ack { to: to@, id: id@ },
            Message::Rej { to, id } => MessageView::Rej { to: to@, id: id@ },
        }
    }
}

/// A copy of an optional string.
pub(crate) fn clone_opt(s: &Option<String>) -> (r: Option<String>)
    ensures
        r == *s,
{
    match s {
        Some(s) => Some(s.clone()),
        None => None,
    }
}

impl Clone for Message {
    fn clone(&self) -> (r: Message)
        ensures
            r == *self,
    {
        match self {
            Message::Text { to, text, id, reply_ack } => Message::Text {
                to: to.clone(),
                text: text.clone(),
                id: clone_opt(id),
                reply_ack: clone_opt(reply_ack),
            },
            Message::Ack { to, id } => Message::Ack { to: to.clone(), id: id.clone() },
            Message::Rej { to, id } => Message::Rej { to: to.clone(), id: id.clone() },
        }
    }
}

// ---------------------------------------------------------------------------
// Building
// ---------------------------------------------------------------------------

/// 1-5 letters or digits.
pub open spec fn spec_is_message_id(id: Seq<char>) -> bool {
    1 <= id.len() <= MAX_ID_LEN && spec_all_alnum(id)
}

/// 1-9 visible ASCII characters other than the colon.
pub open spec fn spec_is_addressee(to: Seq<char>) -> bool {
    &&& 1 <= to.len() <= ADDRESSEE_LEN
    &&& forall|i: int| 0 <= i < to.len() ==> spec_is_graphic(#[trigger] to[i]) && to[i] != ':'
}

/// Characters with a meaning of their own in the information field.
pub open spec fn spec_is_reserved(c: char) -> bool {
    c == '|' || c == '~' || c == '{' || spec_is_control(c)
}

/// The first reserved character at or after `from`.
pub open spec fn spec_reserved_from(text: Seq<char>, from: int) -> Option<char>
    decreases text.len() - from,
{
    if from < 0 || from >= text.len() {
        None
    } else if spec_is_reserved(text[from]) {
        Some(text[from])
    } else {
        spec_reserved_from(text, from + 1)
    }
}

pub open spec fn spec_addressee_error(to: Seq<char>) -> Seq<char> {
    "invalid addressee "@ + spec_debug_text(to) + " (1-"@ + spec_decimal(ADDRESSEE_LEN as nat)
        + " characters)"@
}

pub open spec fn spec_id_error(id: Seq<char>) -> Seq<char> {
    "invalid message id "@ + spec_debug_text(id)
}

/// `:ADDRESSEE:` with the addressee padded to nine characters.
pub open spec fn spec_message_head(to: Seq<char>) -> Seq<char> {
    ":"@ + spec_pad_right(to, ADDRESSEE_LEN as int) + ":"@
}

/// The information field `:ADDRESSEE:text{id` as text.
pub open spec fn spec_message_text(to: Seq<char>, text: Seq<char>, id: Seq<char>) -> Seq<char> {
    spec_message_head(to) + text + "{"@ + id
}

/// The information field `:ADDRESSEE:ackID` as text.
pub open spec fn spec_ack_text(to: Seq<char>, id: Seq<char>) -> Seq<char> {
    spec_message_head(to) + "ack"@ + id
}

/// The message's information field, or the first of the reasons against it.
pub open spec fn spec_format_message(to: Seq<char>, text: Seq<char>, id: Seq<char>) -> Result<
    Seq<u8>,
    Seq<char>,
> {
    if !spec_is_addressee(to) {
        Err(spec_addressee_error(to))
    } else if text.len() == 0 {
        Err("empty message"@)
    } else if encode_utf8(text).len() > MAX_TEXT {
        Err(
            "message is "@ + spec_decimal(encode_utf8(text).len()) + " bytes; APRS allows at most "@
                + spec_decimal(MAX_TEXT as nat),
        )
    } else if spec_reserved_from(text, 0) is Some {
        Err(
            "character "@ + spec_debug_char(spec_reserved_from(text, 0)->0)
                + " is not allowed in APRS messages"@,
        )
    } else if !spec_is_message_id(id) {
        Err(spec_id_error(id))
    } else {
        Ok(encode_utf8(spec_message_text(to, text, id)))
    }
}

/// The ack's information field, or the first of the reasons against it.
pub open spec fn spec_format_ack(to: Seq<char>, id: Seq<char>) -> Result<Seq<u8>, Seq<char>> {
    if !spec_is_addressee(to) {
        Err(spec_addressee_error(to))
    } else if !spec_is_message_id(id) {
        Err(spec_id_error(id))
    } else {
        Ok(encode_utf8(spec_ack_text(to, id)))
    }
}

pub fn is_message_id(id: &[char]) -> (r: bool)
    ensures
        r == spec_is_message_id(id@),
{
    1 <= id.len() && id.len() <= MAX_ID_LEN && all_alnum(id)
}

fn is_addressee(to: &[char]) -> (r: bool)
    ensures
        r == spec_is_addressee(to@),
{
    if to.len() < 1 || to.len() > ADDRESSEE_LEN {
        return false;
    }
    for i in 0..to.len()
        invariant
            forall|j: int| 0 <= j < i ==> spec_is_graphic(#[trigger] to@[j]) && to@[j] != ':',
    {
        if !is_graphic(to[i]) || to[i] == ':' {
            return false;
        }
    }
    true
}

fn validate_addressee(to: &str) -> (r: Result<(), String>)
    ensures
        match r {
            Ok(_) => spec_is_addressee(to@),
            Err(e) => !spec_is_addressee(to@) && e@ == spec_addressee_error(to@),
        },
{
    if is_addressee(chars_of(to).as_slice()) {
        Ok(())
    } else {
        let mut e = String::from_str("invalid addressee ");
        e.append(debug_text(to).as_str());
        e.append(" (1-");
        e.append(decimal(ADDRESSEE_LEN as u128).as_str());
        e.append(" characters)");
        Err(e)
    }
}

fn validate_id(id: &str) -> (r: Result<(), String>)
    ensures
        match r {
            Ok(_) => spec_is_message_id(id@),
            Err(e) => !spec_is_message_id(id@) && e@ == spec_id_error(id@),
        },
{
    if is_message_id(chars_of(id).as_slice()) {
        Ok(())
    } else {
        let mut e = String::from_str("invalid message id ");
        e.append(debug_text(id).as_str());
        Err(e)
    }
}

fn find_reserved(text: &[char]) -> (r: Option<char>)
    ensures
        r == spec_reserved_from(text@, 0),
{
    for i in 0..text.len()
        invariant
            spec_reserved_from(text@, 0) == spec_reserved_from(text@, i as int),
    {
        let c: char = text[i];
        if c == '|' || c == '~' || c == '{' || is_control(c) {
            return Some(c);
        }
    }
    None
}

fn message_head(to: &str) -> (r: String)
    ensures
        r@ == spec_message_head(to@),
{
    let mut out = String::from_str(":");
    push_pad_right(&mut out, to, ADDRESSEE_LEN);
    out.append(":");
    out
}

/// Builds the information field `:ADDRESSEE:text{id`.
pub fn format_message(to: &str, text: &str, id: &str) -> (r: Result<Vec<u8>, String>)
    ensures
        match r {
            Ok(info) => spec_format_message(to@, text@, id@) == Ok::<Seq<u8>, Seq<char>>(info@),
            Err(e) => spec_format_message(to@, text@, id@) == Err::<Seq<u8>, Seq<char>>(e@),
        },
{
    if let Err(e) = validate_addressee(to) {
        return Err(e);
    }
    let chars = chars_of(text);
    if chars.len() == 0 {
        return Err(String::from_str("empty message"));
    }
    let size: usize = text.as_bytes().len();
    if size > MAX_TEXT {
        let mut e = String::from_str("message is ");
        e.append(decimal(size as u128).as_str());
        e.append(" bytes; APRS allows at most ");
        e.append(decimal(MAX_TEXT as u128).as_str());
        return Err(e);
    }
    if let Some(c) = find_reserved(chars.as_slice()) {
        let mut e = String::from_str("character ");
        e.append(debug_char(c).as_str());
        e.append(" is not allowed in APRS messages");
        return Err(e);
    }
    if let Err(e) = validate_id(id) {
        return Err(e);
    }
    let mut out = message_head(to);
    out.append(text);
    out.append("{");
    out.append(id);
    Ok(bytes_of(out.as_str()))
}

/// Builds the information field `:ADDRESSEE:ackID`.
pub fn format_ack(to: &str, id: &str) -> (r: Result<Vec<u8>, String>)
    ensures
        match r {
            Ok(info) => spec_format_ack(to@, id@) == Ok::<Seq<u8>, Seq<char>>(info@),
            Err(e) => spec_format_ack(to@, id@) == Err::<Seq<u8>, Seq<char>>(e@),
        },
{
    if let Err(e) = validate_addressee(to) {
        return Err(e);
    }
    if let Err(e) = validate_id(id) {
        return Err(e);
    }
    let mut out = message_head(to);
    out.append("ack");
    out.append(id);
    Ok(bytes_of(out.as_str()))
}

// ---------------------------------------------------------------------------
// Parsing
// ---------------------------------------------------------------------------

/// The id behind `ack` or `rej`: up to a closing brace, without white space behind it.
pub open spec fn spec_ack_id(rest: Seq<char>) -> Option<Seq<char>> {
    let id = spec_trim_end(spec_before(rest, '}'));
    if spec_is_message_id(id) {
        Some(id)
    } else {
        None
    }
}

/// The id of a body that is `word` and an id.
pub open spec fn spec_receipt_id(body: Seq<char>, word: Seq<char>) -> Option<Seq<char>> {
    if word.is_prefix_of(body) {
        spec_ack_id(body.skip(word.len() as int))
    } else {
        None
    }
}

/// `text{MM}AA` as text, message id MM and reply-ack AA. Without a valid id it is all text.
pub open spec fn spec_split_message_id(body: Seq<char>) -> (
    Seq<char>,
    Option<Seq<char>>,
    Option<Seq<char>>,
) {
    match spec_rfind(body, '{') {
        Some(brace) => {
            let tail = body.skip(brace + 1);
            let (id, reply_ack) = match spec_split_once(tail, '}') {
                Some((id, reply_ack)) => (id, Some(reply_ack)),
                None => (tail, None),
            };
            if spec_is_message_id(id) {
                (
                    body.take(brace),
                    Some(id),
                    match reply_ack {
                        Some(ack) => if spec_is_message_id(ack) {
                            Some(ack)
                        } else {
                            None
                        },
                        None => None,
                    },
                )
            } else {
                (body, None, None)
            }
        },
        None => (body, None, None),
    }
}

/// The message in a body addressed to `to`.
pub open spec fn spec_parse_body(to: Seq<char>, body: Seq<char>) -> MessageView {
    if spec_receipt_id(body, "ack"@) is Some {
        MessageView::Ack { to, id: spec_receipt_id(body, "ack"@)->0 }
    } else if spec_receipt_id(body, "rej"@) is Some {
        MessageView::Rej { to, id: spec_receipt_id(body, "rej"@)->0 }
    } else {
        let (text, id, reply_ack) = spec_split_message_id(body);
        MessageView::Text { to, text, id, reply_ack }
    }
}

/// The message, ack or rej in an information field `:ADDRESSEE:body`. A line end behind the body
/// does not belong to it.
pub open spec fn spec_parse_message(info: Seq<u8>) -> Option<MessageView> {
    if info.len() < ADDRESSEE_LEN + 2 || info[0] != ':' as u8 || info[ADDRESSEE_LEN + 1]
        != ':' as u8 {
        None
    } else {
        Some(
            spec_parse_body(
                spec_trim(spec_text_of(info.subrange(1, ADDRESSEE_LEN + 1))),
                spec_text_of(spec_trim_line_end(info.skip(ADDRESSEE_LEN + 2))),
            ),
        )
    }
}

fn parse_ack_id(rest: &[char]) -> (r: Option<String>)
    ensures
        spec_opt(r) == spec_ack_id(rest@),
{
    let id = trim_end(before(rest, '}'));
    if is_message_id(id) {
        Some(string_of(id))
    } else {
        None
    }
}

fn receipt_id(body: &[char], word: &str) -> (r: Option<String>)
    ensures
        spec_opt(r) == spec_receipt_id(body@, word@),
{
    if starts_with(body, word) {
        let rest = slice_subrange(body, word.unicode_len(), body.len());
        assert(rest@ =~= body@.skip(word@.len() as int));
        parse_ack_id(rest)
    } else {
        None
    }
}

/// Splits `text{MM}AA` into text, message id MM and reply-ack AA.
fn split_message_id(body: &[char]) -> (r: (String, Option<String>, Option<String>))
    ensures
        (r.0@, spec_opt(r.1), spec_opt(r.2)) == spec_split_message_id(body@),
{
    let brace: usize = match rfind(body, '{') {
        Some(brace) => brace,
        None => return (string_of(body), None, None),
    };
    let n: usize = body.len();
    let tail = slice_subrange(body, brace + 1, n);
    assert(tail@ =~= body@.skip(brace + 1));
    let (id, reply_ack): (&[char], Option<&[char]>) = match split_once(tail, '}') {
        Some((id, reply_ack)) => (id, Some(reply_ack)),
        None => (tail, None),
    };
    if !is_message_id(id) {
        return (string_of(body), None, None);
    }
    let reply_ack: Option<String> = match reply_ack {
        Some(ack) => if is_message_id(ack) {
            Some(string_of(ack))
        } else {
            None
        },
        None => None,
    };
    let text = slice_subrange(body, 0, brace);
    assert(text@ =~= body@.take(brace as int));
    (string_of(text), Some(string_of(id)), reply_ack)
}

/// Reads the body of a message that is addressed to `to`.
pub fn parse_body(to: String, body: &[char]) -> (r: Message)
    ensures
        r@ == spec_parse_body(to@, body@),
{
    if let Some(id) = receipt_id(body, "ack") {
        return Message::Ack { to, id };
    }
    if let Some(id) = receipt_id(body, "rej") {
        return Message::Rej { to, id };
    }
    let (text, id, reply_ack) = split_message_id(body);
    Message::Text { to, text, id, reply_ack }
}

/// Parses an information field as an APRS message, ack or rej. A line end is cut off before the
/// body is decoded; being ASCII, it would come through decoding as it is.
pub fn parse_message(info: &[u8]) -> (r: Option<Message>)
    ensures
        match r {
            Some(m) => spec_parse_message(info@) == Some(m@),
            None => spec_parse_message(info@) is None,
        },
{
    if info.len() < ADDRESSEE_LEN + 2 || info[0] != ':' as u8 || info[ADDRESSEE_LEN + 1] != ':' as u8 {
        return None;
    }
    let addressee = text_of(slice_subrange(info, 1, ADDRESSEE_LEN + 1));
    let to = string_of(trim(addressee.as_slice()));
    let raw = slice_subrange(info, ADDRESSEE_LEN + 2, info.len());
    assert(raw@ =~= info@.skip(ADDRESSEE_LEN + 2));
    let body = text_of(trim_line_end(raw));
    Some(parse_body(to, body.as_slice()))
}

// ---------------------------------------------------------------------------
// Third-party packets
// ---------------------------------------------------------------------------

/// The source and the information field inside a packet `}SRC>DEST,PATH:info`.
pub open spec fn spec_peel(info: Seq<u8>) -> Option<(Seq<char>, Seq<u8>)> {
    if info.len() > 0 && info[0] == '}' as u8 {
        let inner = info.skip(1);
        match spec_find(inner, ':' as u8) {
            Some(colon) => match spec_split_once(spec_text_of(inner.take(colon)), '>') {
                Some((src, _)) => Some((spec_trim(src), inner.skip(colon + 1))),
                None => None,
            },
            None => None,
        }
    } else {
        None
    }
}

/// A packet with up to `depth` third-party wrappers taken off.
pub open spec fn spec_unwrap(source: Seq<char>, info: Seq<u8>, depth: int) -> (Seq<char>, Seq<u8>)
    decreases depth,
{
    if depth <= 0 {
        (source, info)
    } else {
        match spec_peel(info) {
            Some((src, rest)) => spec_unwrap(src, rest, depth - 1),
            None => (source, info),
        }
    }
}

fn peel(info: &[u8]) -> (r: Option<(String, Vec<u8>)>)
    ensures
        match r {
            Some((src, rest)) => spec_peel(info@) == Some((src@, rest@)),
            None => spec_peel(info@) is None,
        },
{
    if info.len() == 0 || info[0] != '}' as u8 {
        return None;
    }
    let inner = slice_subrange(info, 1, info.len());
    assert(inner@ =~= info@.skip(1));
    let colon: usize = match find_byte(inner, ':' as u8) {
        Some(colon) => colon,
        None => return None,
    };
    let n: usize = inner.len();
    let head = slice_subrange(inner, 0, colon);
    assert(head@ =~= inner@.take(colon as int));
    let header = text_of(head);
    match split_once(header.as_slice(), '>') {
        Some((src, _)) => {
            let rest = slice_to_vec(slice_subrange(inner, colon + 1, n));
            assert(rest@ =~= inner@.skip(colon + 1));
            Some((string_of(trim(src)), rest))
        },
        None => None,
    }
}

/// Unwraps third-party packets (`}SRC>DEST,PATH:info`), which is how iGates
/// relay messages from the internet to RF. Returns the originating source and
/// the inner information field.
pub fn unwrap_third_party(source: &str, info: &[u8]) -> (r: (String, Vec<u8>))
    ensures
        (r.0@, r.1@) == spec_unwrap(source@, info@, MAX_THIRD_PARTY_DEPTH as int),
{
    let mut inner_source: String = String::from_str(source);
    let mut inner: Vec<u8> = slice_to_vec(info);
    let mut left: usize = MAX_THIRD_PARTY_DEPTH;
    while left > 0
        invariant
            spec_unwrap(inner_source@, inner@, left as int) == spec_unwrap(
                source@,
                info@,
                MAX_THIRD_PARTY_DEPTH as int,
            ),
        decreases left,
    {
        match peel(inner.as_slice()) {
            Some((src, rest)) => {
                inner_source = src;
                inner = rest;
            },
            None => return (inner_source, inner),
        }
        left -= 1;
    }
    (inner_source, inner)
}

// ---------------------------------------------------------------------------
// Laws
// ---------------------------------------------------------------------------

/// An information field made of a head for a valid addressee and a body is split there again. The
/// body does not end in a line end, which would not belong to it.
pub proof fn lemma_parse_built(to: Seq<char>, body: Seq<char>)
    requires
        spec_is_addressee(to),
        body.len() > 0,
        body.last() != '\r' && body.last() != '\n',
    ensures
        spec_parse_message(encode_utf8(spec_message_head(to) + body)) == Some(
            spec_parse_body(to, body),
        ),
{
    reveal_strlit(":");
    let pad = spec_pad_right(to, ADDRESSEE_LEN as int);
    let head = spec_message_head(to);
    let info = encode_utf8(head + body);
    lemma_encode_concat(head, body);
    assert forall|i: int| 0 <= i < head.len() implies '\0' <= #[trigger] head[i] <= '\u{7f}' by {
        if 1 <= i <= to.len() {
            assert(spec_is_graphic(to[i - 1]));
        }
    }
    assert(pad.len() == 9);
    assert(head.len() == 11);
    vstd::utf8::is_ascii_chars_encode_utf8(head);
    assert(head[0] == ':' && head[10] == ':');
    assert(info[0] == ':' as u8);
    assert(info[10] == ':' as u8);
    assert forall|i: int| 0 <= i < pad.len() implies '\0' <= #[trigger] pad[i] <= '\u{7f}' by {
        assert(pad[i] == head[i + 1]);
    }
    vstd::utf8::is_ascii_chars_encode_utf8(pad);
    assert(info.subrange(1, 10) =~= encode_utf8(pad)) by {
        assert forall|i: int| 0 <= i < 9 implies info[i + 1] == #[trigger] encode_utf8(pad)[i] by {
            assert(pad[i] == head[i + 1]);
        }
    }
    assert(info.skip(11) =~= encode_utf8(body));
    assert(spec_trim_line_end(encode_utf8(body)) == encode_utf8(body)) by {
        let c = body.last();
        assert(body =~= body.drop_last() + seq![c]);
        lemma_encode_concat(body.drop_last(), seq![c]);
        lemma_encoded_char(c);
        assert(encode_utf8(body).last() == encode_utf8(seq![c]).last());
    }
    lemma_text_of_encoded(pad);
    lemma_text_of_encoded(body);
    assert(spec_is_graphic(to[0]));
    assert(spec_is_graphic(to.last()));
    assert(pad[0] == to[0]);
    assert(pad.take(to.len() as int) =~= to);
    lemma_trim_end_padding(to, pad);
    assert(spec_trim(pad) == to);
}

/// A message or ack that was built is no third-party packet.
pub proof fn lemma_built_is_plain(source: Seq<char>, to: Seq<char>, body: Seq<char>, depth: int)
    requires
        spec_is_addressee(to),
    ensures
        spec_unwrap(source, encode_utf8(spec_message_head(to) + body), depth) == (
            source,
            encode_utf8(spec_message_head(to) + body),
        ),
{
    reveal_strlit(":");
    let all = spec_message_head(to) + body;
    assert(all =~= ":"@ + all.skip(1));
    lemma_encode_concat(":"@, all.skip(1));
    vstd::utf8::is_ascii_chars_encode_utf8(":"@);
    assert(encode_utf8(all)[0] == ':' as u8);
}

/// An ack that was built is read again as that ack.
pub proof fn law_parsing_undoes_ack(to: Seq<char>, id: Seq<char>)
    requires
        spec_is_addressee(to),
        spec_is_message_id(id),
    ensures
        spec_format_ack(to, id) matches Ok(info) && spec_parse_message(info) == Some(
            MessageView::Ack { to, id },
        ),
{
    reveal_strlit("ack");
    let body = "ack"@ + id;
    assert(spec_ack_text(to, id) =~= spec_message_head(to) + body);
    assert(spec_is_alnum(id.last()));
    assert(body.last() == id.last());
    lemma_parse_built(to, body);
    assert("ack"@.is_prefix_of(body));
    assert(body.skip(3) =~= id);
    assert forall|i: int| 0 <= i < id.len() implies id[i] != '}' by {
        assert(spec_is_alnum(id[i]));
    }
    lemma_find_from_none(id, '}', 0);
    assert(spec_trim_end(id) == id);
}

/// A text that itself reads as an ack or a rej: `ack` or `rej`, an id and a closing brace.
pub open spec fn spec_reads_as_receipt(text: Seq<char>) -> bool {
    &&& "ack"@.is_prefix_of(text) || "rej"@.is_prefix_of(text)
    &&& text.skip(3).contains('}')
    &&& spec_ack_id(text.skip(3)) is Some
}

proof fn lemma_not_a_receipt(text: Seq<char>, id: Seq<char>, word: Seq<char>)
    requires
        word == "ack"@ || word == "rej"@,
        spec_is_message_id(id),
        !spec_reads_as_receipt(text),
    ensures
        spec_receipt_id(text + "{"@ + id, word) is None,
{
    reveal_strlit("ack");
    reveal_strlit("rej");
    reveal_strlit("{");
    let body = text + "{"@ + id;
    assert(spec_is_alnum(id.last()));
    if word.is_prefix_of(body) {
        assert(body[0] == word[0] && body[1] == word[1] && body[2] == word[2]);
        if text.len() < 3 {
            assert(body[text.len() as int] == '{');
            assert(false);
        }
        assert(word.is_prefix_of(text)) by {
            assert(text.subrange(0, 3) =~= body.subrange(0, 3));
        }
        let rest = body.skip(3);
        let own = text.skip(3);
        assert forall|i: int| 0 <= i < rest.len() implies rest[i] == (if i < own.len() {
            own[i]
        } else if i == own.len() {
            '{'
        } else {
            id[i - own.len() - 1]
        }) by {}
        lemma_find_from(own, '}', 0);
        if own.contains('}') {
            let k = own.index_of('}');
            let at = spec_find(own, '}')->0;
            lemma_find_from_is(rest, '}', 0, at);
            assert(rest.take(at) =~= own.take(at));
        } else {
            assert forall|i: int| 0 <= i < rest.len() implies rest[i] != '}' by {
                if i > own.len() {
                    assert(spec_is_alnum(id[i - own.len() - 1]));
                }
            }
            lemma_find_from_none(rest, '}', 0);
            assert(rest.last() == id.last());
            assert(spec_trim_end(rest) == rest);
            assert(!spec_is_alnum(rest[own.len() as int]));
        }
    }
}

/// A message that was built is read again as that message, with its addressee, its text and its
/// id. The exception is a text that itself reads as an ack or a rej.
pub proof fn law_parsing_undoes_message(to: Seq<char>, text: Seq<char>, id: Seq<char>)
    requires
        spec_format_message(to, text, id) is Ok,
        !spec_reads_as_receipt(text),
    ensures
        spec_parse_message(spec_format_message(to, text, id)->Ok_0) == Some(
            MessageView::Text { to, text, id: Some(id), reply_ack: None },
        ),
{
    reveal_strlit("{");
    let body = text + "{"@ + id;
    assert(spec_message_text(to, text, id) =~= spec_message_head(to) + body);
    assert(spec_is_alnum(id.last()));
    assert(body.last() == id.last());
    lemma_parse_built(to, body);
    lemma_not_a_receipt(text, id, "ack"@);
    lemma_not_a_receipt(text, id, "rej"@);
    let brace = text.len() as int;
    assert(body[brace] == '{');
    assert forall|i: int| brace < i < body.len() implies body[i] != '{' by {
        assert(spec_is_alnum(id[i - brace - 1]));
    }
    lemma_rfind_below(body, '{', body.len() as int);
    assert(body.skip(brace + 1) =~= id);
    assert forall|i: int| 0 <= i < id.len() implies id[i] != '}' by {
        assert(spec_is_alnum(id[i]));
    }
    lemma_find_from_none(id, '}', 0);
    assert(body.take(brace) =~= text);
}

/// A third-party wrapper comes off whole: what stood behind its header is the inner information
/// field, and the source is the header's text before `>`.
pub proof fn law_peeling_undoes_wrapping(header: Seq<u8>, info: Seq<u8>)
    requires
        !header.contains(':' as u8),
    ensures
        spec_peel(seq!['}' as u8] + header + seq![':' as u8] + info) == match spec_split_once(
            spec_text_of(header),
            '>',
        ) {
            Some((src, _)) => Some((spec_trim(src), info)),
            None => None,
        },
{
    let wrapped = seq!['}' as u8] + header + seq![':' as u8] + info;
    let inner = wrapped.skip(1);
    let colon = header.len() as int;
    assert(inner[colon] == ':' as u8);
    assert forall|i: int| 0 <= i < colon implies inner[i] != ':' as u8 by {
        assert(inner[i] == header[i]);
        assert(header.contains(header[i]));
    }
    lemma_find_from_is(inner, ':' as u8, 0, colon);
    assert(inner.take(colon) =~= header);
    assert(inner.skip(colon + 1) =~= info);
}

/// Carriage returns and line feeds behind an information field change nothing of the message, ack
/// or rej that is read from it.
pub proof fn law_line_ends_do_not_change_messages(info: Seq<u8>, line_end: Seq<u8>)
    requires
        spec_is_line_end(line_end),
    ensures
        spec_parse_message(info + line_end) == spec_parse_message(info),
{
    let whole = info + line_end;
    let start = ADDRESSEE_LEN + 2;
    if info.len() < start {
        if whole.len() >= start {
            assert(whole[start - 1] == line_end[start - 1 - info.len()]);
        }
    } else {
        assert(whole.subrange(1, start - 1) =~= info.subrange(1, start - 1));
        assert(whole.skip(start) =~= info.skip(start) + line_end);
        lemma_trim_line_end(info.skip(start), line_end);
    }
}

/// A line end is the same before and after decoding: of a body that is valid UTF-8, the text that
/// is read is the body's text without the carriage returns and line feeds at its end.
pub proof fn law_line_ends_are_ends_of_the_text(body: Seq<u8>)
    requires
        valid_utf8(body),
    ensures
        spec_text_of(spec_trim_line_end(body)) == spec_strip_newlines(spec_text_of(body)),
{
    vstd::utf8::decode_utf8_encode_utf8(body);
    lemma_trim_encoded(spec_text_of(body));
    lemma_text_of_encoded(spec_strip_newlines(spec_text_of(body)));
}

proof fn lemma_trim_encoded(s: Seq<char>)
    ensures
        spec_trim_line_end(encode_utf8(s)) == encode_utf8(spec_strip_newlines(s)),
    decreases s.len(),
{
    if s.len() > 0 {
        let c = s.last();
        let front = s.drop_last();
        assert(s =~= front + seq![c]);
        lemma_encode_concat(front, seq![c]);
        lemma_encoded_char(c);
        assert(encode_utf8(s).last() == encode_utf8(seq![c]).last());
        if c == '\r' || c == '\n' {
            assert(encode_utf8(s).drop_last() =~= encode_utf8(front));
            lemma_trim_encoded(front);
        }
    }
}

/// A carriage return or line feed is encoded as one byte, and the encoding of no other character
/// ends in that byte.
proof fn lemma_encoded_char(c: char)
    ensures
        encode_utf8(seq![c]).len() > 0,
        c == '\r' || c == '\n' ==> encode_utf8(seq![c]).len() == 1,
        c == '\r' || c == '\n' <==> encode_utf8(seq![c]).last() == 0x0d || encode_utf8(
            seq![c],
        ).last() == 0x0a,
{
    if c as u32 <= 0x7f {
        vstd::utf8::is_ascii_chars_encode_utf8(seq![c]);
        assert(encode_utf8(seq![c]) =~= seq![c as u8]);
    } else {
        reveal_with_fuel(encode_utf8, 2);
        assert(seq![c].drop_first() =~= Seq::<char>::empty());
        assert(encode_utf8(seq![c]) =~= vstd::utf8::encode_scalar(c as u32));
        assert(forall|v: u32| 0x80u8 | ((v & 0x3F) as u8) >= 0x80) by (bit_vector);
    }
}

/// A rej is read as one: `rej` and the id of the message that it rejects.
pub proof fn law_parsing_reads_rej(to: Seq<char>, id: Seq<char>)
    requires
        spec_is_addressee(to),
        spec_is_message_id(id),
    ensures
        spec_parse_message(encode_utf8(spec_message_head(to) + ("rej"@ + id))) == Some(
            MessageView::Rej { to, id },
        ),
{
    reveal_strlit("rej");
    reveal_strlit("ack");
    let body = "rej"@ + id;
    assert(spec_is_alnum(id.last()));
    assert(body.last() == id.last());
    lemma_parse_built(to, body);
    assert(body[0] == 'r');
    assert(!"ack"@.is_prefix_of(body)) by {
        if "ack"@.is_prefix_of(body) {
            assert(body.subrange(0, 3)[0] == 'a');
        }
    }
    assert("rej"@.is_prefix_of(body)) by {
        assert(body.subrange(0, 3) =~= "rej"@);
    }
    assert(body.skip(3) =~= id);
    assert forall|i: int| 0 <= i < id.len() implies id[i] != '}' by {
        assert(spec_is_alnum(id[i]));
    }
    lemma_find_from_none(id, '}', 0);
    assert(spec_trim_end(id) == id);
}

/// Neither an ack nor a rej is what does not begin with one of these words.
pub open spec fn spec_is_no_receipt(body: Seq<char>) -> bool {
    body.len() < 3 || (body.take(3) != "ack"@ && body.take(3) != "rej"@)
}

/// A text without a brace is read as it is: it has no id, and nothing is acknowledged in it.
pub proof fn law_parsing_reads_plain_text(to: Seq<char>, text: Seq<char>)
    requires
        spec_is_addressee(to),
        text.len() > 0,
        text.last() != '\r' && text.last() != '\n',
        !text.contains('{'),
        spec_is_no_receipt(text),
    ensures
        spec_parse_message(encode_utf8(spec_message_head(to) + text)) == Some(
            MessageView::Text { to, text, id: None, reply_ack: None },
        ),
{
    reveal_strlit("rej");
    reveal_strlit("ack");
    lemma_parse_built(to, text);
    lemma_no_receipt(text);
    lemma_rfind_below(text, '{', text.len() as int);
    if let Some(i) = spec_rfind(text, '{') {
        assert(text[i] == '{');
    }
}

proof fn lemma_no_receipt(body: Seq<char>)
    requires
        spec_is_no_receipt(body),
    ensures
        spec_receipt_id(body, "ack"@) is None,
        spec_receipt_id(body, "rej"@) is None,
{
    reveal_strlit("rej");
    reveal_strlit("ack");
    if "ack"@.is_prefix_of(body) {
        assert(body.take(3) =~= "ack"@);
    }
    if "rej"@.is_prefix_of(body) {
        assert(body.take(3) =~= "rej"@);
    }
}

/// `text{MM}AA` is a text with the id MM that acknowledges our message AA in passing.
pub proof fn law_parsing_reads_reply_ack(
    to: Seq<char>,
    text: Seq<char>,
    id: Seq<char>,
    acked: Seq<char>,
)
    requires
        spec_is_addressee(to),
        spec_is_message_id(id),
        spec_is_message_id(acked),
        spec_is_no_receipt(text + "{"@ + id),
    ensures
        spec_parse_message(
            encode_utf8(spec_message_head(to) + (text + "{"@ + id + "}"@ + acked)),
        ) == Some(MessageView::Text { to, text, id: Some(id), reply_ack: Some(acked) }),
{
    reveal_strlit("{");
    reveal_strlit("}");
    reveal_strlit("rej");
    reveal_strlit("ack");
    let body = text + "{"@ + id + "}"@ + acked;
    let front = text + "{"@ + id;
    assert(spec_is_alnum(acked.last()));
    assert(body.last() == acked.last());
    lemma_parse_built(to, body);
    assert(spec_is_no_receipt(body)) by {
        if front.len() >= 3 {
            assert(body.take(3) =~= front.take(3));
        } else {
            let brace = text.len() as int;
            assert(brace < 3);
            assert(body.take(3)[brace] == '{');
        }
    }
    lemma_no_receipt(body);
    let brace = text.len() as int;
    assert(body[brace] == '{');
    assert forall|i: int| brace < i < body.len() implies body[i] != '{' by {
        if i <= brace + id.len() {
            assert(body[i] == id[i - brace - 1]);
            assert(spec_is_alnum(id[i - brace - 1]));
        } else if i > brace + id.len() + 1 {
            assert(body[i] == acked[i - brace - id.len() - 2]);
            assert(spec_is_alnum(acked[i - brace - id.len() - 2]));
        }
    }
    lemma_rfind_below(body, '{', body.len() as int);
    let tail = body.skip(brace + 1);
    assert(tail =~= id + "}"@ + acked);
    assert forall|i: int| 0 <= i < id.len() implies tail[i] != '}' by {
        assert(spec_is_alnum(id[i]));
    }
    lemma_find_from_is(tail, '}', 0, id.len() as int);
    assert(tail.take(id.len() as int) =~= id);
    assert(tail.skip(id.len() as int + 1) =~= acked);
    assert(body.take(brace) =~= text);
}

/// A packet as an iGate relays it: inside one wrapper `}SRC>DEST,PATH:` for each of `headers`, the
/// outermost first.
pub open spec fn spec_relayed(headers: Seq<Seq<u8>>, info: Seq<u8>) -> Seq<u8>
    decreases headers.len(),
{
    if headers.len() == 0 {
        info
    } else {
        seq!['}' as u8] + headers[0] + seq![':' as u8] + spec_relayed(headers.skip(1), info)
    }
}

/// The packet that `source` transmitted inside these wrappers is from `origin`: the station in front
/// of `>` in the innermost wrapper, or the transmitter itself where there is no wrapper.
pub open spec fn spec_is_from(source: Seq<char>, headers: Seq<Seq<u8>>, origin: Seq<char>) -> bool {
    &&& headers.len() == 0 ==> origin == source
    &&& forall|i: int|
        0 <= i < headers.len() ==> !(#[trigger] headers[i]).contains(':' as u8) && spec_text_of(
            headers[i],
        ).contains('>')
    &&& headers.len() > 0 ==> {
        &&& !origin.contains('>')
        &&& spec_trim(origin) == origin
        &&& (origin + ">"@).is_prefix_of(spec_text_of(headers.last()))
    }
}

/// Up to three wrappers come off, and what is left is the packet inside and the station that it is
/// from, whoever transmitted it.
pub proof fn law_relayed_packets_are_from_their_origin(
    source: Seq<char>,
    headers: Seq<Seq<u8>>,
    origin: Seq<char>,
    info: Seq<u8>,
)
    requires
        headers.len() <= 3,
        spec_is_from(source, headers, origin),
        info.len() > 0 && info[0] != '}' as u8,
    ensures
        spec_unwrap(source, spec_relayed(headers, info), MAX_THIRD_PARTY_DEPTH as int) == (
            origin,
            info,
        ),
{
    lemma_unwrap_relayed(source, headers, origin, info, MAX_THIRD_PARTY_DEPTH as int);
}

proof fn lemma_unwrap_relayed(
    source: Seq<char>,
    headers: Seq<Seq<u8>>,
    origin: Seq<char>,
    info: Seq<u8>,
    depth: int,
)
    requires
        headers.len() <= depth,
        spec_is_from(source, headers, origin),
        info.len() > 0 && info[0] != '}' as u8,
    ensures
        spec_unwrap(source, spec_relayed(headers, info), depth) == (origin, info),
    decreases headers.len(),
{
    if headers.len() > 0 {
        let text = spec_text_of(headers[0]);
        let rest = headers.skip(1);
        law_peeling_undoes_wrapping(headers[0], spec_relayed(rest, info));
        lemma_find_from(text, '>', 0);
        let (src, _) = spec_split_once(text, '>')->0;
        if headers.len() == 1 {
            reveal_strlit(">");
            assert(headers.last() == headers[0]);
            let at = origin.len() as int;
            assert(text.subrange(0, at + 1) == origin + ">"@);
            assert(text[at] == (origin + ">"@)[at]);
            assert forall|i: int| 0 <= i < at implies text[i] != '>' by {
                assert(text[i] == text.subrange(0, at + 1)[i]);
                assert(origin.contains(origin[i]));
            }
            lemma_find_from_is(text, '>', 0, at);
            assert(text.take(at) =~= origin);
            assert(spec_trim(src) == origin);
        } else {
            assert(rest.last() == headers.last());
        }
        assert forall|i: int| 0 <= i < rest.len() implies !(#[trigger] rest[i]).contains(':' as u8)
            && spec_text_of(rest[i]).contains('>') by {
            assert(rest[i] == headers[i + 1]);
        }
        lemma_unwrap_relayed(spec_trim(src), rest, origin, info, depth - 1);
    }
}

/// How a message looks on the wire: a colon, the addressee filled up with spaces to nine bytes, a
/// colon, the text, a brace and the id; an ack has `ack` and the id behind the second colon.
pub proof fn law_messages_on_the_wire(to: Seq<char>, text: Seq<char>, id: Seq<char>, i: int)
    requires
        spec_is_addressee(to),
        0 <= i < 9,
    ensures
        ({
            let tail = |info: Seq<u8>, body: Seq<u8>|
                info.len() == 11 + body.len() && info[0] == 58 && info[10] == 58 && info[1 + i]
                    == (if i < to.len() {
                    to[i] as int
                } else {
                    32
                }) && info.skip(11) == body;
            &&& spec_format_message(to, text, id) matches Ok(info) ==> tail(
                info,
                encode_utf8(text + "{"@ + id),
            )
            &&& spec_format_ack(to, id) matches Ok(info) ==> tail(info, encode_utf8("ack"@ + id))
        }),
{
    lemma_head_bytes(to, text + "{"@ + id, i);
    lemma_head_bytes(to, "ack"@ + id, i);
    assert(spec_message_text(to, text, id) =~= spec_message_head(to) + (text + "{"@ + id));
    assert(spec_ack_text(to, id) =~= spec_message_head(to) + ("ack"@ + id));
}

proof fn lemma_head_bytes(to: Seq<char>, body: Seq<char>, i: int)
    requires
        spec_is_addressee(to),
        0 <= i < 9,
    ensures
        ({
            let info = encode_utf8(spec_message_head(to) + body);
            &&& info.len() == 11 + encode_utf8(body).len()
            &&& info[0] == 58 && info[10] == 58
            &&& info[1 + i] == (if i < to.len() {
                to[i] as int
            } else {
                32
            })
            &&& info.skip(11) == encode_utf8(body)
        }),
{
    reveal_strlit(":");
    let head = spec_message_head(to);
    let pad = spec_pad_right(to, ADDRESSEE_LEN as int);
    assert(pad.len() == 9 && head.len() == 11);
    assert forall|j: int| 0 <= j < head.len() implies '\0' <= #[trigger] head[j] <= '\u{7f}' by {
        if 1 <= j <= to.len() {
            assert(head[j] == to[j - 1]);
            assert(spec_is_graphic(to[j - 1]));
        }
    }
    vstd::utf8::is_ascii_chars_encode_utf8(head);
    lemma_encode_concat(head, body);
    let info = encode_utf8(head + body);
    assert(info.skip(11) =~= encode_utf8(body));
    assert(head[0] == ':' && head[10] == ':' && head[1 + i] == pad[i]);
    assert(info[1 + i] == head[1 + i] as u8);
    if i < to.len() {
        assert(pad[i] == to[i]);
        assert(spec_is_graphic(to[i]));
    }
}

/// Which messages can be sent: those with an addressee of one to nine visible characters, a text of
/// one to 67 bytes without bars, tildes, opening braces and control characters, and an id of one to
/// five letters or digits. The first thing that is wrong is told.
pub proof fn law_messages_that_can_be_sent(to: Seq<char>, text: Seq<char>, id: Seq<char>)
    ensures
        spec_format_message(to, text, id) is Ok <==> {
            &&& 1 <= to.len() <= 9
            &&& forall|i: int| 0 <= i < to.len() ==> '!' <= #[trigger] to[i] <= '~' && to[i] != ':'
            &&& 0 < text.len() && encode_utf8(text).len() <= 67
            &&& forall|i: int|
                0 <= i < text.len() ==> #[trigger] text[i] != '|' && text[i] != '~' && text[i]
                    != '{' && !spec_is_control(text[i])
            &&& 1 <= id.len() <= 5
            &&& forall|i: int|
                0 <= i < id.len() ==> '0' <= #[trigger] id[i] <= '9' || 'A' <= id[i] <= 'Z' || 'a'
                    <= id[i] <= 'z'
        },
        spec_is_addressee(to) && text.len() == 0 ==> spec_format_message(to, text, id) == Err::<
            Seq<u8>,
            Seq<char>,
        >("empty message"@),
        spec_is_addressee(to) && encode_utf8(text).len() > 67 && text.len() > 0
            ==> spec_format_message(to, text, id) == Err::<Seq<u8>, Seq<char>>(
            "message is "@ + spec_decimal(encode_utf8(text).len())
                + " bytes; APRS allows at most "@ + spec_decimal(67),
        ),
{
    lemma_reserved(text, 0);
    if spec_is_addressee(to) {
        assert forall|i: int| 0 <= i < to.len() implies '!' <= #[trigger] to[i] <= '~' && to[i]
            != ':' by {
            assert(spec_is_graphic(to[i]));
        }
    } else if 1 <= to.len() <= 9 {
        let i = choose|i: int|
            0 <= i < to.len() && !(spec_is_graphic(#[trigger] to[i]) && to[i] != ':');
        assert(!('!' <= to[i] <= '~' && to[i] != ':'));
    }
    if spec_is_message_id(id) {
        assert forall|i: int| 0 <= i < id.len() implies '0' <= #[trigger] id[i] <= '9' || 'A'
            <= id[i] <= 'Z' || 'a' <= id[i] <= 'z' by {
            assert(spec_is_alnum(id[i]));
        }
    } else if 1 <= id.len() <= 5 {
        let i = choose|i: int| 0 <= i < id.len() && !spec_is_alnum(#[trigger] id[i]);
        assert(!('0' <= id[i] <= '9' || 'A' <= id[i] <= 'Z' || 'a' <= id[i] <= 'z'));
    }
}

proof fn lemma_reserved(text: Seq<char>, from: int)
    requires
        0 <= from,
    ensures
        spec_reserved_from(text, from) is None <==> forall|i: int|
            from <= i < text.len() ==> #[trigger] text[i] != '|' && text[i] != '~' && text[i] != '{'
                && !spec_is_control(text[i]),
    decreases text.len() - from,
{
    if from < text.len() {
        lemma_reserved(text, from + 1);
        if spec_is_reserved(text[from]) {
            assert(!(text[from] != '|' && text[from] != '~' && text[from] != '{'
                && !spec_is_control(text[from])));
        }
    }
}

} // verus!
