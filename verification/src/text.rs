//! Characters and strings: the small vocabulary the parsers and formatters are written in.
//!
//! Text is handled as slices of characters. Each function has a specification function of the
//! same name with the prefix `spec_`, over `Seq<char>`.

use vstd::prelude::*;
use vstd::slice::slice_subrange;

verus! {

// ---------------------------------------------------------------------------
// What is taken from the standard library on trust
// ---------------------------------------------------------------------------

/// `String::push` appends one character.
pub assume_specification[ String::push ](s: &mut String, c: char)
    ensures
        final(s)@ == old(s)@.push(c),
;

// ---------------------------------------------------------------------------
// Character classes
// ---------------------------------------------------------------------------

/// The code points of general category Cc.
pub open spec fn spec_is_control(c: char) -> bool {
    c as u32 <= 0x1f || 0x7f <= c as u32 <= 0x9f
}

/// The code points with the Unicode property White_Space.
pub open spec fn spec_is_space(c: char) -> bool {
    let u = c as u32;
    ||| 0x09 <= u <= 0x0d
    ||| u == 0x20
    ||| u == 0x85
    ||| u == 0xa0
    ||| u == 0x1680
    ||| 0x2000 <= u <= 0x200a
    ||| u == 0x2028
    ||| u == 0x2029
    ||| u == 0x202f
    ||| u == 0x205f
    ||| u == 0x3000
}

pub open spec fn spec_is_digit(c: char) -> bool {
    '0' <= c <= '9'
}

/// ASCII letters and digits.
pub open spec fn spec_is_alnum(c: char) -> bool {
    spec_is_digit(c) || 'A' <= c <= 'Z' || 'a' <= c <= 'z'
}

/// Visible ASCII: everything from `!` to `~`.
pub open spec fn spec_is_graphic(c: char) -> bool {
    '!' <= c <= '~'
}

pub open spec fn spec_all_alnum(s: Seq<char>) -> bool {
    forall|i: int| 0 <= i < s.len() ==> spec_is_alnum(#[trigger] s[i])
}

pub open spec fn spec_all_digits(s: Seq<char>) -> bool {
    forall|i: int| 0 <= i < s.len() ==> spec_is_digit(#[trigger] s[i])
}

pub fn is_control(c: char) -> (r: bool)
    ensures
        r == spec_is_control(c),
{
    c as u32 <= 0x1f || (0x7f <= c as u32 && c as u32 <= 0x9f)
}

pub fn is_space(c: char) -> (r: bool)
    ensures
        r == spec_is_space(c),
{
    let u: u32 = c as u32;
    (0x09 <= u && u <= 0x0d) || u == 0x20 || u == 0x85 || u == 0xa0 || u == 0x1680 || (0x2000 <= u
        && u <= 0x200a) || u == 0x2028 || u == 0x2029 || u == 0x202f || u == 0x205f || u == 0x3000
}

pub fn is_digit(c: char) -> (r: bool)
    ensures
        r == spec_is_digit(c),
{
    '0' <= c && c <= '9'
}

pub fn is_alnum(c: char) -> (r: bool)
    ensures
        r == spec_is_alnum(c),
{
    is_digit(c) || ('A' <= c && c <= 'Z') || ('a' <= c && c <= 'z')
}

pub fn is_graphic(c: char) -> (r: bool)
    ensures
        r == spec_is_graphic(c),
{
    '!' <= c && c <= '~'
}

pub fn all_alnum(s: &[char]) -> (r: bool)
    ensures
        r == spec_all_alnum(s@),
{
    for i in 0..s.len()
        invariant
            forall|j: int| 0 <= j < i ==> spec_is_alnum(#[trigger] s@[j]),
    {
        if !is_alnum(s[i]) {
            return false;
        }
    }
    true
}

pub fn all_digits(s: &[char]) -> (r: bool)
    ensures
        r == spec_all_digits(s@),
{
    for i in 0..s.len()
        invariant
            forall|j: int| 0 <= j < i ==> spec_is_digit(#[trigger] s@[j]),
    {
        if !is_digit(s[i]) {
            return false;
        }
    }
    true
}

// ---------------------------------------------------------------------------
// Letter case
// ---------------------------------------------------------------------------

pub open spec fn spec_upper(c: char) -> char {
    if 'a' <= c <= 'z' {
        (c as u8 - 32) as char
    } else {
        c
    }
}

pub open spec fn spec_lower(c: char) -> char {
    if 'A' <= c <= 'Z' {
        (c as u8 + 32) as char
    } else {
        c
    }
}

/// ASCII letters made upper case, everything else kept.
pub open spec fn spec_to_upper(s: Seq<char>) -> Seq<char> {
    Seq::new(s.len(), |i: int| spec_upper(s[i]))
}

/// ASCII letters made lower case, everything else kept.
pub open spec fn spec_to_lower(s: Seq<char>) -> Seq<char> {
    Seq::new(s.len(), |i: int| spec_lower(s[i]))
}

/// Equal up to the case of ASCII letters.
pub open spec fn spec_same_ignoring_case(a: Seq<char>, b: Seq<char>) -> bool {
    spec_to_upper(a) == spec_to_upper(b)
}

pub fn upper(c: char) -> (r: char)
    ensures
        r == spec_upper(c),
{
    if 'a' <= c && c <= 'z' {
        (c as u8 - 32) as char
    } else {
        c
    }
}

pub fn lower(c: char) -> (r: char)
    ensures
        r == spec_lower(c),
{
    if 'A' <= c && c <= 'Z' {
        (c as u8 + 32) as char
    } else {
        c
    }
}

pub fn to_upper(s: &[char]) -> (r: Vec<char>)
    ensures
        r@ == spec_to_upper(s@),
{
    let mut out: Vec<char> = Vec::new();
    for i in 0..s.len()
        invariant
            out@.len() == i,
            forall|j: int| 0 <= j < i ==> out@[j] == spec_upper(s@[j]),
    {
        out.push(upper(s[i]));
    }
    assert(out@ =~= spec_to_upper(s@));
    out
}

pub fn to_lower(s: &[char]) -> (r: Vec<char>)
    ensures
        r@ == spec_to_lower(s@),
{
    let mut out: Vec<char> = Vec::new();
    for i in 0..s.len()
        invariant
            out@.len() == i,
            forall|j: int| 0 <= j < i ==> out@[j] == spec_lower(s@[j]),
    {
        out.push(lower(s[i]));
    }
    assert(out@ =~= spec_to_lower(s@));
    out
}

pub fn same_ignoring_case(a: &[char], b: &[char]) -> (r: bool)
    ensures
        r == spec_same_ignoring_case(a@, b@),
{
    if a.len() != b.len() {
        assert(spec_to_upper(a@).len() != spec_to_upper(b@).len());
        return false;
    }
    for i in 0..a.len()
        invariant
            a@.len() == b@.len(),
            forall|j: int| 0 <= j < i ==> spec_upper(a@[j]) == spec_upper(b@[j]),
    {
        if upper(a[i]) != upper(b[i]) {
            assert(spec_to_upper(a@)[i as int] != spec_to_upper(b@)[i as int]);
            return false;
        }
    }
    assert(spec_to_upper(a@) =~= spec_to_upper(b@));
    true
}

// ---------------------------------------------------------------------------
// Conversions
// ---------------------------------------------------------------------------

/// The texts of a sequence of character vectors.
pub open spec fn spec_pieces(v: Seq<Vec<char>>) -> Seq<Seq<char>> {
    Seq::new(v.len(), |i: int| v[i]@)
}

/// The texts of a sequence of strings.
pub open spec fn spec_texts(v: Seq<String>) -> Seq<Seq<char>> {
    Seq::new(v.len(), |i: int| v[i]@)
}

pub fn chars_of(s: &str) -> (r: Vec<char>)
    ensures
        r@ == s@,
{
    let mut out: Vec<char> = Vec::new();
    for c in it: s.chars()
        invariant
            out@ == s@.take(it.index() as int),
            it.seq() == s@,
    {
        out.push(c);
        assert(s@.take(it.index() + 1) =~= s@.take(it.index() as int).push(c));
    }
    assert(s@.take(s@.len() as int) =~= s@);
    out
}

pub fn string_of(s: &[char]) -> (r: String)
    ensures
        r@ == s@,
{
    let mut out = String::new();
    for i in 0..s.len()
        invariant
            out@ == s@.take(i as int),
    {
        out.push(s[i]);
        assert(s@.take(i + 1) =~= s@.take(i as int).push(s@[i as int]));
    }
    assert(s@.take(s@.len() as int) =~= s@);
    out
}

pub fn same_chars(a: &[char], b: &[char]) -> (r: bool)
    ensures
        r == (a@ == b@),
{
    if a.len() != b.len() {
        return false;
    }
    for i in 0..a.len()
        invariant
            a@.len() == b@.len(),
            forall|j: int| 0 <= j < i ==> a@[j] == b@[j],
    {
        if a[i] != b[i] {
            return false;
        }
    }
    assert(a@ =~= b@);
    true
}

/// True when the characters are exactly those of `text`.
pub fn is_text(s: &[char], text: &str) -> (r: bool)
    ensures
        r == (s@ == text@),
{
    same_chars(s, chars_of(text).as_slice())
}

pub fn same_text(a: &str, b: &str) -> (r: bool)
    ensures
        r == (a@ == b@),
{
    is_text(chars_of(a).as_slice(), b)
}

pub fn starts_with(s: &[char], prefix: &str) -> (r: bool)
    ensures
        r == prefix@.is_prefix_of(s@),
{
    let p = chars_of(prefix);
    if p.len() > s.len() {
        return false;
    }
    let r = same_chars(slice_subrange(s, 0, p.len()), p.as_slice());
    r
}

// ---------------------------------------------------------------------------
// Order
// ---------------------------------------------------------------------------

/// Alphabetical order by code point.
pub open spec fn spec_text_lt(a: Seq<char>, b: Seq<char>) -> bool
    decreases a.len(),
{
    if b.len() == 0 {
        false
    } else if a.len() == 0 {
        true
    } else {
        a[0] < b[0] || (a[0] == b[0] && spec_text_lt(a.skip(1), b.skip(1)))
    }
}

pub fn text_lt(a: &str, b: &str) -> (r: bool)
    ensures
        r == spec_text_lt(a@, b@),
{
    let x = chars_of(a);
    let y = chars_of(b);
    let mut i: usize = 0;
    assert(x@.skip(0) =~= x@);
    assert(y@.skip(0) =~= y@);
    while i < x.len() && i < y.len()
        invariant
            x@ == a@,
            y@ == b@,
            i <= x@.len(),
            i <= y@.len(),
            spec_text_lt(x@, y@) == spec_text_lt(x@.skip(i as int), y@.skip(i as int)),
        decreases x@.len() - i,
    {
        if x[i] < y[i] {
            return true;
        }
        if x[i] > y[i] {
            return false;
        }
        assert(x@.skip(i as int).skip(1) =~= x@.skip(i + 1));
        assert(y@.skip(i as int).skip(1) =~= y@.skip(i + 1));
        i += 1;
    }
    i < y.len()
}

/// No text comes before itself, and two different texts come one before the other.
pub proof fn lemma_text_lt_total(a: Seq<char>, b: Seq<char>)
    ensures
        !spec_text_lt(a, a),
        a != b ==> spec_text_lt(a, b) || spec_text_lt(b, a),
    decreases a.len(),
{
    if a.len() > 0 {
        lemma_text_lt_total(a.skip(1), b.skip(1));
        if b.len() > 0 && a[0] == b[0] && a.skip(1) == b.skip(1) {
            assert(a =~= seq![a[0]] + a.skip(1));
            assert(b =~= seq![b[0]] + b.skip(1));
        }
    } else if b.len() == 0 {
        assert(a =~= b);
    }
}

pub proof fn lemma_text_lt_transitive(a: Seq<char>, b: Seq<char>, c: Seq<char>)
    requires
        spec_text_lt(a, b),
        spec_text_lt(b, c),
    ensures
        spec_text_lt(a, c),
    decreases a.len(),
{
    if a.len() > 0 && a[0] == b[0] && b[0] == c[0] {
        lemma_text_lt_transitive(a.skip(1), b.skip(1), c.skip(1));
    }
}

// ---------------------------------------------------------------------------
// Trimming
// ---------------------------------------------------------------------------

pub open spec fn spec_trim_start(s: Seq<char>) -> Seq<char>
    decreases s.len(),
{
    if s.len() > 0 && spec_is_space(s[0]) {
        spec_trim_start(s.skip(1))
    } else {
        s
    }
}

pub open spec fn spec_trim_end(s: Seq<char>) -> Seq<char>
    decreases s.len(),
{
    if s.len() > 0 && spec_is_space(s.last()) {
        spec_trim_end(s.drop_last())
    } else {
        s
    }
}

/// White space removed at both ends.
pub open spec fn spec_trim(s: Seq<char>) -> Seq<char> {
    spec_trim_end(spec_trim_start(s))
}

/// Every leading `c` removed.
pub open spec fn spec_strip_leading(s: Seq<char>, c: char) -> Seq<char>
    decreases s.len(),
{
    if s.len() > 0 && s[0] == c {
        spec_strip_leading(s.skip(1), c)
    } else {
        s
    }
}

/// Every trailing `c` removed.
pub open spec fn spec_strip_trailing(s: Seq<char>, c: char) -> Seq<char>
    decreases s.len(),
{
    if s.len() > 0 && s.last() == c {
        spec_strip_trailing(s.drop_last(), c)
    } else {
        s
    }
}

/// Every trailing carriage return and line feed removed.
pub open spec fn spec_strip_newlines(s: Seq<char>) -> Seq<char>
    decreases s.len(),
{
    if s.len() > 0 && (s.last() == '\r' || s.last() == '\n') {
        spec_strip_newlines(s.drop_last())
    } else {
        s
    }
}

pub fn trim_start(s: &[char]) -> (r: &[char])
    ensures
        r@ == spec_trim_start(s@),
{
    let mut i: usize = 0;
    assert(s@.skip(0) =~= s@);
    while i < s.len() && is_space(s[i])
        invariant
            i <= s@.len(),
            spec_trim_start(s@) == spec_trim_start(s@.skip(i as int)),
        decreases s@.len() - i,
    {
        assert(s@.skip(i as int).skip(1) =~= s@.skip(i + 1));
        i += 1;
    }
    let r = slice_subrange(s, i, s.len());
    assert(r@ =~= s@.skip(i as int));
    r
}

pub fn trim_end(s: &[char]) -> (r: &[char])
    ensures
        r@ == spec_trim_end(s@),
{
    let mut i: usize = s.len();
    assert(s@.take(i as int) =~= s@);
    while i > 0 && is_space(s[i - 1])
        invariant
            i <= s@.len(),
            spec_trim_end(s@) == spec_trim_end(s@.take(i as int)),
        decreases i,
    {
        assert(s@.take(i as int).drop_last() =~= s@.take(i - 1));
        i -= 1;
    }
    slice_subrange(s, 0, i)
}

pub fn trim(s: &[char]) -> (r: &[char])
    ensures
        r@ == spec_trim(s@),
{
    trim_end(trim_start(s))
}

pub fn strip_leading(s: &[char], c: char) -> (r: &[char])
    ensures
        r@ == spec_strip_leading(s@, c),
{
    let mut i: usize = 0;
    assert(s@.skip(0) =~= s@);
    while i < s.len() && s[i] == c
        invariant
            i <= s@.len(),
            spec_strip_leading(s@, c) == spec_strip_leading(s@.skip(i as int), c),
        decreases s@.len() - i,
    {
        assert(s@.skip(i as int).skip(1) =~= s@.skip(i + 1));
        i += 1;
    }
    let r = slice_subrange(s, i, s.len());
    assert(r@ =~= s@.skip(i as int));
    r
}

pub fn strip_trailing(s: &[char], c: char) -> (r: &[char])
    ensures
        r@ == spec_strip_trailing(s@, c),
{
    let mut i: usize = s.len();
    assert(s@.take(i as int) =~= s@);
    while i > 0 && s[i - 1] == c
        invariant
            i <= s@.len(),
            spec_strip_trailing(s@, c) == spec_strip_trailing(s@.take(i as int), c),
        decreases i,
    {
        assert(s@.take(i as int).drop_last() =~= s@.take(i - 1));
        i -= 1;
    }
    slice_subrange(s, 0, i)
}

/// Trimmed text neither starts nor ends with white space.
pub proof fn lemma_trim_ends(text: Seq<char>)
    ensures
        spec_trim(text).len() > 0 ==> !spec_is_space(spec_trim(text)[0]) && !spec_is_space(
            spec_trim(text).last(),
        ),
{
    lemma_trim_start_first(text);
    lemma_trim_end_last(spec_trim_start(text));
}

proof fn lemma_trim_start_first(s: Seq<char>)
    ensures
        spec_trim_start(s).len() > 0 ==> !spec_is_space(spec_trim_start(s)[0]),
    decreases s.len(),
{
    if s.len() > 0 && spec_is_space(s[0]) {
        lemma_trim_start_first(s.skip(1));
    }
}

proof fn lemma_trim_end_last(s: Seq<char>)
    ensures
        spec_trim_end(s).len() > 0 ==> !spec_is_space(spec_trim_end(s).last()),
        spec_trim_end(s).len() > 0 ==> spec_trim_end(s)[0] == s[0],
    decreases s.len(),
{
    if s.len() > 0 && spec_is_space(s.last()) {
        lemma_trim_end_last(s.drop_last());
    }
}

/// Spaces behind a text do not survive trimming.
pub proof fn lemma_trim_end_padding(s: Seq<char>, padded: Seq<char>)
    requires
        s.len() <= padded.len(),
        padded.take(s.len() as int) == s,
        forall|i: int| s.len() <= i < padded.len() ==> padded[i] == ' ',
    ensures
        spec_trim_end(padded) == spec_trim_end(s),
    decreases padded.len(),
{
    if padded.len() > s.len() {
        assert(padded.last() == ' ');
        assert(padded.drop_last().take(s.len() as int) =~= s);
        lemma_trim_end_padding(s, padded.drop_last());
    } else {
        assert(padded =~= s);
    }
}

/// Letters change case by their places in the alphabet, and nothing else changes.
pub proof fn law_case_of_letters(i: int, c: char)
    requires
        0 <= i < 26,
        !('a' <= c <= 'z'),
    ensures
        spec_upper((97 + i) as u8 as char) == (65 + i) as u8 as char,
        spec_lower((65 + i) as u8 as char) == (97 + i) as u8 as char,
        spec_upper(c) == c,
        !('A' <= c <= 'Z') ==> spec_lower(c) == c,
{
}

/// Alphabetical order: a text comes before another where they first differ in a smaller character,
/// or where it is only the beginning of the other.
pub proof fn law_alphabetical_order(front: Seq<char>, a: char, b: char, x: Seq<char>, y: Seq<char>)
    ensures
        a < b ==> spec_text_lt(front + seq![a] + x, front + seq![b] + y),
        a > b ==> !spec_text_lt(front + seq![a] + x, front + seq![b] + y),
        spec_text_lt(front, front + seq![b] + y),
        !spec_text_lt(front + seq![a] + x, front),
        !spec_text_lt(front, front),
    decreases front.len(),
{
    let s = front + seq![a] + x;
    let t = front + seq![b] + y;
    if front.len() > 0 {
        let rest = front.skip(1);
        assert(s.skip(1) =~= rest + seq![a] + x);
        assert(t.skip(1) =~= rest + seq![b] + y);
        assert(s[0] == front[0] && t[0] == front[0]);
        law_alphabetical_order(rest, a, b, x, y);
    } else {
        assert(s[0] == a && t[0] == b);
    }
}

/// Trimming takes white space off both ends and nothing else.
pub proof fn law_trimming_takes_white_space_only(front: Seq<char>, text: Seq<char>, back: Seq<char>)
    requires
        forall|i: int| 0 <= i < front.len() ==> spec_is_space(#[trigger] front[i]),
        forall|i: int| 0 <= i < back.len() ==> spec_is_space(#[trigger] back[i]),
        text.len() > 0 ==> !spec_is_space(text[0]) && !spec_is_space(text.last()),
    ensures
        spec_trim(front + text + back) == text,
{
    lemma_trim_front(front, text + back);
    assert(front + text + back =~= front + (text + back));
    if text.len() == 0 {
        assert(text + back =~= back);
        let s = front + back;
        assert forall|i: int| 0 <= i < s.len() implies spec_is_space(#[trigger] s[i]) by {
            if i < front.len() {
                assert(s[i] == front[i]);
            } else {
                assert(s[i] == back[i - front.len()]);
            }
        }
        lemma_trim_all(s);
        assert(spec_trim(s) =~= text);
    } else {
        assert((text + back)[0] == text[0]);
        assert(spec_trim_start(text + back) == text + back);
        lemma_trim_back(text, back);
    }
}

proof fn lemma_trim_front(front: Seq<char>, s: Seq<char>)
    requires
        forall|i: int| 0 <= i < front.len() ==> spec_is_space(#[trigger] front[i]),
    ensures
        spec_trim_start(front + s) == spec_trim_start(s),
    decreases front.len(),
{
    if front.len() > 0 {
        let rest = front.skip(1);
        assert((front + s)[0] == front[0]);
        assert((front + s).skip(1) =~= rest + s);
        assert forall|i: int| 0 <= i < rest.len() implies spec_is_space(#[trigger] rest[i]) by {
            assert(rest[i] == front[i + 1]);
        }
        lemma_trim_front(rest, s);
    } else {
        assert(front + s =~= s);
    }
}

proof fn lemma_trim_back(s: Seq<char>, back: Seq<char>)
    requires
        forall|i: int| 0 <= i < back.len() ==> spec_is_space(#[trigger] back[i]),
        s.len() > 0,
        !spec_is_space(s.last()),
    ensures
        spec_trim_end(s + back) == s,
    decreases back.len(),
{
    if back.len() > 0 {
        let rest = back.drop_last();
        assert((s + back).last() == back[back.len() - 1]);
        assert((s + back).drop_last() =~= s + rest);
        assert forall|i: int| 0 <= i < rest.len() implies spec_is_space(#[trigger] rest[i]) by {
            assert(rest[i] == back[i]);
        }
        lemma_trim_back(s, rest);
    } else {
        assert(s + back =~= s);
    }
}

proof fn lemma_trim_all(s: Seq<char>)
    requires
        forall|i: int| 0 <= i < s.len() ==> spec_is_space(#[trigger] s[i]),
    ensures
        spec_trim(s).len() == 0,
{
    lemma_trim_front(s, Seq::empty());
    assert(s + Seq::<char>::empty() =~= s);
}

/// White space by its code points.
pub proof fn law_white_space(c: char)
    ensures
        ({
            let u = c as u32;
            spec_is_space(c) <==> u == 9 || u == 10 || u == 11 || u == 12 || u == 13 || u == 32 || u
                == 0x85 || u == 0xa0 || u == 0x1680 || (0x2000 <= u <= 0x200a) || u == 0x2028 || u
                == 0x2029 || u == 0x202f || u == 0x205f || u == 0x3000
        }),
        spec_is_control(c) <==> (c as u32) < 32 || 127 <= c as u32 <= 159,
{
}

} // verus!
