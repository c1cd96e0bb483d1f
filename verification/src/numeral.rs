//! Numbers as text: decimal and hexadecimal numerals, padding and lines.

use vstd::prelude::*;
use vstd::slice::slice_subrange;

use crate::text::{all_digits, spec_all_digits, spec_is_digit, spec_texts};

verus! {

// ---------------------------------------------------------------------------
// Writing
// ---------------------------------------------------------------------------

pub open spec fn spec_digit_char(d: int) -> char {
    (d + 48) as u8 as char
}

/// The decimal numeral of `n`, without leading zeros.
pub open spec fn spec_decimal(n: nat) -> Seq<char>
    decreases n,
{
    if n < 10 {
        seq![spec_digit_char(n as int)]
    } else {
        spec_decimal(n / 10).push(spec_digit_char((n % 10) as int))
    }
}

/// The two lower-case hexadecimal digits of a number below 256.
pub open spec fn spec_hex2(n: nat) -> Seq<char> {
    seq![spec_hex_digit((n / 16) as int), spec_hex_digit((n % 16) as int)]
}

pub open spec fn spec_hex_digit(d: int) -> char {
    if d < 10 {
        (d + 48) as u8 as char
    } else {
        (d + 87) as u8 as char
    }
}

/// `c` repeated `n` times.
pub open spec fn spec_repeat(c: char, n: int) -> Seq<char> {
    Seq::new(
        if n > 0 {
            n as nat
        } else {
            0
        },
        |i: int| c,
    )
}

/// Spaces added on the right up to `width` characters.
pub open spec fn spec_pad_right(s: Seq<char>, width: int) -> Seq<char> {
    s + spec_repeat(' ', width - s.len())
}

/// `fill` added on the left up to `width` characters.
pub open spec fn spec_pad_left(s: Seq<char>, fill: char, width: int) -> Seq<char> {
    spec_repeat(fill, width - s.len()) + s
}

/// The lines with `separator` between each two.
pub open spec fn spec_join(lines: Seq<Seq<char>>, separator: Seq<char>) -> Seq<char>
    decreases lines.len(),
{
    if lines.len() == 0 {
        Seq::empty()
    } else if lines.len() == 1 {
        lines[0]
    } else {
        spec_join(lines.drop_last(), separator) + separator + lines.last()
    }
}

fn digit_char(d: u8) -> (r: char)
    requires
        d < 10,
    ensures
        r == spec_digit_char(d as int),
{
    (d + 48) as char
}

pub fn decimal(n: u128) -> (r: String)
    ensures
        r@ == spec_decimal(n as nat),
    decreases n,
{
    if n < 10 {
        let mut out = String::new();
        out.push(digit_char(n as u8));
        assert(out@ =~= spec_decimal(n as nat));
        out
    } else {
        let mut out = decimal(n / 10);
        out.push(digit_char((n % 10) as u8));
        out
    }
}

fn hex_digit(d: u8) -> (r: char)
    requires
        d < 16,
    ensures
        r == spec_hex_digit(d as int),
{
    if d < 10 {
        (d + 48) as char
    } else {
        (d + 87) as char
    }
}

pub fn push_hex2(out: &mut String, n: u8)
    ensures
        final(out)@ == old(out)@ + spec_hex2(n as nat),
{
    out.push(hex_digit(n / 16));
    out.push(hex_digit(n % 16));
    assert(out@ =~= old(out)@ + spec_hex2(n as nat));
}

pub fn push_repeat(out: &mut String, c: char, n: usize)
    ensures
        final(out)@ == old(out)@ + spec_repeat(c, n as int),
{
    for i in 0..n
        invariant
            out@ == old(out)@ + spec_repeat(c, i as int),
    {
        out.push(c);
        assert(out@ =~= old(out)@ + spec_repeat(c, i + 1));
    }
    assert(out@ =~= old(out)@ + spec_repeat(c, n as int));
}

/// Appends `s`, padded with spaces on the right up to `width` characters.
pub fn push_pad_right(out: &mut String, s: &str, width: usize)
    ensures
        final(out)@ == old(out)@ + spec_pad_right(s@, width as int),
{
    out.append(s);
    let n: usize = s.unicode_len();
    if n < width {
        push_repeat(out, ' ', width - n);
    }
    assert(out@ =~= old(out)@ + spec_pad_right(s@, width as int));
}

/// Appends `s`, padded with `fill` on the left up to `width` characters.
pub fn push_pad_left(out: &mut String, s: &str, fill: char, width: usize)
    ensures
        final(out)@ == old(out)@ + spec_pad_left(s@, fill, width as int),
{
    let n: usize = s.unicode_len();
    if n < width {
        push_repeat(out, fill, width - n);
    }
    out.append(s);
    assert(out@ =~= old(out)@ + spec_pad_left(s@, fill, width as int));
}

pub fn join(lines: &Vec<String>, separator: &str) -> (r: String)
    ensures
        r@ == spec_join(spec_texts(lines@), separator@),
{
    let mut out = String::new();
    for i in 0..lines.len()
        invariant
            out@ == spec_join(spec_texts(lines@.take(i as int)), separator@),
    {
        proof {
            let now = spec_texts(lines@.take(i + 1));
            assert(now.drop_last() =~= spec_texts(lines@.take(i as int)));
            assert(now.last() == lines@[i as int]@);
            if i == 0 {
                assert(out@ + lines@[0]@ =~= lines@[0]@);
            }
        }
        if i > 0 {
            out.append(separator);
        }
        out.append(lines[i].as_str());
    }
    assert(lines@.take(lines@.len() as int) =~= lines@);
    out
}

// ---------------------------------------------------------------------------
// Reading
// ---------------------------------------------------------------------------

pub open spec fn spec_digit_value(c: char) -> nat {
    (c as u32 - 48) as nat
}

/// The value of a sequence of decimal digits.
pub open spec fn spec_digits_value(s: Seq<char>) -> nat
    decreases s.len(),
{
    if s.len() == 0 {
        0
    } else {
        spec_digits_value(s.drop_last()) * 10 + spec_digit_value(s.last())
    }
}

/// A non-empty decimal numeral with an optional `+` in front.
pub open spec fn spec_parse_unsigned(s: Seq<char>) -> Option<nat> {
    let digits = if s.len() > 1 && s[0] == '+' {
        s.skip(1)
    } else {
        s
    };
    if digits.len() > 0 && spec_all_digits(digits) {
        Some(spec_digits_value(digits))
    } else {
        None
    }
}

/// As [`spec_parse_unsigned`], `None` also for a value above `max`.
pub open spec fn spec_parse_up_to(s: Seq<char>, max: nat) -> Option<nat> {
    match spec_parse_unsigned(s) {
        Some(v) => if v <= max {
            Some(v)
        } else {
            None
        },
        None => None,
    }
}

/// A decimal numeral with an optional sign in front.
pub open spec fn spec_parse_signed(s: Seq<char>) -> Option<int> {
    if s.len() > 1 && s[0] == '-' {
        if spec_all_digits(s.skip(1)) {
            Some(-(spec_digits_value(s.skip(1)) as int))
        } else {
            None
        }
    } else {
        match spec_parse_unsigned(s) {
            Some(v) => Some(v as int),
            None => None,
        }
    }
}

/// The value of the digits, or `max + 1` where it is larger than `max`.
fn digits_value_capped(s: &[char], max: u32) -> (r: u64)
    requires
        spec_all_digits(s@),
    ensures
        spec_digits_value(s@) <= max ==> r == spec_digits_value(s@),
        spec_digits_value(s@) > max ==> r == max + 1,
{
    let mut acc: u64 = 0;
    for i in 0..s.len()
        invariant
            spec_all_digits(s@),
            spec_digits_value(s@.take(i as int)) <= max ==> acc == spec_digits_value(
                s@.take(i as int),
            ),
            spec_digits_value(s@.take(i as int)) > max ==> acc == max + 1,
    {
        let c: char = s[i];
        proof {
            assert(s@.take(i + 1).drop_last() =~= s@.take(i as int));
            assert(s@.take(i + 1).last() == c);
            assert(spec_is_digit(s@[i as int]));
        }
        acc = acc * 10 + (c as u64 - 48);
        if acc > max as u64 {
            acc = max as u64 + 1;
        }
    }
    assert(s@.take(s@.len() as int) =~= s@);
    acc
}

/// Reads an unsigned number of at most `max`.
pub fn parse_up_to(s: &[char], max: u32) -> (r: Option<u32>)
    ensures
        match r {
            Some(v) => spec_parse_up_to(s@, max as nat) == Some(v as nat),
            None => spec_parse_up_to(s@, max as nat) is None,
        },
{
    let digits = if s.len() > 1 && s[0] == '+' {
        slice_subrange(s, 1, s.len())
    } else {
        s
    };
    assert(s@.len() > 1 && s@[0] == '+' ==> digits@ =~= s@.skip(1));
    if digits.len() == 0 || !all_digits(digits) {
        return None;
    }
    let v: u64 = digits_value_capped(digits, max);
    if v <= max as u64 {
        Some(v as u32)
    } else {
        None
    }
}

spec fn spec_pow10(n: nat) -> nat
    decreases n,
{
    if n == 0 {
        1
    } else {
        10 * spec_pow10((n - 1) as nat)
    }
}

/// A numeral of `n` digits is below the `n`th power of ten.
proof fn lemma_digits_value_bound(s: Seq<char>)
    requires
        spec_all_digits(s),
    ensures
        spec_digits_value(s) < spec_pow10(s.len()),
    decreases s.len(),
{
    if s.len() > 0 {
        assert(spec_is_digit(s.last()));
        lemma_digits_value_bound(s.drop_last());
    }
}

proof fn lemma_pow10_up_to_six(n: nat)
    requires
        n <= 6,
    ensures
        spec_pow10(n) <= 1_000_000,
{
    reveal_with_fuel(spec_pow10, 7);
}

/// Reads a signed number of at most six characters.
pub fn parse_signed(s: &[char]) -> (r: Option<i32>)
    requires
        s@.len() <= 6,
    ensures
        match r {
            Some(v) => spec_parse_signed(s@) == Some(v as int),
            None => spec_parse_signed(s@) is None,
        },
{
    let signed: bool = s.len() > 1 && (s[0] == '-' || s[0] == '+');
    let digits = if signed {
        slice_subrange(s, 1, s.len())
    } else {
        s
    };
    assert(signed ==> digits@ =~= s@.skip(1));
    if digits.len() == 0 || !all_digits(digits) {
        return None;
    }
    proof {
        lemma_digits_value_bound(digits@);
        lemma_pow10_up_to_six(digits@.len());
    }
    let v: u64 = digits_value_capped(digits, 999_999);
    if signed && s[0] == '-' {
        Some(-(v as i32))
    } else {
        Some(v as i32)
    }
}

// ---------------------------------------------------------------------------
// Laws
// ---------------------------------------------------------------------------

/// A number's numeral is made of digits, and reading it gives the number back.
pub proof fn law_decimal_reads_back(n: nat)
    ensures
        spec_decimal(n).len() > 0,
        spec_all_digits(spec_decimal(n)),
        spec_parse_unsigned(spec_decimal(n)) == Some(n),
{
    lemma_decimal_digits(n);
    assert(spec_is_digit(spec_decimal(n)[0]));
}

proof fn lemma_decimal_digits(n: nat)
    ensures
        spec_decimal(n).len() > 0,
        spec_all_digits(spec_decimal(n)),
        spec_digits_value(spec_decimal(n)) == n,
    decreases n,
{
    reveal_with_fuel(spec_digits_value, 2);
    if n >= 10 {
        lemma_decimal_digits(n / 10);
        assert(spec_decimal(n).drop_last() =~= spec_decimal(n / 10));
    } else {
        assert(spec_decimal(n).drop_last() =~= Seq::<char>::empty());
    }
}

/// Numbers below 100 000 have at most five digits.
pub proof fn lemma_decimal_at_most_five(n: nat)
    requires
        n < 100_000,
    ensures
        1 <= spec_decimal(n).len() <= 5,
{
    reveal_with_fuel(spec_decimal, 6);
}

/// Texts with a separator between each two, and filling up to a width.
pub proof fn law_joining_and_filling(lines: Seq<Seq<char>>, line: Seq<char>, separator: Seq<char>)
    requires
        lines.len() > 0,
    ensures
        spec_join(seq![line], separator) == line,
        spec_join(lines.push(line), separator) == spec_join(lines, separator) + separator + line,
        line.len() < 9 ==> spec_pad_right(line, 9).len() == 9 && spec_pad_right(line, 9).take(
            line.len() as int,
        ) == line,
        line.len() >= 9 ==> spec_pad_right(line, 9) == line,
        line.len() < 4 ==> spec_pad_left(line, ' ', 4).len() == 4 && spec_pad_left(
            line,
            ' ',
            4,
        ).skip(4 - line.len()) == line,
{
    assert(lines.push(line).drop_last() =~= lines);
    assert(line.len() < 9 ==> spec_pad_right(line, 9).take(line.len() as int) =~= line);
    assert(line.len() >= 9 ==> spec_pad_right(line, 9) =~= line);
    assert(line.len() < 4 ==> spec_pad_left(line, ' ', 4).skip(4 - line.len()) =~= line);
}

/// A sign in front of digits is the number's sign.
pub proof fn law_signed_numbers(digits: Seq<char>)
    requires
        digits.len() > 0,
        spec_all_digits(digits),
    ensures
        spec_parse_signed(digits) == Some(spec_digits_value(digits) as int),
        spec_parse_signed(seq!['-'] + digits) == Some(-(spec_digits_value(digits) as int)),
        spec_parse_signed(seq!['+'] + digits) == Some(spec_digits_value(digits) as int),
{
    assert(spec_is_digit(digits[0]));
    assert((seq!['-'] + digits).skip(1) =~= digits);
    assert((seq!['+'] + digits).skip(1) =~= digits);
}

/// A number is read where it is a numeral that is not too large, and else refused.
pub proof fn law_numbers_up_to_a_limit(n: nat, max: nat, s: Seq<char>)
    ensures
        n <= max ==> spec_parse_up_to(spec_decimal(n), max) == Some(n),
        n > max ==> spec_parse_up_to(spec_decimal(n), max) is None,
        spec_parse_up_to(s, max) matches Some(v) ==> v <= max && s.len() > 0 && forall|i: int|
            1 <= i < s.len() ==> '0' <= #[trigger] s[i] <= '9',
{
    law_decimal_reads_back(n);
    if spec_parse_up_to(s, max) is Some {
        let digits = if s.len() > 1 && s[0] == '+' {
            s.skip(1)
        } else {
            s
        };
        assert forall|i: int| 1 <= i < s.len() implies '0' <= #[trigger] s[i] <= '9' by {
            if s.len() > 1 && s[0] == '+' {
                assert(spec_is_digit(digits[i - 1]));
            } else {
                assert(spec_is_digit(digits[i]));
            }
        }
    }
}

} // verus!
