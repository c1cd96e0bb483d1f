//! Position reports: plain and base-91 compressed coordinates with their extensions.
//!
//! Coordinates, speeds and altitudes are kept exactly as they were sent, as whole numbers of the
//! units they were sent in.

use vstd::prelude::*;
use vstd::slice::slice_subrange;

use crate::encoding::{spec_text_of, text_of};
use crate::numeral::{
    decimal, parse_signed, push_pad_left, spec_decimal, spec_digits_value, spec_pad_left,
    spec_parse_signed,
};
use crate::split::{find_text, spec_find_text_from};
use crate::symbols::{spec_symbol_label, symbol_label};
use crate::text::{chars_of, spec_all_digits, spec_trim, string_of, trim};

verus! {

/// Units of a compressed latitude in one degree.
pub const LAT_UNITS: i32 = 380_926;

/// Units of a compressed longitude in one degree.
pub const LON_UNITS: i32 = 190_463;

/// The largest compressed coordinate: 180 degrees of latitude, 360 of longitude.
pub const MAX_COMPRESSED: u32 = 68_566_680;

// ---------------------------------------------------------------------------
// Quantities
// ---------------------------------------------------------------------------

/// A latitude or longitude, positive to the north and the east.
#[derive(Clone, Copy, Debug, PartialEq, Eq, Structural)]
pub enum Angle {
    /// Hundredths of a minute.
    Hundredths(i32),
    /// [`LAT_UNITS`] to the degree.
    LatUnits(i32),
    /// [`LON_UNITS`] to the degree.
    LonUnits(i32),
}

#[derive(Clone, Copy, Debug, PartialEq, Eq, Structural)]
pub enum Speed {
    Knots(u16),
    /// 1.08 to this power, less one, in knots.
    Power(u8),
}

#[derive(Clone, Copy, Debug, PartialEq, Eq, Structural)]
pub enum Altitude {
    Metres(i32),
    Feet(i32),
    /// 1.002 to this power, in feet.
    FeetPower(u16),
}

pub open spec fn spec_power(base: int, n: nat) -> int
    decreases n,
{
    if n == 0 {
        1
    } else {
        base * spec_power(base, (n - 1) as nat)
    }
}

impl Angle {
    pub open spec fn spec_units(self) -> int {
        match self {
            Angle::Hundredths(n) => n as int,
            Angle::LatUnits(n) => n as int,
            Angle::LonUnits(n) => n as int,
        }
    }

    pub open spec fn spec_per_degree(self) -> int {
        match self {
            Angle::Hundredths(_) => 6000,
            Angle::LatUnits(_) => LAT_UNITS as int,
            Angle::LonUnits(_) => LON_UNITS as int,
        }
    }

    /// The nearest whole number of hundredths of a minute, without the sign.
    pub open spec fn spec_hundredths(self) -> nat {
        let units = if self.spec_units() < 0 {
            -self.spec_units()
        } else {
            self.spec_units()
        };
        ((units * 12000 + self.spec_per_degree()) / (2 * self.spec_per_degree())) as nat
    }

    /// Numerator of the angle in degrees.
    pub fn units(self) -> (r: i32)
        ensures
            r == self.spec_units(),
    {
        match self {
            Angle::Hundredths(n) => n,
            Angle::LatUnits(n) => n,
            Angle::LonUnits(n) => n,
        }
    }

    /// Denominator of the angle in degrees.
    pub fn per_degree(self) -> (r: i32)
        ensures
            r == self.spec_per_degree(),
            r > 0,
    {
        match self {
            Angle::Hundredths(_) => 6000,
            Angle::LatUnits(_) => LAT_UNITS,
            Angle::LonUnits(_) => LON_UNITS,
        }
    }
}

impl Speed {
    /// At least half a knot. For a power the comparison is cleared of its denominators.
    pub open spec fn spec_moving(self) -> bool {
        match self {
            Speed::Knots(n) => n >= 1,
            Speed::Power(s) => 2 * spec_power(27, s as nat) >= 3 * spec_power(25, s as nat),
        }
    }

    /// At least half a knot.
    pub fn moving(self) -> (r: bool)
        ensures
            r == self.spec_moving(),
    {
        match self {
            Speed::Knots(n) => n >= 1,
            Speed::Power(s) => {
                proof {
                    if s >= 6 {
                        lemma_moving_from_six(s as nat);
                    } else {
                        lemma_resting_below_six(s as nat);
                    }
                }
                s >= 6
            },
        }
    }
}

proof fn lemma_power_positive(base: int, n: nat)
    requires
        base > 0,
    ensures
        spec_power(base, n) > 0,
    decreases n,
{
    if n > 0 {
        lemma_power_positive(base, (n - 1) as nat);
        let rest = spec_power(base, (n - 1) as nat);
        assert(base * rest > 0) by (nonlinear_arith)
            requires
                base > 0,
                rest > 0,
        ;
    }
}

proof fn lemma_moving_from_six(n: nat)
    requires
        n >= 6,
    ensures
        2 * spec_power(27, n) >= 3 * spec_power(25, n),
    decreases n,
{
    if n == 6 {
        reveal_with_fuel(spec_power, 7);
    } else {
        lemma_moving_from_six((n - 1) as nat);
        lemma_power_positive(25, (n - 1) as nat);
    }
}

proof fn lemma_resting_below_six(n: nat)
    requires
        n < 6,
    ensures
        2 * spec_power(27, n) < 3 * spec_power(25, n),
{
    reveal_with_fuel(spec_power, 6);
}

// ---------------------------------------------------------------------------
// Fixes
// ---------------------------------------------------------------------------

#[derive(Debug, PartialEq, Eq)]
pub struct Fix {
    pub lat: Angle,
    pub lon: Angle,
    pub table: u8,
    pub code: u8,
    pub course: Option<u16>,
    pub speed_knots: Option<Speed>,
    pub altitude_m: Option<Altitude>,
    pub comment: String,
}

pub struct FixView {
    pub lat: Angle,
    pub lon: Angle,
    pub table: u8,
    pub code: u8,
    pub course: Option<u16>,
    pub speed_knots: Option<Speed>,
    pub altitude_m: Option<Altitude>,
    pub comment: Seq<char>,
}

impl View for Fix {
    type V = FixView;

    open spec fn view(&self) -> FixView {
        FixView {
            lat: self.lat,
            lon: self.lon,
            table: self.table,
            code: self.code,
            course: self.course,
            speed_knots: self.speed_knots,
            altitude_m: self.altitude_m,
            comment: self.comment@,
        }
    }
}

impl Clone for Fix {
    fn clone(&self) -> (r: Fix)
        ensures
            r == *self,
    {
        Fix {
            lat: self.lat,
            lon: self.lon,
            table: self.table,
            code: self.code,
            course: self.course,
            speed_knots: self.speed_knots,
            altitude_m: self.altitude_m,
            comment: self.comment.clone(),
        }
    }
}

/// A number of base-91 digits, `!` standing for zero.
pub open spec fn spec_base91(s: Seq<u8>) -> Option<nat>
    decreases s.len(),
{
    if s.len() == 0 {
        Some(0)
    } else {
        match spec_base91(s.drop_last()) {
            Some(v) => if 33 <= s.last() < 33 + 91 {
                Some(v * 91 + (s.last() - 33) as nat)
            } else {
                None
            },
            None => None,
        }
    }
}

/// Reads up to four base-91 digits.
pub(crate) fn base91(s: &[u8]) -> (r: Option<u32>)
    requires
        s@.len() <= 4,
    ensures
        match r {
            Some(v) => spec_base91(s@) == Some(v as nat) && v < 68_574_961,
            None => spec_base91(s@) is None,
        },
{
    let mut acc: u32 = 0;
    assert(s@.take(0) =~= Seq::<u8>::empty());
    reveal_with_fuel(spec_power, 5);
    for i in 0..s.len()
        invariant
            s@.len() <= 4,
            spec_base91(s@.take(i as int)) == Some(acc as nat),
            acc < spec_power(91, i as nat),
            spec_power(91, 0) == 1,
            spec_power(91, 1) == 91,
            spec_power(91, 2) == 8281,
            spec_power(91, 3) == 753571,
            spec_power(91, 4) == 68_574_961,
    {
        assert(s@.take(i + 1).drop_last() =~= s@.take(i as int));
        assert(spec_power(91, (i + 1) as nat) == 91 * spec_power(91, i as nat));
        let b: u8 = s[i];
        if b < 33 || b >= 33 + 91 {
            proof {
                lemma_base91_prefix(s@, i + 1);
            }
            return None;
        }
        acc = acc * 91 + (b - 33) as u32;
    }
    assert(s@.take(s@.len() as int) =~= s@);
    Some(acc)
}

/// Digits with a bad one among the first `n` are no number.
proof fn lemma_base91_prefix(s: Seq<u8>, n: int)
    requires
        0 <= n <= s.len(),
        spec_base91(s.take(n)) is None,
    ensures
        spec_base91(s) is None,
    decreases s.len(),
{
    if n == s.len() {
        assert(s.take(n) =~= s);
    } else {
        assert(s.drop_last().take(n) =~= s.take(n));
        lemma_base91_prefix(s.drop_last(), n);
    }
}

/// Position ambiguity replaces trailing digits with spaces.
pub open spec fn spec_digit_or_ambiguous(b: u8) -> Option<nat> {
    if '0' as u8 <= b <= '9' as u8 {
        Some((b - '0' as u8) as nat)
    } else if b == ' ' as u8 {
        Some(0)
    } else {
        None
    }
}

pub open spec fn spec_two_digits(field: Seq<u8>, i: int) -> Option<nat> {
    match (spec_digit_or_ambiguous(field[i]), spec_digit_or_ambiguous(field[i + 1])) {
        (Some(a), Some(b)) => Some(a * 10 + b),
        _ => None,
    }
}

/// Degrees, minutes and hundredths in the hemisphere that `mark` names.
pub open spec fn spec_signed_angle(
    degrees: nat,
    minutes: nat,
    hundredths: nat,
    mark: u8,
    positive: char,
    negative: char,
) -> Option<Angle> {
    let n = degrees * 6000 + minutes * 100 + hundredths;
    if mark == positive as u8 {
        Some(Angle::Hundredths(n as i32))
    } else if mark == negative as u8 {
        Some(Angle::Hundredths((-n) as i32))
    } else {
        None
    }
}

/// `DDMM.hhN`
pub open spec fn spec_parse_lat(field: Seq<u8>) -> Option<Angle> {
    match (spec_two_digits(field, 0), spec_two_digits(field, 2), spec_two_digits(field, 5)) {
        (Some(degrees), Some(minutes), Some(hundredths)) => if field[4] == '.' as u8 && degrees
            <= 90 && minutes < 60 {
            spec_signed_angle(degrees, minutes, hundredths, field[7], 'N', 'S')
        } else {
            None
        },
        _ => None,
    }
}

/// `DDDMM.hhE`
pub open spec fn spec_parse_lon(field: Seq<u8>) -> Option<Angle> {
    match (
        spec_digit_or_ambiguous(field[0]),
        spec_two_digits(field, 1),
        spec_two_digits(field, 3),
        spec_two_digits(field, 6),
    ) {
        (Some(hundreds), Some(degrees), Some(minutes), Some(hundredths)) => if field[5]
            == '.' as u8 && hundreds * 100 + degrees <= 180 && minutes < 60 {
            spec_signed_angle(hundreds * 100 + degrees, minutes, hundredths, field[8], 'E', 'W')
        } else {
            None
        },
        _ => None,
    }
}

fn digit_or_ambiguous(b: u8) -> (r: Option<u32>)
    ensures
        match r {
            Some(d) => spec_digit_or_ambiguous(b) == Some(d as nat) && d < 10,
            None => spec_digit_or_ambiguous(b) is None,
        },
{
    if '0' as u8 <= b && b <= '9' as u8 {
        Some((b - '0' as u8) as u32)
    } else if b == ' ' as u8 {
        Some(0)
    } else {
        None
    }
}

fn two_digits(field: &[u8], i: usize) -> (r: Option<u32>)
    requires
        i + 1 < field@.len(),
    ensures
        match r {
            Some(d) => spec_two_digits(field@, i as int) == Some(d as nat) && d < 100,
            None => spec_two_digits(field@, i as int) is None,
        },
{
    match (digit_or_ambiguous(field[i]), digit_or_ambiguous(field[i + 1])) {
        (Some(a), Some(b)) => Some(a * 10 + b),
        _ => None,
    }
}

fn signed_angle(
    degrees: u32,
    minutes: u32,
    hundredths: u32,
    mark: u8,
    positive: char,
    negative: char,
) -> (r: Option<Angle>)
    requires
        degrees < 1000,
        minutes < 100,
        hundredths < 100,
        positive <= '\u{7f}',
        negative <= '\u{7f}',
    ensures
        r == spec_signed_angle(
            degrees as nat,
            minutes as nat,
            hundredths as nat,
            mark,
            positive,
            negative,
        ),
{
    let n: i32 = (degrees * 6000 + minutes * 100 + hundredths) as i32;
    if mark == positive as u8 {
        Some(Angle::Hundredths(n))
    } else if mark == negative as u8 {
        Some(Angle::Hundredths(-n))
    } else {
        None
    }
}

fn parse_lat(field: &[u8]) -> (r: Option<Angle>)
    requires
        field@.len() == 8,
    ensures
        r == spec_parse_lat(field@),
{
    match (two_digits(field, 0), two_digits(field, 2), two_digits(field, 5)) {
        (Some(degrees), Some(minutes), Some(hundredths)) => {
            if field[4] != '.' as u8 || degrees > 90 || minutes >= 60 {
                return None;
            }
            signed_angle(degrees, minutes, hundredths, field[7], 'N', 'S')
        },
        _ => None,
    }
}

fn parse_lon(field: &[u8]) -> (r: Option<Angle>)
    requires
        field@.len() == 9,
    ensures
        r == spec_parse_lon(field@),
{
    match (
        digit_or_ambiguous(field[0]),
        two_digits(field, 1),
        two_digits(field, 3),
        two_digits(field, 6),
    ) {
        (Some(hundreds), Some(degrees), Some(minutes), Some(hundredths)) => {
            let degrees: u32 = hundreds * 100 + degrees;
            if field[5] != '.' as u8 || degrees > 180 || minutes >= 60 {
                return None;
            }
            signed_angle(degrees, minutes, hundredths, field[8], 'E', 'W')
        },
        _ => None,
    }
}

/// Three decimal digits from index `i` on.
pub open spec fn spec_three_digits(s: Seq<u8>, i: int) -> Option<u16> {
    if (forall|k: int| i <= k < i + 3 ==> '0' as u8 <= #[trigger] s[k] <= '9' as u8) {
        Some(((s[i] - 48) * 100 + (s[i + 1] - 48) * 10 + (s[i + 2] - 48)) as u16)
    } else {
        None
    }
}

/// A course counts from 1 to 360 degrees; 0 means that it is not known.
pub open spec fn spec_known_course(course: int) -> Option<u16> {
    if 1 <= course <= 360 {
        Some(course as u16)
    } else {
        None
    }
}

/// `CCC/SSS`: course in degrees and speed in knots.
pub open spec fn spec_course_speed(rest: Seq<u8>) -> Option<(Option<u16>, u16)> {
    if rest.len() < 7 || rest[3] != '/' as u8 {
        None
    } else {
        match (spec_three_digits(rest, 0), spec_three_digits(rest, 4)) {
            (Some(course), Some(speed)) => Some((spec_known_course(course as int), speed)),
            _ => None,
        }
    }
}

fn three_digits(s: &[u8], i: usize) -> (r: Option<u16>)
    requires
        i + 3 <= s@.len(),
    ensures
        r == spec_three_digits(s@, i as int),
{
    let (a, b, c): (u8, u8, u8) = (s[i], s[i + 1], s[i + 2]);
    let zero: u8 = '0' as u8;
    let nine: u8 = '9' as u8;
    if a < zero || a > nine || b < zero || b > nine || c < zero || c > nine {
        return None;
    }
    Some((a - zero) as u16 * 100 + (b - zero) as u16 * 10 + (c - zero) as u16)
}

pub(crate) fn known_course(course: i32) -> (r: Option<u16>)
    ensures
        r == spec_known_course(course as int),
{
    if 1 <= course && course <= 360 {
        Some(course as u16)
    } else {
        None
    }
}

fn course_speed(rest: &[u8]) -> (r: Option<(Option<u16>, u16)>)
    ensures
        r == spec_course_speed(rest@),
{
    if rest.len() < 7 || rest[3] != '/' as u8 {
        return None;
    }
    match (three_digits(rest, 0), three_digits(rest, 4)) {
        (Some(course), Some(speed)) => Some((known_course(course as i32), speed)),
        _ => None,
    }
}

/// `/A=nnnnnn` (feet) taken out of the comment. It gives the altitude where none was known.
pub open spec fn spec_take_feet_altitude(fix: FixView) -> FixView {
    match spec_find_text_from(fix.comment, "/A="@, 0) {
        Some(start) => if start + 9 <= fix.comment.len() {
            match spec_parse_signed(fix.comment.subrange(start + 3, start + 9)) {
                Some(feet) => FixView {
                    altitude_m: if fix.altitude_m is None {
                        Some(Altitude::Feet(feet as i32))
                    } else {
                        fix.altitude_m
                    },
                    comment: fix.comment.take(start) + fix.comment.skip(start + 9),
                    ..fix
                },
                None => fix,
            }
        } else {
            fix
        },
        None => fix,
    }
}

/// Removes `/A=nnnnnn` (feet) from the comment and records it as the altitude.
pub fn take_feet_altitude(fix: &mut Fix)
    ensures
        final(fix)@ == spec_take_feet_altitude(old(fix)@),
{
    let comment = chars_of(fix.comment.as_str());
    let start: usize = match find_text(comment.as_slice(), "/A=") {
        Some(start) => start,
        None => return,
    };
    proof {
        reveal_strlit("/A=");
    }
    let n: usize = comment.len();
    if n - start < 9 {
        return;
    }
    let value = slice_subrange(comment.as_slice(), start + 3, start + 9);
    if let Some(feet) = parse_signed(value) {
        if fix.altitude_m.is_none() {
            fix.altitude_m = Some(Altitude::Feet(feet));
        }
        let mut kept = string_of(slice_subrange(comment.as_slice(), 0, start));
        kept.append(string_of(slice_subrange(comment.as_slice(), start + 9, n)).as_str());
        assert(kept@ =~= comment@.take(start as int) + comment@.skip(start + 9));
        fix.comment = kept;
    }
}

/// A fix of an uncompressed report before its comment is searched for an altitude.
pub open spec fn spec_plain_fix(data: Seq<u8>, lat: Angle, lon: Angle) -> FixView {
    let rest = data.skip(19);
    match spec_course_speed(rest) {
        Some((course, speed)) => FixView {
            lat,
            lon,
            table: data[8],
            code: data[18],
            course,
            speed_knots: Some(Speed::Knots(speed)),
            altitude_m: None,
            comment: spec_text_of(rest.skip(7)),
        },
        None => FixView {
            lat,
            lon,
            table: data[8],
            code: data[18],
            course: None,
            speed_knots: None,
            altitude_m: None,
            comment: spec_text_of(rest),
        },
    }
}

/// `DDMM.hhN` + table + `DDDMM.hhE` + symbol, then optional `CSE/SPD`.
pub open spec fn spec_uncompressed(data: Seq<u8>) -> Option<FixView> {
    if data.len() < 19 {
        None
    } else {
        match (spec_parse_lat(data.subrange(0, 8)), spec_parse_lon(data.subrange(9, 18))) {
            (Some(lat), Some(lon)) => Some(
                spec_take_feet_altitude(spec_plain_fix(data, lat, lon)),
            ),
            _ => None,
        }
    }
}

fn uncompressed(data: &[u8]) -> (r: Option<Fix>)
    ensures
        match r {
            Some(fix) => spec_uncompressed(data@) == Some(fix@),
            None => spec_uncompressed(data@) is None,
        },
{
    if data.len() < 19 {
        return None;
    }
    let lat: Angle = match parse_lat(slice_subrange(data, 0, 8)) {
        Some(lat) => lat,
        None => return None,
    };
    let lon: Angle = match parse_lon(slice_subrange(data, 9, 18)) {
        Some(lon) => lon,
        None => return None,
    };
    let rest = slice_subrange(data, 19, data.len());
    assert(rest@ =~= data@.skip(19));
    let (course, speed_knots, comment): (Option<u16>, Option<Speed>, &[u8]) = match course_speed(
        rest,
    ) {
        Some((course, speed)) => {
            let text = slice_subrange(rest, 7, rest.len());
            assert(text@ =~= rest@.skip(7));
            (course, Some(Speed::Knots(speed)), text)
        },
        None => (None, None, rest),
    };
    let mut fix = Fix {
        lat,
        lon,
        table: data[8],
        code: data[18],
        course,
        speed_knots,
        altitude_m: None,
        comment: string_of(text_of(comment).as_slice()),
    };
    take_feet_altitude(&mut fix);
    Some(fix)
}

/// Overlays are written `a` to `j` where a digit would be taken for an uncompressed report.
pub open spec fn spec_compressed_table(b: u8) -> u8 {
    if 'a' as u8 <= b <= 'j' as u8 {
        (b - 'a' as u8 + '0' as u8) as u8
    } else {
        b
    }
}

/// What the `cs` bytes and the type byte `t` of a compressed report say: nothing where `c` is a
/// space, an altitude where the type names it as the source, else course and speed.
pub open spec fn spec_compressed_extra(c: u8, s: u8, t: u8) -> Option<
    (Option<u16>, Option<Speed>, Option<Altitude>),
> {
    if c == ' ' as u8 {
        Some((None, None, None))
    } else if c < 33 || s < 33 || t < 33 {
        None
    } else if ((t - 33) / 8) % 4 == 2 {
        Some((None, None, Some(Altitude::FeetPower(((c - 33) * 91 + (s - 33)) as u16))))
    } else if c - 33 <= 89 {
        Some((Some(((c - 33) * 4) as u16), Some(Speed::Power((s - 33) as u8)), None))
    } else {
        Some((None, None, None))
    }
}

/// Table, 4-char base-91 latitude, 4-char longitude, symbol, `cs`, type.
pub open spec fn spec_compressed(data: Seq<u8>) -> Option<FixView> {
    if data.len() < 13 {
        None
    } else {
        match (
            spec_base91(data.subrange(1, 5)),
            spec_base91(data.subrange(5, 9)),
            spec_compressed_extra(data[10], data[11], data[12]),
        ) {
            (Some(lat), Some(lon), Some((course, speed_knots, altitude_m))) => if lat
                <= MAX_COMPRESSED && lon <= MAX_COMPRESSED {
                Some(
                    spec_take_feet_altitude(
                        FixView {
                            lat: Angle::LatUnits((90 * LAT_UNITS - lat) as i32),
                            lon: Angle::LonUnits((lon - 180 * LON_UNITS) as i32),
                            table: spec_compressed_table(data[0]),
                            code: data[9],
                            course,
                            speed_knots,
                            altitude_m,
                            comment: spec_text_of(data.skip(13)),
                        },
                    ),
                )
            } else {
                None
            },
            _ => None,
        }
    }
}

fn compressed_extra(c: u8, s: u8, t: u8) -> (r: Option<
    (Option<u16>, Option<Speed>, Option<Altitude>),
>)
    ensures
        r == spec_compressed_extra(c, s, t),
{
    if c == ' ' as u8 {
        return Some((None, None, None));
    }
    if c < 33 || s < 33 || t < 33 {
        return None;
    }
    let (c33, s33, t33): (u8, u8, u8) = (c - 33, s - 33, t - 33);
    if (t33 / 8) % 4 == 2 {
        let exponent: u16 = c33 as u16 * 91 + s33 as u16;
        Some((None, None, Some(Altitude::FeetPower(exponent))))
    } else if c33 <= 89 {
        Some((Some(c33 as u16 * 4), Some(Speed::Power(s33)), None))
    } else {
        Some((None, None, None))
    }
}

fn compressed(data: &[u8]) -> (r: Option<Fix>)
    ensures
        match r {
            Some(fix) => spec_compressed(data@) == Some(fix@),
            None => spec_compressed(data@) is None,
        },
{
    if data.len() < 13 {
        return None;
    }
    let first: u8 = data[0];
    let table: u8 = if 'a' as u8 <= first && first <= 'j' as u8 {
        first - 'a' as u8 + '0' as u8
    } else {
        first
    };
    let lat: u32 = match base91(slice_subrange(data, 1, 5)) {
        Some(lat) => lat,
        None => return None,
    };
    let lon: u32 = match base91(slice_subrange(data, 5, 9)) {
        Some(lon) => lon,
        None => return None,
    };
    if lat > MAX_COMPRESSED || lon > MAX_COMPRESSED {
        return None;
    }
    let (course, speed_knots, altitude_m) = match compressed_extra(data[10], data[11], data[12]) {
        Some(extra) => extra,
        None => return None,
    };
    let comment = slice_subrange(data, 13, data.len());
    assert(comment@ =~= data@.skip(13));
    let mut fix = Fix {
        lat: Angle::LatUnits(90 * LAT_UNITS - lat as i32),
        lon: Angle::LonUnits(lon as i32 - 180 * LON_UNITS),
        table,
        code: data[9],
        course,
        speed_knots,
        altitude_m,
        comment: string_of(text_of(comment).as_slice()),
    };
    take_feet_altitude(&mut fix);
    Some(fix)
}

/// A report that starts with a digit or a space is uncompressed.
pub open spec fn spec_position(data: Seq<u8>) -> Option<FixView> {
    if data.len() == 0 {
        None
    } else if '0' as u8 <= data[0] <= '9' as u8 || data[0] == ' ' as u8 {
        spec_uncompressed(data)
    } else {
        spec_compressed(data)
    }
}

/// Reads a position, plain or compressed.
pub fn position(data: &[u8]) -> (r: Option<Fix>)
    ensures
        match r {
            Some(fix) => spec_position(data@) == Some(fix@),
            None => spec_position(data@) is None,
        },
{
    if data.len() == 0 {
        return None;
    }
    let first: u8 = data[0];
    if ('0' as u8 <= first && first <= '9' as u8) || first == ' ' as u8 {
        uncompressed(data)
    } else {
        compressed(data)
    }
}

// ---------------------------------------------------------------------------
// Display
// ---------------------------------------------------------------------------

/// The figures of a fix that are shown converted and rounded: its speed in km/h and its altitude
/// in metres, as text. Neither is looked at where the fix does not have it.
#[derive(Debug, PartialEq, Eq)]
pub struct Figures {
    pub kmh: String,
    pub altitude: String,
}

pub struct FiguresView {
    pub kmh: Seq<char>,
    pub altitude: Seq<char>,
}

impl View for Figures {
    type V = FiguresView;

    open spec fn view(&self) -> FiguresView {
        FiguresView { kmh: self.kmh@, altitude: self.altitude@ }
    }
}

impl Clone for Figures {
    fn clone(&self) -> (r: Figures)
        ensures
            r == *self,
    {
        Figures { kmh: self.kmh.clone(), altitude: self.altitude.clone() }
    }
}

/// Degrees and decimal minutes, e.g. `59°21.09'N` or `017°57.36'E`.
pub open spec fn spec_format_angle(
    angle: Angle,
    degree_width: int,
    positive: char,
    negative: char,
) -> Seq<char> {
    let n = angle.spec_hundredths();
    spec_pad_left(spec_decimal(n / 6000), '0', degree_width) + "°"@ + spec_pad_left(
        spec_decimal(n % 6000 / 100),
        '0',
        2,
    ) + "."@ + spec_pad_left(spec_decimal(n % 100), '0', 2) + "'"@ + seq![
        if angle.spec_units() < 0 {
            negative
        } else {
            positive
        },
    ]
}

fn format_angle(angle: Angle, degree_width: usize, positive: char, negative: char) -> (r: String)
    ensures
        r@ == spec_format_angle(angle, degree_width as int, positive, negative),
{
    let units: i64 = angle.units() as i64;
    let per: u128 = angle.per_degree() as u128;
    let size: u128 = if units < 0 {
        (-units) as u128
    } else {
        units as u128
    };
    let n: u128 = (size * 12000 + per) / (2 * per);
    assert(n == angle.spec_hundredths());
    let mut out = String::new();
    push_pad_left(&mut out, decimal(n / 6000).as_str(), '0', degree_width);
    out.append("°");
    push_pad_left(&mut out, decimal(n % 6000 / 100).as_str(), '0', 2);
    out.append(".");
    assert(n % 6000 % 100 == n % 100);
    push_pad_left(&mut out, decimal(n % 100).as_str(), '0', 2);
    out.append("'");
    out.push(if units < 0 {
        negative
    } else {
        positive
    });
    assert(out@ =~= spec_format_angle(angle, degree_width as int, positive, negative));
    out
}

impl FixView {
    pub open spec fn moving(self) -> bool {
        match self.speed_knots {
            Some(speed) => speed.spec_moving(),
            None => false,
        }
    }

    pub open spec fn place_text(self) -> Seq<char> {
        spec_symbol_label(self.table, self.code) + " at "@ + spec_format_angle(
            self.lat,
            2,
            'N',
            'S',
        ) + " "@ + spec_format_angle(self.lon, 3, 'E', 'W')
    }

    pub open spec fn speed_text(self, figures: FiguresView) -> Seq<char> {
        if self.moving() {
            ", "@ + figures.kmh + " km/h"@ + match self.course {
                Some(course) => ", course "@ + spec_decimal(course as nat) + "°"@,
                None => Seq::empty(),
            }
        } else {
            Seq::empty()
        }
    }

    pub open spec fn altitude_text(self, figures: FiguresView) -> Seq<char> {
        if self.altitude_m is Some {
            ", alt "@ + figures.altitude + " m"@
        } else {
            Seq::empty()
        }
    }

    pub open spec fn comment_text(self) -> Seq<char> {
        if spec_trim(self.comment).len() > 0 {
            " \""@ + spec_trim(self.comment) + "\""@
        } else {
            Seq::empty()
        }
    }

    /// Symbol and place, speed and course while moving, altitude, comment.
    pub open spec fn describe(self, figures: FiguresView) -> Seq<char> {
        self.place_text() + self.speed_text(figures) + self.altitude_text(figures)
            + self.comment_text()
    }
}

impl Fix {
    /// Symbol and place, speed and course while moving, altitude, comment.
    pub fn describe(&self, figures: &Figures) -> (r: String)
        ensures
            r@ == self@.describe(figures@),
    {
        let mut out = symbol_label(self.table, self.code);
        out.append(" at ");
        out.append(format_angle(self.lat, 2, 'N', 'S').as_str());
        out.append(" ");
        out.append(format_angle(self.lon, 3, 'E', 'W').as_str());
        assert(out@ =~= self@.place_text());
        let moving: bool = match self.speed_knots {
            Some(speed) => speed.moving(),
            None => false,
        };
        if moving {
            out.append(", ");
            out.append(figures.kmh.as_str());
            out.append(" km/h");
            if let Some(course) = self.course {
                out.append(", course ");
                out.append(decimal(course as u128).as_str());
                out.append("°");
            }
        }
        assert(out@ =~= self@.place_text() + self@.speed_text(figures@));
        if self.altitude_m.is_some() {
            out.append(", alt ");
            out.append(figures.altitude.as_str());
            out.append(" m");
        }
        assert(out@ =~= self@.place_text() + self@.speed_text(figures@) + self@.altitude_text(
            figures@,
        ));
        let chars = chars_of(self.comment.as_str());
        let comment = trim(chars.as_slice());
        if comment.len() > 0 {
            out.append(" \"");
            out.append(string_of(comment).as_str());
            out.append("\"");
        }
        assert(out@ =~= self@.describe(figures@));
        out
    }
}

// ---------------------------------------------------------------------------
// Laws
// ---------------------------------------------------------------------------

/// A fix that was read has a course of at most 360 degrees, and one read from a compressed report
/// lies on the globe.
pub proof fn law_position_in_range(data: Seq<u8>)
    ensures
        spec_position(data) matches Some(fix) ==> (fix.course matches Some(c) ==> c <= 360),
        spec_compressed(data) matches Some(fix) ==> {
            &&& -90 * LAT_UNITS <= fix.lat.spec_units() <= 90 * LAT_UNITS
            &&& -180 * LON_UNITS <= fix.lon.spec_units() <= 180 * LON_UNITS
        },
{
}

/// `b` shows the digit `d`: as itself, or as a space where a zero stands for what is not told.
pub open spec fn spec_shows(b: u8, d: int) -> bool {
    (0 <= d <= 9 && b == 48 + d) || (d == 0 && b == 32)
}

/// A plain report reads as its digits: latitude `DDMM.hh`, counted negative where `S` follows and
/// positive where `N` does, longitude `DDDMM.hh`, negative where `W` follows and positive where `E`
/// does, each in hundredths of a minute; then table and symbol stand around the longitude.
pub proof fn law_plain_position_reads_its_digits(data: Seq<u8>, d: Seq<int>, e: Seq<int>)
    requires
        data.len() >= 19,
        d.len() == 6,
        spec_shows(data[0], d[0]) && spec_shows(data[1], d[1]),
        spec_shows(data[2], d[2]) && spec_shows(data[3], d[3]),
        data[4] == '.' as u8,
        spec_shows(data[5], d[4]) && spec_shows(data[6], d[5]),
        data[7] == 'N' as u8 || data[7] == 'S' as u8,
        e.len() == 7,
        spec_shows(data[9], e[0]) && spec_shows(data[10], e[1]) && spec_shows(data[11], e[2]),
        spec_shows(data[12], e[3]) && spec_shows(data[13], e[4]),
        data[14] == '.' as u8,
        spec_shows(data[15], e[5]) && spec_shows(data[16], e[6]),
        data[17] == 'E' as u8 || data[17] == 'W' as u8,
        d[0] * 10 + d[1] <= 90,
        d[2] <= 5,
        e[0] * 100 + e[1] * 10 + e[2] <= 180,
        e[3] <= 5,
    ensures
        spec_position(data) is Some,
        ({
            let fix = spec_position(data)->0;
            let lat = d[0] * 60000 + d[1] * 6000 + d[2] * 1000 + d[3] * 100 + d[4] * 10 + d[5];
            let lon = e[0] * 600000 + e[1] * 60000 + e[2] * 6000 + e[3] * 1000 + e[4] * 100 + e[5]
                * 10 + e[6];
            &&& fix.lat == Angle::Hundredths(
                (if data[7] == 'S' as u8 {
                    -lat
                } else {
                    lat
                }) as i32,
            )
            &&& fix.lon == Angle::Hundredths(
                (if data[17] == 'W' as u8 {
                    -lon
                } else {
                    lon
                }) as i32,
            )
            &&& fix.lat.spec_per_degree() == 6000 && fix.lon.spec_per_degree() == 6000
            &&& fix.table == data[8]
            &&& fix.code == data[18]
        }),
{
    let north = data.subrange(0, 8);
    let east = data.subrange(9, 18);
    assert(spec_two_digits(north, 0) == Some((d[0] * 10 + d[1]) as nat));
    assert(spec_two_digits(north, 2) == Some((d[2] * 10 + d[3]) as nat));
    assert(spec_two_digits(north, 5) == Some((d[4] * 10 + d[5]) as nat));
    assert(spec_two_digits(east, 1) == Some((e[1] * 10 + e[2]) as nat));
    assert(spec_two_digits(east, 3) == Some((e[3] * 10 + e[4]) as nat));
    assert(spec_two_digits(east, 6) == Some((e[5] * 10 + e[6]) as nat));
}

/// What starts like a plain report and is none is refused: its points, its hemispheres and its
/// digits stand where they belong, and degrees and minutes are in their ranges.
pub proof fn law_plain_position_refuses_others(data: Seq<u8>)
    requires
        spec_position(data) is Some,
        48 <= data[0] <= 57 || data[0] == 32,
    ensures
        data.len() >= 19,
        data[4] == '.' as u8 && data[14] == '.' as u8,
        data[7] == 'N' as u8 || data[7] == 'S' as u8,
        data[17] == 'E' as u8 || data[17] == 'W' as u8,
        forall|i: int|
            0 <= i <= 16 && i != 4 && i != 7 && i != 8 && i != 14 ==> 48 <= #[trigger] data[i] <= 57
                || data[i] == 32,
        data[0] <= 57 && (data[0] == 57 ==> data[1] == 48 || data[1] == 32),
        data[2] < 54 && data[12] < 54,
        data[9] <= 49 && (data[9] == 49 ==> data[10] <= 56) && (data[9] == 49 && data[10] == 56
            ==> data[11] == 48 || data[11] == 32),
{
    let north = data.subrange(0, 8);
    let east = data.subrange(9, 18);
    assert(spec_parse_lat(north) is Some);
    assert(spec_parse_lon(east) is Some);
    assert(north[0] == data[0] && north[1] == data[1] && north[2] == data[2] && north[3] == data[3]);
    assert(north[4] == data[4] && north[5] == data[5] && north[6] == data[6] && north[7] == data[7]);
    assert(east[0] == data[9] && east[1] == data[10] && east[2] == data[11] && east[3] == data[12]);
    assert(east[4] == data[13] && east[5] == data[14] && east[6] == data[15] && east[7] == data[16]);
    assert(east[8] == data[17]);
}

/// Behind a plain report, `CCC/SSS` is the course in degrees, none where it is 0 or above 360, and
/// the speed in knots; what follows is the comment, as far as no altitude is taken out of it.
pub proof fn law_plain_position_course_and_speed(data: Seq<u8>, c: Seq<int>, s: Seq<int>)
    requires
        spec_position(data) is Some,
        48 <= data[0] <= 57 || data[0] == 32,
        data.len() >= 26,
        c.len() == 3 && s.len() == 3,
        forall|i: int| 0 <= i < 3 ==> 0 <= #[trigger] c[i] <= 9 && data[19 + i] == 48 + c[i],
        data[22] == '/' as u8,
        forall|i: int| 0 <= i < 3 ==> 0 <= #[trigger] s[i] <= 9 && data[23 + i] == 48 + s[i],
    ensures
        ({
            let fix = spec_position(data)->0;
            let course = c[0] * 100 + c[1] * 10 + c[2];
            let speed = s[0] * 100 + s[1] * 10 + s[2];
            &&& fix.course == (if 1 <= course <= 360 {
                Some(course as u16)
            } else {
                None
            })
            &&& fix.speed_knots == Some(Speed::Knots(speed as u16))
            &&& fix.altitude_m is None ==> fix.comment == spec_text_of(data.skip(26))
        }),
{
    let rest = data.skip(19);
    assert(c[0] <= 9 && c[1] <= 9 && c[2] <= 9);
    assert(s[0] <= 9 && s[1] <= 9 && s[2] <= 9);
    assert(rest[0] == data[19] && rest[1] == data[20] && rest[2] == data[21]);
    assert(rest[3] == data[22]);
    assert(rest[4] == data[23] && rest[5] == data[24] && rest[6] == data[25]);
    assert(rest.skip(7) =~= data.skip(26));
}

/// A compressed report reads as its base-91 digits: latitude in 380926ths of a degree south of the
/// north pole, longitude in 190463rds of a degree east of the date line, then the symbol. The table
/// is the first byte, where `a` to `j` stand for the digits of an overlay.
pub proof fn law_compressed_position_reads_its_digits(data: Seq<u8>, y: Seq<int>, x: Seq<int>)
    requires
        data.len() >= 13,
        !(48 <= data[0] <= 57) && data[0] != 32,
        y.len() == 4 && x.len() == 4,
        forall|i: int| 0 <= i < 4 ==> 0 <= #[trigger] y[i] <= 90 && data[1 + i] == 33 + y[i],
        forall|i: int| 0 <= i < 4 ==> 0 <= #[trigger] x[i] <= 90 && data[5 + i] == 33 + x[i],
        y[0] * 753571 + y[1] * 8281 + y[2] * 91 + y[3] <= 180 * 380926,
        x[0] * 753571 + x[1] * 8281 + x[2] * 91 + x[3] <= 360 * 190463,
        data[10] == 32 || (data[10] >= 33 && data[11] >= 33 && data[12] >= 33),
    ensures
        spec_position(data) is Some,
        ({
            let fix = spec_position(data)->0;
            let down = y[0] * 753571 + y[1] * 8281 + y[2] * 91 + y[3];
            let right = x[0] * 753571 + x[1] * 8281 + x[2] * 91 + x[3];
            &&& fix.lat.spec_per_degree() == 380926
            &&& fix.lat.spec_units() == 90 * 380926 - down
            &&& fix.lon.spec_per_degree() == 190463
            &&& fix.lon.spec_units() == right - 180 * 190463
            &&& fix.code == data[9]
            &&& fix.table as int == if 'a' as u8 <= data[0] <= 'j' as u8 {
                '0' as int + (data[0] - 'a' as u8)
            } else {
                data[0] as int
            }
        }),
{
    lemma_base91_four(data.subrange(1, 5), y);
    lemma_base91_four(data.subrange(5, 9), x);
}

proof fn lemma_base91_four(s: Seq<u8>, d: Seq<int>)
    requires
        s.len() == 4,
        d.len() == 4,
        forall|i: int| 0 <= i < 4 ==> 0 <= #[trigger] d[i] <= 90 && s[i] == 33 + d[i],
    ensures
        spec_base91(s) == Some((d[0] * 753571 + d[1] * 8281 + d[2] * 91 + d[3]) as nat),
{
    reveal_with_fuel(spec_base91, 5);
    assert(d[0] <= 90 && d[1] <= 90 && d[2] <= 90 && d[3] <= 90);
    let three = s.drop_last();
    let two = three.drop_last();
    let one = two.drop_last();
    assert(one.drop_last() =~= Seq::<u8>::empty());
    assert(one.last() == s[0] && two.last() == s[1] && three.last() == s[2]);
}

/// The three bytes behind a compressed report's symbol: nothing where the first is a space; the
/// altitude where the third names the altitude as its source, as a power of 1.002 feet; else course,
/// in steps of four degrees, and speed, as a power of 1.08. An altitude in the comment does not
/// replace one that was sent here.
pub proof fn law_compressed_position_extras(data: Seq<u8>)
    requires
        spec_position(data) is Some,
        !(48 <= data[0] <= 57) && data[0] != 32,
    ensures
        ({
            let fix = spec_position(data)->0;
            let c = data[10] - 33;
            let s = data[11] - 33;
            let source = (data[12] - 33) / 8 % 4;
            &&& data[10] == 32 ==> fix.course is None && fix.speed_knots is None
            &&& data[10] != 32 && source == 2 ==> {
                &&& fix.altitude_m == Some(Altitude::FeetPower((c * 91 + s) as u16))
                &&& fix.course is None && fix.speed_knots is None
            }
            &&& data[10] != 32 && source != 2 && c <= 89 ==> {
                &&& fix.course == Some((4 * c) as u16)
                &&& fix.speed_knots == Some(Speed::Power(s as u8))
            }
            &&& data[10] != 32 && source != 2 && c > 89 ==> fix.course is None
                && fix.speed_knots is None
        }),
{
}

/// `/A=` and six digits in a comment are the altitude in feet and leave the comment; an altitude
/// that was known already stays.
pub proof fn law_altitude_in_feet_leaves_the_comment(
    fix: FixView,
    front: Seq<char>,
    d: Seq<int>,
    back: Seq<char>,
)
    requires
        d.len() == 6,
        forall|i: int| 0 <= i < 6 ==> 0 <= #[trigger] d[i] <= 9,
        fix.comment == front + "/A="@ + Seq::new(6, |i: int| (48 + d[i]) as u8 as char) + back,
        forall|i: int| 0 <= i < front.len() ==> #[trigger] fix.comment.subrange(i, i + 3) != "/A="@,
    ensures
        ({
            let after = spec_take_feet_altitude(fix);
            let feet = d[0] * 100000 + d[1] * 10000 + d[2] * 1000 + d[3] * 100 + d[4] * 10 + d[5];
            &&& after.comment == front + back
            &&& after.altitude_m == (if fix.altitude_m is Some {
                fix.altitude_m
            } else {
                Some(Altitude::Feet(feet as i32))
            })
            &&& after.lat == fix.lat && after.lon == fix.lon
            &&& after.table == fix.table && after.code == fix.code
            &&& after.course == fix.course && after.speed_knots == fix.speed_knots
        }),
{
    reveal_strlit("/A=");
    let start = front.len() as int;
    let comment = fix.comment;
    assert(comment.subrange(start, start + 3) =~= "/A="@);
    lemma_find_text_is(comment, "/A="@, 0, start);
    let digits = comment.subrange(start + 3, start + 9);
    assert forall|i: int| 0 <= i < 6 implies #[trigger] digits[i] == (48 + d[i]) as u8 as char
        && 0 <= d[i] <= 9 by {}
    reveal_with_fuel(spec_digits_value, 7);
    assert(digits[0] != '-' && digits[0] != '+');
    assert(spec_all_digits(digits));
    let d5 = digits.drop_last();
    let d4 = d5.drop_last();
    let d3 = d4.drop_last();
    let d2 = d3.drop_last();
    let d1 = d2.drop_last();
    assert(d1.drop_last() =~= Seq::<char>::empty());
    assert(d1.last() == digits[0] && d2.last() == digits[1] && d3.last() == digits[2]);
    assert(d4.last() == digits[3] && d5.last() == digits[4] && digits.last() == digits[5]);
    assert(comment.take(start) + comment.skip(start + 9) =~= front + back);
}

proof fn lemma_find_text_is(s: Seq<char>, pattern: Seq<char>, from: int, at: int)
    requires
        0 <= from <= at,
        at + pattern.len() <= s.len(),
        pattern.len() > 0,
        s.subrange(at, at + pattern.len()) == pattern,
        forall|i: int| from <= i < at ==> #[trigger] s.subrange(i, i + pattern.len()) != pattern,
    ensures
        spec_find_text_from(s, pattern, from) == Some(at),
    decreases at - from,
{
    if from < at {
        assert(s.subrange(from, from + pattern.len()) != pattern);
        lemma_find_text_is(s, pattern, from + 1, at);
    }
}

pub open spec fn spec_digit_of(n: int) -> char {
    (48 + n % 10) as u8 as char
}

/// The last two digits of a number.
pub open spec fn spec_two_places(n: int) -> Seq<char> {
    seq![spec_digit_of(n / 10), spec_digit_of(n)]
}

/// The last three digits of a number.
pub open spec fn spec_three_places(n: int) -> Seq<char> {
    seq![spec_digit_of(n / 100), spec_digit_of(n / 10), spec_digit_of(n)]
}

/// A place in words: the symbol, then degrees, minutes and hundredths of latitude in two digits
/// each with `N` or `S`, and of longitude in three, two and two digits with `E` or `W`.
pub proof fn law_place_shows_its_digits(fix: FixView, lat: (int, int, int), lon: (int, int, int))
    requires
        0 <= lat.0 <= 99 && 0 <= lat.1 <= 59 && 0 <= lat.2 <= 99,
        0 <= lon.0 <= 999 && 0 <= lon.1 <= 59 && 0 <= lon.2 <= 99,
        fix.lat == Angle::Hundredths((lat.0 * 6000 + lat.1 * 100 + lat.2) as i32) || fix.lat
            == Angle::Hundredths((-(lat.0 * 6000 + lat.1 * 100 + lat.2)) as i32),
        fix.lon == Angle::Hundredths((lon.0 * 6000 + lon.1 * 100 + lon.2) as i32) || fix.lon
            == Angle::Hundredths((-(lon.0 * 6000 + lon.1 * 100 + lon.2)) as i32),
    ensures
        ({
            let (south, west) = (fix.lat.spec_units() < 0, fix.lon.spec_units() < 0);
            let north_text = spec_two_places(lat.0) + "°"@ + spec_two_places(lat.1) + "."@
                + spec_two_places(lat.2) + "'"@ + (if south {
                seq!['S']
            } else {
                seq!['N']
            });
            let east_text = spec_three_places(lon.0) + "°"@ + spec_two_places(lon.1) + "."@
                + spec_two_places(lon.2) + "'"@ + (if west {
                seq!['W']
            } else {
                seq!['E']
            });
            fix.place_text() == spec_symbol_label(fix.table, fix.code) + " at "@ + north_text
                + " "@ + east_text
        }),
{
    lemma_parts(fix.lat, lat);
    lemma_parts(fix.lon, lon);
    lemma_padded(lat.0 as nat);
    lemma_padded(lat.1 as nat);
    lemma_padded(lat.2 as nat);
    lemma_padded(lon.0 as nat);
    lemma_padded(lon.1 as nat);
    lemma_padded(lon.2 as nat);
}

proof fn lemma_parts(angle: Angle, parts: (int, int, int))
    requires
        0 <= parts.0 <= 999 && 0 <= parts.1 <= 59 && 0 <= parts.2 <= 99,
        angle == Angle::Hundredths((parts.0 * 6000 + parts.1 * 100 + parts.2) as i32) || angle
            == Angle::Hundredths((-(parts.0 * 6000 + parts.1 * 100 + parts.2)) as i32),
    ensures
        angle.spec_hundredths() / 6000 == parts.0,
        angle.spec_hundredths() % 6000 / 100 == parts.1,
        angle.spec_hundredths() % 100 == parts.2,
{
    law_angle_is_rounded_to_the_nearest(angle);
}

/// Small numbers filled up with zeros are their digits.
pub proof fn lemma_padded(n: nat)
    requires
        n <= 999,
    ensures
        n <= 99 ==> spec_pad_left(spec_decimal(n), '0', 2) == spec_two_places(n as int),
        spec_pad_left(spec_decimal(n), '0', 3) == spec_three_places(n as int),
{
    reveal_with_fuel(spec_decimal, 4);
    if n <= 99 {
        assert(spec_pad_left(spec_decimal(n), '0', 2) =~= spec_two_places(n as int));
    }
    assert(spec_pad_left(spec_decimal(n), '0', 3) =~= spec_three_places(n as int));
}

/// An angle is shown to the nearest hundredth of a minute: the hundredths that are shown are off by
/// at most half a hundredth.
pub proof fn law_angle_is_rounded_to_the_nearest(angle: Angle)
    ensures
        ({
            let size = if angle.spec_units() < 0 {
                -angle.spec_units()
            } else {
                angle.spec_units()
            };
            let shown = angle.spec_hundredths() as int;
            let per = angle.spec_per_degree();
            &&& -per <= 12000 * size - 2 * per * shown < per
            &&& per == 6000 ==> shown == size
        }),
{
    let size = if angle.spec_units() < 0 {
        -angle.spec_units()
    } else {
        angle.spec_units()
    };
    let per = angle.spec_per_degree();
    vstd::arithmetic::div_mod::lemma_fundamental_div_mod(size * 12000 + per, 2 * per);
    if per == 6000 {
        assert((size * 12000 + 6000) / 12000 == size);
    }
}

/// A station is moving from half a knot on: at one knot, and at the sixth power of 1.08.
pub proof fn law_moving_from_half_a_knot(n: u16, s: u8)
    ensures
        Speed::Knots(n).spec_moving() <==> n >= 1,
        Speed::Power(s).spec_moving() <==> s >= 6,
{
    if s >= 6 {
        lemma_moving_from_six(s as nat);
    } else {
        lemma_resting_below_six(s as nat);
    }
}

/// What is said of a fix: the place; the speed and, where it is known, the course, of a station that
/// moves; the altitude, where it is known; and the comment in quotes, where there is one.
pub proof fn law_fix_in_words(fix: FixView, figures: FiguresView)
    ensures
        ({
            let speed = if fix.moving() {
                ", "@ + figures.kmh + " km/h"@ + (if fix.course is Some {
                    ", course "@ + spec_decimal(fix.course->0 as nat) + "°"@
                } else {
                    seq![]
                })
            } else {
                seq![]
            };
            let altitude = if fix.altitude_m is Some {
                ", alt "@ + figures.altitude + " m"@
            } else {
                seq![]
            };
            let comment = if spec_trim(fix.comment).len() > 0 {
                " \""@ + spec_trim(fix.comment) + "\""@
            } else {
                seq![]
            };
            fix.describe(figures) == fix.place_text() + speed + altitude + comment
        }),
        fix.moving() <==> (fix.speed_knots matches Some(speed) && speed.spec_moving()),
{
}

/// What starts like a compressed report and is none is refused: it has at least thirteen bytes, its
/// eight digits lie from `!` to `{`, and its coordinates on the globe.
pub proof fn law_compressed_position_refuses_others(data: Seq<u8>)
    requires
        spec_position(data) is Some,
        !(48 <= data[0] <= 57) && data[0] != 32,
    ensures
        data.len() >= 13,
        forall|i: int| 1 <= i <= 8 ==> 33 <= #[trigger] data[i] <= 123,
        data[10] == 32 || (data[10] >= 33 && data[11] >= 33 && data[12] >= 33),
        -90 * 380926 <= spec_position(data)->0.lat.spec_units() <= 90 * 380926,
        -180 * 190463 <= spec_position(data)->0.lon.spec_units() <= 180 * 190463,
{
    let lat = data.subrange(1, 5);
    let lon = data.subrange(5, 9);
    assert forall|i: int| 1 <= i <= 8 implies 33 <= #[trigger] data[i] <= 123 by {
        if i < 5 {
            lemma_base91_digit(lat, i - 1);
            assert(lat[i - 1] == data[i]);
        } else {
            lemma_base91_digit(lon, i - 5);
            assert(lon[i - 5] == data[i]);
        }
    }
}

proof fn lemma_base91_digit(s: Seq<u8>, i: int)
    requires
        spec_base91(s) is Some,
        0 <= i < s.len(),
    ensures
        33 <= s[i] <= 123,
    decreases s.len(),
{
    if i < s.len() - 1 {
        lemma_base91_digit(s.drop_last(), i);
        assert(s.drop_last()[i] == s[i]);
    }
}

/// Without an altitude in it, a comment stays as it was sent: behind the symbol of a plain report
/// without course and speed, and behind the thirteen bytes of a compressed one.
pub proof fn law_comments_stay_as_they_were_sent(data: Seq<u8>)
    requires
        spec_position(data) is Some,
    ensures
        ({
            let fix = spec_position(data)->0;
            let plain = 48 <= data[0] <= 57 || data[0] == 32;
            let rest = data.skip(19);
            let text = spec_text_of(data.skip(13));
            &&& plain && (rest.len() < 7 || rest[3] != '/' as u8 || !(48 <= rest[0] <= 57) || !(48
                <= rest[4] <= 57)) ==> {
                &&& fix.course is None && fix.speed_knots is None
                &&& spec_find_text_from(spec_text_of(rest), "/A="@, 0) is None ==> fix.comment
                    == spec_text_of(rest) && fix.altitude_m is None
            }
            &&& !plain && spec_find_text_from(text, "/A="@, 0) is None ==> fix.comment == text
        }),
{
}

} // verus!
