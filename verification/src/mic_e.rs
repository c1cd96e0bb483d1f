//! Mic-E position reports: latitude and status bits in the destination, the rest in the
//! information field.

use vstd::prelude::*;
use vstd::slice::slice_subrange;

use crate::encoding::{spec_text_of, text_of};
use crate::position::{
    base91, known_course, spec_base91, spec_known_course, spec_take_feet_altitude,
    take_feet_altitude, Altitude, Angle, Fix, FixView, Speed,
};
use crate::text::{chars_of, string_of};

verus! {

/// Altitudes are sent in metres above this depth.
pub const ALTITUDE_OFFSET: i32 = 10_000;

// ---------------------------------------------------------------------------
// Destination
// ---------------------------------------------------------------------------

/// The digit and message-bit kind: 0 = bit clear, 1 = custom, 2 = standard.
pub open spec fn spec_mic_e_char(c: char) -> Option<(int, u8)> {
    if '0' <= c <= '9' {
        Some((c as int - '0' as int, 0))
    } else if 'A' <= c <= 'J' {
        Some((c as int - 'A' as int, 1))
    } else if c == 'K' {
        Some((0, 1))
    } else if c == 'L' {
        Some((0, 0))
    } else if 'P' <= c <= 'Y' {
        Some((c as int - 'P' as int, 2))
    } else if c == 'Z' {
        Some((0, 2))
    } else {
        None
    }
}

/// Six characters that each carry a digit and a bit.
pub open spec fn spec_is_mic_e_dest(dest: Seq<char>) -> bool {
    dest.len() == 6 && forall|i: int| 0 <= i < 6 ==> spec_mic_e_char(#[trigger] dest[i]) is Some
}

pub open spec fn spec_dest_digit(dest: Seq<char>, i: int) -> int {
    let (digit, _) = spec_mic_e_char(dest[i])->0;
    digit
}

pub open spec fn spec_dest_kind(dest: Seq<char>, i: int) -> u8 {
    let (_, kind) = spec_mic_e_char(dest[i])->0;
    kind
}

/// The latitude without its sign, in hundredths of a minute.
pub open spec fn spec_dest_latitude(dest: Seq<char>) -> int {
    (spec_dest_digit(dest, 0) * 10 + spec_dest_digit(dest, 1)) * 6000 + (spec_dest_digit(dest, 2)
        * 10 + spec_dest_digit(dest, 3)) * 100 + spec_dest_digit(dest, 4) * 10 + spec_dest_digit(
        dest,
        5,
    )
}

/// Names of the standard status values.
pub open spec fn spec_standard_status(value: u8) -> Seq<char> {
    match value {
        0 => "Emergency"@,
        1 => "Priority"@,
        2 => "Special"@,
        3 => "Committed"@,
        4 => "Returning"@,
        5 => "In Service"@,
        6 => "En Route"@,
        _ => "Off Duty"@,
    }
}

/// Names of the custom status values.
pub open spec fn spec_custom_status(value: u8) -> Seq<char> {
    match value {
        0 => "Emergency"@,
        1 => "Custom-6"@,
        2 => "Custom-5"@,
        3 => "Custom-4"@,
        4 => "Custom-3"@,
        5 => "Custom-2"@,
        6 => "Custom-1"@,
        _ => "Custom-0"@,
    }
}

/// Three bits that are set where a kind is not 0, the first of most weight.
pub open spec fn spec_status_value(a: u8, b: u8, c: u8) -> u8 {
    ((if a != 0 {
        4int
    } else {
        0
    }) + (if b != 0 {
        2int
    } else {
        0
    }) + (if c != 0 {
        1int
    } else {
        0
    })) as u8
}

/// The status that the kinds of the first three characters name.
pub open spec fn spec_mic_e_status(a: u8, b: u8, c: u8) -> Seq<char> {
    let custom = a == 1 || b == 1 || c == 1;
    let standard = a == 2 || b == 2 || c == 2;
    if custom && standard {
        "Unknown status"@
    } else if custom {
        spec_custom_status(spec_status_value(a, b, c))
    } else {
        spec_standard_status(spec_status_value(a, b, c))
    }
}

fn mic_e_char(c: char) -> (r: Option<(u32, u8)>)
    ensures
        match r {
            Some((digit, kind)) => spec_mic_e_char(c) == Some((digit as int, kind)) && digit < 10,
            None => spec_mic_e_char(c) is None,
        },
{
    let u: u32 = c as u32;
    if '0' <= c && c <= '9' {
        Some((u - '0' as u32, 0))
    } else if 'A' <= c && c <= 'J' {
        Some((u - 'A' as u32, 1))
    } else if c == 'K' {
        Some((0, 1))
    } else if c == 'L' {
        Some((0, 0))
    } else if 'P' <= c && c <= 'Y' {
        Some((u - 'P' as u32, 2))
    } else if c == 'Z' {
        Some((0, 2))
    } else {
        None
    }
}

/// The digits and the kinds of a destination.
fn mic_e_dest(dest: &[char]) -> (r: Option<(Vec<u32>, Vec<u8>)>)
    ensures
        match r {
            Some((digits, kinds)) => {
                &&& spec_is_mic_e_dest(dest@)
                &&& digits@.len() == 6
                &&& kinds@.len() == 6
                &&& forall|i: int|
                    0 <= i < 6 ==> #[trigger] digits@[i] as int == spec_dest_digit(dest@, i)
                        && digits@[i] < 10
                &&& forall|i: int| 0 <= i < 6 ==> #[trigger] kinds@[i] == spec_dest_kind(dest@, i)
            },
            None => !spec_is_mic_e_dest(dest@),
        },
{
    if dest.len() != 6 {
        return None;
    }
    let mut digits: Vec<u32> = Vec::new();
    let mut kinds: Vec<u8> = Vec::new();
    for i in 0..6usize
        invariant
            dest@.len() == 6,
            digits@.len() == i,
            kinds@.len() == i,
            forall|j: int| 0 <= j < i ==> spec_mic_e_char(#[trigger] dest@[j]) is Some,
            forall|j: int|
                0 <= j < i ==> #[trigger] digits@[j] as int == spec_dest_digit(dest@, j)
                    && digits@[j] < 10,
            forall|j: int| 0 <= j < i ==> #[trigger] kinds@[j] == spec_dest_kind(dest@, j),
    {
        match mic_e_char(dest[i]) {
            Some((digit, kind)) => {
                digits.push(digit);
                kinds.push(kind);
            },
            None => {
                assert(spec_mic_e_char(dest@[i as int]) is None);
                return None;
            },
        }
    }
    Some((digits, kinds))
}

fn mic_e_status(a: u8, b: u8, c: u8) -> (r: &'static str)
    ensures
        r@ == spec_mic_e_status(a, b, c),
{
    let custom: bool = a == 1 || b == 1 || c == 1;
    let standard: bool = a == 2 || b == 2 || c == 2;
    let value: u8 = (if a != 0 {
        4u8
    } else {
        0
    }) + (if b != 0 {
        2u8
    } else {
        0
    }) + (if c != 0 {
        1u8
    } else {
        0
    });
    if custom && standard {
        "Unknown status"
    } else if custom {
        match value {
            0 => "Emergency",
            1 => "Custom-6",
            2 => "Custom-5",
            3 => "Custom-4",
            4 => "Custom-3",
            5 => "Custom-2",
            6 => "Custom-1",
            _ => "Custom-0",
        }
    } else {
        match value {
            0 => "Emergency",
            1 => "Priority",
            2 => "Special",
            3 => "Committed",
            4 => "Returning",
            5 => "In Service",
            6 => "En Route",
            _ => "Off Duty",
        }
    }
}

// ---------------------------------------------------------------------------
// Comment
// ---------------------------------------------------------------------------

/// The characters in front of a comment that tell the make of the radio.
pub open spec fn spec_is_device_mark(c: char) -> bool {
    c == '>' || c == ']' || c == '`' || c == '\''
}

/// Three base-91 digits and a closing brace in front: the altitude in metres.
pub open spec fn spec_comment_altitude(text: Seq<char>) -> Option<Altitude> {
    if text.len() >= 4 && text[3] == '}' && '!' <= text[0] <= '{' && '!' <= text[1] <= '{' && '!'
        <= text[2] <= '{' {
        match spec_base91(seq![text[0] as u8, text[1] as u8, text[2] as u8]) {
            Some(value) => Some(Altitude::Metres((value - ALTITUDE_OFFSET) as i32)),
            None => None,
        }
    } else {
        None
    }
}

/// The radio that the mark in front and the end of the text name, and how many characters of the
/// end belong to the name.
pub open spec fn spec_device(mark: char, text: Seq<char>) -> (Option<Seq<char>>, int) {
    let last = if text.len() > 0 {
        Some(text.last())
    } else {
        None
    };
    let before_last = if text.len() > 1 {
        Some(text[text.len() - 2])
    } else {
        None
    };
    if mark == '>' {
        match last {
            Some('=') => (Some("Kenwood TH-D72"@), 1),
            Some('^') => (Some("Kenwood TH-D74"@), 1),
            Some('&') => (Some("Kenwood TH-D75"@), 1),
            _ => (Some("Kenwood TH-D7A"@), 0),
        }
    } else if mark == ']' {
        match last {
            Some('=') => (Some("Kenwood TM-D710"@), 1),
            _ => (Some("Kenwood TM-D700"@), 0),
        }
    } else if mark == '`' && before_last == Some('_') {
        match last {
            Some(' ') => (Some("Yaesu VX-8"@), 2),
            Some('"') => (Some("Yaesu FTM-350"@), 2),
            Some('#') => (Some("Yaesu VX-8G"@), 2),
            Some('$') => (Some("Yaesu FT1D"@), 2),
            Some('%') => (Some("Yaesu FTM-400DR"@), 2),
            Some(')') => (Some("Yaesu FTM-100D"@), 2),
            Some('(') => (Some("Yaesu FT2D"@), 2),
            _ => (None, 0),
        }
    } else if mark == '\'' && before_last == Some('|') {
        match last {
            Some('3') => (Some("Byonics TinyTrak3"@), 2),
            Some('4') => (Some("Byonics TinyTrak4"@), 2),
            _ => (None, 0),
        }
    } else {
        (None, 0)
    }
}

/// The comment as device, altitude and remaining text.
pub open spec fn spec_mic_e_extras(all: Seq<char>) -> (
    Option<Seq<char>>,
    Option<Altitude>,
    Seq<char>,
) {
    let marked = all.len() > 0 && spec_is_device_mark(all[0]);
    let body = if marked {
        all.skip(1)
    } else {
        all
    };
    let altitude = spec_comment_altitude(body);
    let text = if altitude is Some {
        body.skip(4)
    } else {
        body
    };
    if marked {
        let (device, cut) = spec_device(all[0], text);
        (device, altitude, text.take(text.len() - cut))
    } else {
        (None, altitude, text)
    }
}

fn comment_altitude(text: &[char]) -> (r: Option<Altitude>)
    ensures
        r == spec_comment_altitude(text@),
{
    if text.len() < 4 || text[3] != '}' {
        return None;
    }
    let (a, b, c): (char, char, char) = (text[0], text[1], text[2]);
    if a < '!' || a > '{' || b < '!' || b > '{' || c < '!' || c > '{' {
        return None;
    }
    let mut digits: Vec<u8> = Vec::new();
    digits.push(a as u8);
    digits.push(b as u8);
    digits.push(c as u8);
    assert(digits@ =~= seq![a as u8, b as u8, c as u8]);
    match base91(digits.as_slice()) {
        Some(value) => Some(Altitude::Metres(value as i32 - ALTITUDE_OFFSET)),
        None => None,
    }
}

fn device(mark: char, text: &[char]) -> (r: (Option<&'static str>, usize))
    ensures
        r.1 <= text@.len(),
        spec_device(mark, text@).1 == r.1,
        match r.0 {
            Some(name) => spec_device(mark, text@).0 == Some(name@),
            None => spec_device(mark, text@).0 is None,
        },
{
    let n: usize = text.len();
    let last: Option<char> = if n > 0 {
        Some(text[n - 1])
    } else {
        None
    };
    let before_last: Option<char> = if n > 1 {
        Some(text[n - 2])
    } else {
        None
    };
    if mark == '>' {
        match last {
            Some('=') => (Some("Kenwood TH-D72"), 1),
            Some('^') => (Some("Kenwood TH-D74"), 1),
            Some('&') => (Some("Kenwood TH-D75"), 1),
            _ => (Some("Kenwood TH-D7A"), 0),
        }
    } else if mark == ']' {
        match last {
            Some('=') => (Some("Kenwood TM-D710"), 1),
            _ => (Some("Kenwood TM-D700"), 0),
        }
    } else if mark == '`' {
        match (before_last, last) {
            (Some('_'), Some(' ')) => (Some("Yaesu VX-8"), 2),
            (Some('_'), Some('"')) => (Some("Yaesu FTM-350"), 2),
            (Some('_'), Some('#')) => (Some("Yaesu VX-8G"), 2),
            (Some('_'), Some('$')) => (Some("Yaesu FT1D"), 2),
            (Some('_'), Some('%')) => (Some("Yaesu FTM-400DR"), 2),
            (Some('_'), Some(')')) => (Some("Yaesu FTM-100D"), 2),
            (Some('_'), Some('(')) => (Some("Yaesu FT2D"), 2),
            _ => (None, 0),
        }
    } else if mark == '\'' {
        match (before_last, last) {
            (Some('|'), Some('3')) => (Some("Byonics TinyTrak3"), 2),
            (Some('|'), Some('4')) => (Some("Byonics TinyTrak4"), 2),
            _ => (None, 0),
        }
    } else {
        (None, 0)
    }
}

/// Splits the Mic-E comment into device type, altitude and remaining text.
pub fn mic_e_extras(all: &[char]) -> (r: (Option<&'static str>, Option<Altitude>, String))
    ensures
        r.1 == spec_mic_e_extras(all@).1,
        r.2@ == spec_mic_e_extras(all@).2,
        match r.0 {
            Some(name) => spec_mic_e_extras(all@).0 == Some(name@),
            None => spec_mic_e_extras(all@).0 is None,
        },
{
    let n: usize = all.len();
    let marked: bool = n > 0 && (all[0] == '>' || all[0] == ']' || all[0] == '`' || all[0]
        == '\'');
    let start: usize = if marked {
        1
    } else {
        0
    };
    let body = slice_subrange(all, start, n);
    assert(body@ =~= if marked {
        all@.skip(1)
    } else {
        all@
    });
    let altitude: Option<Altitude> = comment_altitude(body);
    let text = if altitude.is_some() {
        slice_subrange(body, 4, body.len())
    } else {
        body
    };
    assert(text@ =~= if altitude is Some {
        body@.skip(4)
    } else {
        body@
    });
    if marked {
        let (name, cut) = device(all[0], text);
        (name, altitude, string_of(slice_subrange(text, 0, text.len() - cut)))
    } else {
        (None, altitude, string_of(text))
    }
}

// ---------------------------------------------------------------------------
// Report
// ---------------------------------------------------------------------------

/// A byte of the information field as the number it stands for.
pub open spec fn spec_field(body: Seq<u8>, i: int) -> int {
    body[i] - 28
}

/// Degrees of longitude, where an offset of 100 and two wrapped ranges are undone.
pub open spec fn spec_lon_degrees(field: int, offset: bool) -> int {
    let d = field + if offset {
        100int
    } else {
        0
    };
    if 180 <= d <= 189 {
        d - 80
    } else if 190 <= d <= 199 {
        d - 190
    } else {
        d
    }
}

/// `n`, less `step` where it is at least `from`.
pub open spec fn spec_wrapped(n: int, from: int, step: int) -> int {
    if n >= from {
        n - step
    } else {
        n
    }
}

/// Every number of the report lies in its range.
pub open spec fn spec_mic_e_in_range(dest: Seq<char>, body: Seq<u8>) -> bool {
    &&& 0 <= spec_lon_degrees(spec_field(body, 0), dest[4] >= 'P') <= 179
    &&& 0 <= spec_wrapped(spec_field(body, 1), 60, 60) <= 59
    &&& 0 <= spec_field(body, 2) <= 99
    &&& spec_field(body, 3) >= 0
    &&& spec_field(body, 4) >= 0
    &&& spec_field(body, 5) >= 0
    &&& spec_dest_latitude(dest) <= 90 * 6000
}

/// The longitude without its sign, in hundredths of a minute.
pub open spec fn spec_mic_e_longitude(dest: Seq<char>, body: Seq<u8>) -> int {
    spec_lon_degrees(spec_field(body, 0), dest[4] >= 'P') * 6000 + spec_wrapped(
        spec_field(body, 1),
        60,
        60,
    ) * 100 + spec_field(body, 2)
}

pub open spec fn spec_mic_e_speed(body: Seq<u8>) -> int {
    spec_wrapped(spec_field(body, 3) * 10 + spec_field(body, 4) / 10, 800, 800)
}

pub open spec fn spec_mic_e_course(body: Seq<u8>) -> int {
    spec_wrapped((spec_field(body, 4) % 10) * 100 + spec_field(body, 5), 400, 400)
}

/// A Mic-E report: fix, status and device.
pub open spec fn spec_mic_e(dest: Seq<char>, body: Seq<u8>) -> Option<
    (FixView, Seq<char>, Option<Seq<char>>),
> {
    if !spec_is_mic_e_dest(dest) || body.len() < 8 || !spec_mic_e_in_range(dest, body) {
        None
    } else {
        let lat = spec_dest_latitude(dest);
        let lon = spec_mic_e_longitude(dest, body);
        let (device, altitude, comment) = spec_mic_e_extras(spec_text_of(body.skip(8)));
        Some(
            (
                spec_take_feet_altitude(
                    FixView {
                        lat: Angle::Hundredths(
                            (if dest[3] >= 'P' {
                                lat
                            } else {
                                -lat
                            }) as i32,
                        ),
                        lon: Angle::Hundredths(
                            (if dest[5] >= 'P' {
                                -lon
                            } else {
                                lon
                            }) as i32,
                        ),
                        table: body[7],
                        code: body[6],
                        course: spec_known_course(spec_mic_e_course(body)),
                        speed_knots: Some(Speed::Knots(spec_mic_e_speed(body) as u16)),
                        altitude_m: altitude,
                        comment,
                    },
                ),
                spec_mic_e_status(
                    spec_dest_kind(dest, 0),
                    spec_dest_kind(dest, 1),
                    spec_dest_kind(dest, 2),
                ),
                device,
            ),
        )
    }
}

/// Reads a Mic-E report: fix, status and device.
pub(crate) fn mic_e(dest_call: &str, body: &[u8]) -> (r: Option<
    (Fix, &'static str, Option<&'static str>),
>)
    ensures
        match r {
            Some((fix, status, device)) => spec_mic_e(dest_call@, body@) == Some(
                (
                    fix@,
                    status@,
                    match device {
                        Some(name) => Some(name@),
                        None => None,
                    },
                ),
            ),
            None => spec_mic_e(dest_call@, body@) is None,
        },
{
    let dest = chars_of(dest_call);
    let (digits, kinds) = match mic_e_dest(dest.as_slice()) {
        Some(read) => read,
        None => return None,
    };
    if body.len() < 8 {
        return None;
    }
    let north: bool = dest[3] >= 'P';
    let lon_offset: bool = dest[4] >= 'P';
    let west: bool = dest[5] >= 'P';
    assert(digits@[0] == spec_dest_digit(dest@, 0));
    let lat: i32 = ((digits[0] * 10 + digits[1]) * 6000 + (digits[2] * 10 + digits[3]) * 100
        + digits[4] * 10 + digits[5]) as i32;
    assert(lat == spec_dest_latitude(dest@));

    let mut lon_deg: i32 = body[0] as i32 - 28;
    if lon_offset {
        lon_deg = lon_deg + 100;
    }
    if 180 <= lon_deg && lon_deg <= 189 {
        lon_deg = lon_deg - 80;
    } else if 190 <= lon_deg && lon_deg <= 199 {
        lon_deg = lon_deg - 190;
    }
    let mut lon_min: i32 = body[1] as i32 - 28;
    if lon_min >= 60 {
        lon_min = lon_min - 60;
    }
    let lon_hundredths: i32 = body[2] as i32 - 28;
    let sp: i32 = body[3] as i32 - 28;
    let dc: i32 = body[4] as i32 - 28;
    let se: i32 = body[5] as i32 - 28;
    let valid: bool = 0 <= lon_deg && lon_deg <= 179 && 0 <= lon_min && lon_min <= 59 && 0
        <= lon_hundredths && lon_hundredths <= 99 && sp >= 0 && dc >= 0 && se >= 0 && lat <= 90
        * 6000;
    if !valid {
        return None;
    }
    let lon: i32 = lon_deg * 6000 + lon_min * 100 + lon_hundredths;

    let mut speed: i32 = sp * 10 + dc / 10;
    if speed >= 800 {
        speed = speed - 800;
    }
    let mut course: i32 = (dc % 10) * 100 + se;
    if course >= 400 {
        course = course - 400;
    }
    let extra = slice_subrange(body, 8, body.len());
    assert(extra@ =~= body@.skip(8));
    let (device, altitude_m, comment) = mic_e_extras(text_of(extra).as_slice());
    let mut fix = Fix {
        lat: Angle::Hundredths(if north {
            lat
        } else {
            -lat
        }),
        lon: Angle::Hundredths(if west {
            -lon
        } else {
            lon
        }),
        table: body[7],
        code: body[6],
        course: known_course(course),
        speed_knots: Some(Speed::Knots(speed as u16)),
        altitude_m,
        comment,
    };
    take_feet_altitude(&mut fix);
    Some((fix, mic_e_status(kinds[0], kinds[1], kinds[2]), device))
}

// ---------------------------------------------------------------------------
// Laws
// ---------------------------------------------------------------------------

/// A Mic-E fix lies on the globe, and its course, where known, is between 1 and 360 degrees.
pub proof fn law_mic_e_in_range(dest: Seq<char>, body: Seq<u8>)
    ensures
        spec_mic_e(dest, body) matches Some((fix, _, _)) ==> {
            &&& -90 * 6000 <= fix.lat.spec_units() <= 90 * 6000
            &&& -180 * 6000 < fix.lon.spec_units() < 180 * 6000
            &&& (fix.course matches Some(c) ==> 1 <= c <= 360)
        },
{
}

/// A destination character whose message bit is clear: a digit, or L.
pub open spec fn spec_bit_clear(c: char) -> bool {
    '0' <= c <= '9' || c == 'L'
}

/// A destination character with a custom message bit: A to K.
pub open spec fn spec_bit_custom(c: char) -> bool {
    'A' <= c <= 'K'
}

/// A destination character with a standard message bit: P to Z.
pub open spec fn spec_bit_standard(c: char) -> bool {
    'P' <= c <= 'Z'
}

/// The first three characters of the destination name the status by their message bits.
pub proof fn law_mic_e_status_by_its_bits(dest: Seq<char>, body: Seq<u8>)
    requires
        spec_mic_e(dest, body) is Some,
    ensures
        ({
            let (_, status, _) = spec_mic_e(dest, body)->0;
            &&& spec_bit_standard(dest[0]) && spec_bit_standard(dest[1]) && spec_bit_standard(dest[2]) ==> status == "Off Duty"@
            &&& spec_bit_standard(dest[0]) && spec_bit_standard(dest[1]) && spec_bit_clear(dest[2]) ==> status == "En Route"@
            &&& spec_bit_standard(dest[0]) && spec_bit_clear(dest[1]) && spec_bit_standard(dest[2]) ==> status == "In Service"@
            &&& spec_bit_standard(dest[0]) && spec_bit_clear(dest[1]) && spec_bit_clear(dest[2]) ==> status == "Returning"@
            &&& spec_bit_clear(dest[0]) && spec_bit_standard(dest[1]) && spec_bit_standard(dest[2]) ==> status == "Committed"@
            &&& spec_bit_clear(dest[0]) && spec_bit_standard(dest[1]) && spec_bit_clear(dest[2]) ==> status == "Special"@
            &&& spec_bit_clear(dest[0]) && spec_bit_clear(dest[1]) && spec_bit_standard(dest[2]) ==> status == "Priority"@
            &&& spec_bit_custom(dest[0]) && spec_bit_custom(dest[1]) && spec_bit_custom(dest[2]) ==> status == "Custom-0"@
            &&& spec_bit_custom(dest[0]) && spec_bit_custom(dest[1]) && spec_bit_clear(dest[2]) ==> status == "Custom-1"@
            &&& spec_bit_custom(dest[0]) && spec_bit_clear(dest[1]) && spec_bit_custom(dest[2]) ==> status == "Custom-2"@
            &&& spec_bit_custom(dest[0]) && spec_bit_clear(dest[1]) && spec_bit_clear(dest[2]) ==> status == "Custom-3"@
            &&& spec_bit_clear(dest[0]) && spec_bit_custom(dest[1]) && spec_bit_custom(dest[2]) ==> status == "Custom-4"@
            &&& spec_bit_clear(dest[0]) && spec_bit_custom(dest[1]) && spec_bit_clear(dest[2]) ==> status == "Custom-5"@
            &&& spec_bit_clear(dest[0]) && spec_bit_clear(dest[1]) && spec_bit_custom(dest[2]) ==> status == "Custom-6"@
            &&& spec_bit_clear(dest[0]) && spec_bit_clear(dest[1]) && spec_bit_clear(dest[2])
                ==> status == "Emergency"@
            &&& (exists|i: int, j: int|
                0 <= i < 3 && 0 <= j < 3 && spec_bit_custom(#[trigger] dest[i])
                    && spec_bit_standard(#[trigger] dest[j])) ==> status == "Unknown status"@
        }),
{
    assert(spec_mic_e_char(dest[0]) is Some);
    assert(spec_mic_e_char(dest[1]) is Some);
    assert(spec_mic_e_char(dest[2]) is Some);
}

/// `c` carries the digit `d`: as itself, as the letter `d` places behind A or behind P, or, for a
/// zero, as K, L or Z.
pub open spec fn spec_carries(c: char, d: int) -> bool {
    ||| 0 <= d <= 9 && (c as int == '0' as int + d || c as int == 'A' as int + d || c as int
        == 'P' as int + d)
    ||| d == 0 && (c == 'K' || c == 'L' || c == 'Z')
}

/// `b` carries `degrees` of longitude, with the offset of a hundred degrees set or not: below ten
/// and from 100 to 109 the offset is set and the byte is moved out of the range of the others.
pub open spec fn spec_carries_degrees(b: u8, offset: bool, degrees: int) -> bool {
    ||| 0 <= degrees <= 9 && offset && b == degrees + 118
    ||| 10 <= degrees <= 99 && !offset && b == degrees + 28
    ||| 100 <= degrees <= 109 && offset && b == degrees + 8
    ||| 110 <= degrees <= 179 && offset && b == degrees - 72
}

/// A report that was made from its numbers reads as these numbers: latitude `DDMM.hh` in six
/// digits, north where the fourth character is from P to Z; longitude in degrees, minutes and
/// hundredths, west where the sixth character is from P to Z; speed in knots and course in degrees,
/// each of which may be sent with its offset; symbol code and table.
pub proof fn law_mic_e_reads_its_numbers(
    dest: Seq<char>,
    body: Seq<u8>,
    d: Seq<int>,
    lon: (int, int, int),
    speed: int,
    course: int,
)
    requires
        dest.len() == 6,
        d.len() == 6,
        forall|i: int| 0 <= i < 6 ==> spec_carries(#[trigger] dest[i], d[i]),
        d[0] * 60000 + d[1] * 6000 + d[2] * 1000 + d[3] * 100 + d[4] * 10 + d[5] <= 540000,
        body.len() >= 8,
        spec_carries_degrees(body[0], 'P' <= dest[4] <= 'Z', lon.0),
        0 <= lon.1 <= 59,
        body[1] == lon.1 + 28 || body[1] == lon.1 + 88,
        0 <= lon.2 <= 99,
        body[2] == lon.2 + 28,
        0 <= speed <= 799,
        0 <= course <= 360,
        body[3] == speed / 10 + 28 || body[3] == speed / 10 + 108,
        body[4] == speed % 10 * 10 + course / 100 + 28 || body[4] == speed % 10 * 10 + course / 100
            + 32,
        body[5] == course % 100 + 28,
    ensures
        spec_mic_e(dest, body) is Some,
        ({
            let (fix, _, _) = spec_mic_e(dest, body)->0;
            let lat = d[0] * 60000 + d[1] * 6000 + d[2] * 1000 + d[3] * 100 + d[4] * 10 + d[5];
            let east = lon.0 * 6000 + lon.1 * 100 + lon.2;
            &&& fix.lat == Angle::Hundredths(
                (if 'P' <= dest[3] <= 'Z' {
                    lat
                } else {
                    -lat
                }) as i32,
            )
            &&& fix.lon == Angle::Hundredths(
                (if 'P' <= dest[5] <= 'Z' {
                    -east
                } else {
                    east
                }) as i32,
            )
            &&& fix.speed_knots == Some(Speed::Knots(speed as u16))
            &&& fix.course == (if course == 0 {
                None
            } else {
                Some(course as u16)
            })
            &&& fix.code == body[6]
            &&& fix.table == body[7]
        }),
{
    assert forall|i: int| 0 <= i < 6 implies spec_mic_e_char(#[trigger] dest[i]) is Some
        && spec_dest_digit(dest, i) == d[i] by {
        assert(spec_carries(dest[i], d[i]));
    }
    assert(spec_carries(dest[3], d[3]) && spec_carries(dest[4], d[4]) && spec_carries(dest[5], d[5]));
    assert(spec_dest_digit(dest, 0) == d[0]);
    assert(spec_dest_digit(dest, 1) == d[1]);
    assert(spec_dest_digit(dest, 2) == d[2]);
    assert(spec_dest_digit(dest, 3) == d[3]);
    assert(spec_dest_digit(dest, 4) == d[4]);
    assert(spec_dest_digit(dest, 5) == d[5]);
}

/// What is no Mic-E report is refused: the destination has six characters that each carry a digit,
/// the report has at least eight bytes, and those of hundredths, speed and course are at least 28.
pub proof fn law_mic_e_refuses_others(dest: Seq<char>, body: Seq<u8>)
    requires
        spec_mic_e(dest, body) is Some,
    ensures
        dest.len() == 6,
        forall|i: int|
            0 <= i < 6 ==> spec_bit_clear(#[trigger] dest[i]) || spec_bit_custom(dest[i])
                || spec_bit_standard(dest[i]),
        body.len() >= 8,
        28 <= body[2] <= 127,
        28 <= body[3] && 28 <= body[4] && 28 <= body[5],
{
    assert forall|i: int| 0 <= i < 6 implies spec_bit_clear(#[trigger] dest[i]) || spec_bit_custom(
        dest[i],
    ) || spec_bit_standard(dest[i]) by {
        assert(spec_mic_e_char(dest[i]) is Some);
    }
}

/// A comment without an altitude that was sent by `mark`, `text` and `tail`.
pub open spec fn spec_sent_by(mark: char, text: Seq<char>, tail: Seq<char>) -> (
    Option<Seq<char>>,
    Option<Altitude>,
    Seq<char>,
) {
    spec_mic_e_extras(seq![mark] + text + tail)
}

/// The radios are told apart by the character in front of the comment and those behind it, which do
/// not belong to the comment.
pub proof fn law_mic_e_devices(text: Seq<char>)
    requires
        text.len() <= 3 || text[3] != '}',
    ensures
        spec_sent_by('>', text, seq!['=']) == (Some("Kenwood TH-D72"@), None::<Altitude>, text),
        spec_sent_by('>', text, seq!['^']) == (Some("Kenwood TH-D74"@), None::<Altitude>, text),
        spec_sent_by('>', text, seq!['&']) == (Some("Kenwood TH-D75"@), None::<Altitude>, text),
        spec_sent_by(']', text, seq!['=']) == (Some("Kenwood TM-D710"@), None::<Altitude>, text),
        spec_sent_by('`', text, seq!['_', ' ']) == (Some("Yaesu VX-8"@), None::<Altitude>, text),
        spec_sent_by('`', text, seq!['_', '"']) == (Some("Yaesu FTM-350"@), None::<Altitude>, text),
        spec_sent_by('`', text, seq!['_', '#']) == (Some("Yaesu VX-8G"@), None::<Altitude>, text),
        spec_sent_by('`', text, seq!['_', '$']) == (Some("Yaesu FT1D"@), None::<Altitude>, text),
        spec_sent_by('`', text, seq!['_', '%']) == (Some("Yaesu FTM-400DR"@), None::<Altitude>, text),
        spec_sent_by('`', text, seq!['_', ')']) == (Some("Yaesu FTM-100D"@), None::<Altitude>, text),
        spec_sent_by('`', text, seq!['_', '(']) == (Some("Yaesu FT2D"@), None::<Altitude>, text),
        spec_sent_by('\'', text, seq!['|', '3']) == (Some("Byonics TinyTrak3"@), None::<Altitude>, text),
        spec_sent_by('\'', text, seq!['|', '4']) == (Some("Byonics TinyTrak4"@), None::<Altitude>, text),
        text.len() == 0 || (text.last() != '=' && text.last() != '^' && text.last() != '&')
            ==> spec_sent_by('>', text, seq![]) == (Some("Kenwood TH-D7A"@), None::<Altitude>, text),
        text.len() == 0 || text.last() != '=' ==> spec_sent_by(']', text, seq![]) == (
            Some("Kenwood TM-D700"@),
            None::<Altitude>,
            text,
        ),
        text.len() < 2 || text[text.len() - 2] != '_' ==> spec_sent_by('`', text, seq![]) == (
            None::<Seq<char>>,
            None::<Altitude>,
            text,
        ),
        text.len() < 2 || text[text.len() - 2] != '|' ==> spec_sent_by('\'', text, seq![]) == (
            None::<Seq<char>>,
            None::<Altitude>,
            text,
        ),
        text.len() == 0 || (text[0] != '>' && text[0] != ']' && text[0] != '`' && text[0] != '\'')
            ==> spec_mic_e_extras(text) == (None::<Seq<char>>, None::<Altitude>, text),
{
    let none = Seq::<char>::empty();
    lemma_sent_by('>', text, seq!['=']);
    lemma_sent_by('>', text, seq!['^']);
    lemma_sent_by('>', text, seq!['&']);
    lemma_sent_by(']', text, seq!['=']);
    lemma_sent_by('`', text, seq!['_', ' ']);
    lemma_sent_by('`', text, seq!['_', '"']);
    lemma_sent_by('`', text, seq!['_', '#']);
    lemma_sent_by('`', text, seq!['_', '$']);
    lemma_sent_by('`', text, seq!['_', '%']);
    lemma_sent_by('`', text, seq!['_', ')']);
    lemma_sent_by('`', text, seq!['_', '(']);
    lemma_sent_by('\'', text, seq!['|', '3']);
    lemma_sent_by('\'', text, seq!['|', '4']);
    lemma_sent_by('>', text, none);
    lemma_sent_by(']', text, none);
    lemma_sent_by('`', text, none);
    lemma_sent_by('\'', text, none);
    assert(text.take(text.len() as int) =~= text);
}

proof fn lemma_sent_by(mark: char, text: Seq<char>, tail: Seq<char>)
    requires
        spec_is_device_mark(mark),
        text.len() <= 3 || text[3] != '}',
        tail.len() <= 2,
        forall|i: int| 0 <= i < tail.len() ==> #[trigger] tail[i] != '}',
    ensures
        ({
            let (device, cut) = spec_device(mark, text + tail);
            spec_sent_by(mark, text, tail) == (
                device,
                None::<Altitude>,
                (text + tail).take((text + tail).len() - cut),
            )
        }),
        (text + tail).take(text.len() as int) == text,
        tail.len() > 0 ==> (text + tail).last() == tail.last(),
        tail.len() == 0 ==> text + tail == text,
        tail.len() == 2 ==> (text + tail)[text.len() as int] == tail[0],
{
    let all = seq![mark] + text + tail;
    let whole = text + tail;
    assert(all.skip(1) =~= whole);
    assert(whole.take(text.len() as int) =~= text);
    assert(tail.len() == 0 ==> whole =~= text);
    if whole.len() >= 4 {
        if text.len() <= 3 {
            assert(whole[3] == tail[3 - text.len()]);
        } else {
            assert(whole[3] == text[3]);
        }
    }
}

/// Three base-91 digits and a brace in front of the comment are the altitude in metres above ten
/// kilometres below the sea; they follow the character that tells the radio, where there is one,
/// and do not belong to the comment.
pub proof fn law_mic_e_altitude(a: int, b: int, c: int, text: Seq<char>, mark: char)
    requires
        0 <= a <= 90,
        0 <= b <= 90,
        0 <= c <= 90,
        a + 33 != '>' as int && a + 33 != ']' as int && a + 33 != '`' as int && a + 33
            != '\'' as int,
        mark == '>' || mark == ']' || mark == '`' || mark == '\'',
    ensures
        ({
            let sent = seq![(a + 33) as char, (b + 33) as char, (c + 33) as char, '}'] + text;
            let metres = Altitude::Metres((a * 8281 + b * 91 + c - 10000) as i32);
            &&& spec_mic_e_extras(sent) == (None::<Seq<char>>, Some(metres), text)
            &&& spec_mic_e_extras(seq![mark] + sent).1 == Some(metres)
        }),
{
    let sent = seq![(a + 33) as char, (b + 33) as char, (c + 33) as char, '}'] + text;
    let digits = seq![sent[0] as u8, sent[1] as u8, sent[2] as u8];
    reveal_with_fuel(spec_base91, 4);
    assert(digits.drop_last() =~= seq![sent[0] as u8, sent[1] as u8]);
    assert(digits.drop_last().drop_last() =~= seq![sent[0] as u8]);
    assert(digits.drop_last().drop_last().drop_last() =~= Seq::<u8>::empty());
    assert(spec_base91(digits) == Some((a * 8281 + b * 91 + c) as nat));
    assert(sent.skip(4) =~= text);
    assert((seq![mark] + sent).skip(1) =~= sent);
}

/// Device, altitude and comment are those of the text behind the first eight bytes, as far as no
/// altitude in feet is taken out of the comment.
pub proof fn law_mic_e_comment_follows_the_report(dest: Seq<char>, body: Seq<u8>)
    requires
        spec_mic_e(dest, body) is Some,
    ensures
        ({
            let (fix, _, device) = spec_mic_e(dest, body)->0;
            let (sent, altitude, comment) = spec_mic_e_extras(spec_text_of(body.skip(8)));
            &&& device == sent
            &&& altitude is Some ==> fix.altitude_m == altitude
            &&& fix.altitude_m is None ==> fix.comment == comment
        }),
{
}

} // verus!
