//! Names of the APRS map symbols.

use vstd::prelude::*;

verus! {

/// Symbols of the primary table.
pub open spec fn spec_primary_symbol(code: char) -> Option<Seq<char>> {
    match code {
        '!' => Some("police station"@),
        '#' => Some("digipeater"@),
        '$' => Some("phone"@),
        '%' => Some("DX cluster"@),
        '&' => Some("HF gateway"@),
        '\'' => Some("small aircraft"@),
        '(' => Some("mobile satellite station"@),
        ')' => Some("wheelchair"@),
        '*' => Some("snowmobile"@),
        '+' => Some("Red Cross"@),
        ',' => Some("Boy Scouts"@),
        '-' => Some("house"@),
        '.' => Some("X"@),
        '/' => Some("red dot"@),
        '0'..='9' => Some("numbered circle"@),
        ':' => Some("fire"@),
        ';' => Some("campground"@),
        '<' => Some("motorcycle"@),
        '=' => Some("railroad engine"@),
        '>' => Some("car"@),
        '?' => Some("file server"@),
        '@' => Some("hurricane"@),
        'A' => Some("aid station"@),
        'B' => Some("BBS"@),
        'C' => Some("canoe"@),
        'E' => Some("eyeball"@),
        'F' => Some("tractor"@),
        'G' => Some("grid square"@),
        'H' => Some("hotel"@),
        'I' => Some("TCP/IP"@),
        'K' => Some("school"@),
        'L' => Some("PC user"@),
        'M' => Some("MacAPRS"@),
        'N' => Some("NTS station"@),
        'O' => Some("balloon"@),
        'P' => Some("police"@),
        'R' => Some("RV"@),
        'S' => Some("space shuttle"@),
        'T' => Some("SSTV"@),
        'U' => Some("bus"@),
        'V' => Some("ATV"@),
        'W' => Some("weather service site"@),
        'X' => Some("helicopter"@),
        'Y' => Some("yacht"@),
        'Z' => Some("WinAPRS"@),
        '[' => Some("jogger"@),
        '\\' => Some("triangle (DF)"@),
        ']' => Some("mailbox"@),
        '^' => Some("large aircraft"@),
        '_' => Some("weather station"@),
        '`' => Some("dish antenna"@),
        'a' => Some("ambulance"@),
        'b' => Some("bicycle"@),
        'c' => Some("incident command post"@),
        'd' => Some("fire department"@),
        'e' => Some("horse"@),
        'f' => Some("fire truck"@),
        'g' => Some("glider"@),
        'h' => Some("hospital"@),
        'i' => Some("IOTA"@),
        'j' => Some("jeep"@),
        'k' => Some("truck"@),
        'l' => Some("laptop"@),
        'm' => Some("Mic-E repeater"@),
        'n' => Some("node"@),
        'o' => Some("EOC"@),
        'p' => Some("rover"@),
        'q' => Some("grid square"@),
        'r' => Some("repeater"@),
        's' => Some("boat"@),
        't' => Some("truck stop"@),
        'u' => Some("semi truck"@),
        'v' => Some("van"@),
        'w' => Some("water station"@),
        'x' => Some("X-APRS"@),
        'y' => Some("Yagi at QTH"@),
        _ => None,
    }
}

/// Symbols of the alternate table.
pub open spec fn spec_alternate_symbol(code: char) -> Option<Seq<char>> {
    match code {
        '#' => Some("digipeater"@),
        '&' => Some("gateway"@),
        '>' => Some("car"@),
        '_' => Some("weather site"@),
        'a' => Some("ARES"@),
        'k' => Some("SUV"@),
        'u' => Some("truck"@),
        'v' => Some("van"@),
        _ => None,
    }
}

/// Digits and capital letters in place of a table choose the alternate table and are drawn over
/// its symbol.
pub open spec fn spec_is_overlay(table: char) -> bool {
    '0' <= table <= '9' || 'A' <= table <= 'Z'
}

/// The name of a symbol, with its overlay, or the two characters of one without a name.
pub open spec fn spec_symbol_label(table: u8, code: u8) -> Seq<char> {
    let overlay = spec_is_overlay(table as char);
    let name = if table as char == '/' {
        spec_primary_symbol(code as char)
    } else if table as char == '\\' || overlay {
        spec_alternate_symbol(code as char)
    } else {
        None
    };
    match name {
        Some(name) => if overlay {
            name + " (overlay "@ + seq![table as char] + ")"@
        } else {
            name
        },
        None => "symbol "@ + seq![table as char, code as char],
    }
}

fn primary_symbol(code: char) -> (r: Option<&'static str>)
    ensures
        match r {
            Some(name) => spec_primary_symbol(code) == Some(name@),
            None => spec_primary_symbol(code) is None,
        },
{
    match code {
        '!' => Some("police station"),
        '#' => Some("digipeater"),
        '$' => Some("phone"),
        '%' => Some("DX cluster"),
        '&' => Some("HF gateway"),
        '\'' => Some("small aircraft"),
        '(' => Some("mobile satellite station"),
        ')' => Some("wheelchair"),
        '*' => Some("snowmobile"),
        '+' => Some("Red Cross"),
        ',' => Some("Boy Scouts"),
        '-' => Some("house"),
        '.' => Some("X"),
        '/' => Some("red dot"),
        '0'..='9' => Some("numbered circle"),
        ':' => Some("fire"),
        ';' => Some("campground"),
        '<' => Some("motorcycle"),
        '=' => Some("railroad engine"),
        '>' => Some("car"),
        '?' => Some("file server"),
        '@' => Some("hurricane"),
        'A' => Some("aid station"),
        'B' => Some("BBS"),
        'C' => Some("canoe"),
        'E' => Some("eyeball"),
        'F' => Some("tractor"),
        'G' => Some("grid square"),
        'H' => Some("hotel"),
        'I' => Some("TCP/IP"),
        'K' => Some("school"),
        'L' => Some("PC user"),
        'M' => Some("MacAPRS"),
        'N' => Some("NTS station"),
        'O' => Some("balloon"),
        'P' => Some("police"),
        'R' => Some("RV"),
        'S' => Some("space shuttle"),
        'T' => Some("SSTV"),
        'U' => Some("bus"),
        'V' => Some("ATV"),
        'W' => Some("weather service site"),
        'X' => Some("helicopter"),
        'Y' => Some("yacht"),
        'Z' => Some("WinAPRS"),
        '[' => Some("jogger"),
        '\\' => Some("triangle (DF)"),
        ']' => Some("mailbox"),
        '^' => Some("large aircraft"),
        '_' => Some("weather station"),
        '`' => Some("dish antenna"),
        'a' => Some("ambulance"),
        'b' => Some("bicycle"),
        'c' => Some("incident command post"),
        'd' => Some("fire department"),
        'e' => Some("horse"),
        'f' => Some("fire truck"),
        'g' => Some("glider"),
        'h' => Some("hospital"),
        'i' => Some("IOTA"),
        'j' => Some("jeep"),
        'k' => Some("truck"),
        'l' => Some("laptop"),
        'm' => Some("Mic-E repeater"),
        'n' => Some("node"),
        'o' => Some("EOC"),
        'p' => Some("rover"),
        'q' => Some("grid square"),
        'r' => Some("repeater"),
        's' => Some("boat"),
        't' => Some("truck stop"),
        'u' => Some("semi truck"),
        'v' => Some("van"),
        'w' => Some("water station"),
        'x' => Some("X-APRS"),
        'y' => Some("Yagi at QTH"),
        _ => None,
    }
}

fn alternate_symbol(code: char) -> (r: Option<&'static str>)
    ensures
        match r {
            Some(name) => spec_alternate_symbol(code) == Some(name@),
            None => spec_alternate_symbol(code) is None,
        },
{
    match code {
        '#' => Some("digipeater"),
        '&' => Some("gateway"),
        '>' => Some("car"),
        '_' => Some("weather site"),
        'a' => Some("ARES"),
        'k' => Some("SUV"),
        'u' => Some("truck"),
        'v' => Some("van"),
        _ => None,
    }
}

/// The name of a symbol, with its overlay, or the two characters of one without a name.
pub fn symbol_label(table: u8, code: u8) -> (r: String)
    ensures
        r@ == spec_symbol_label(table, code),
{
    let t: char = table as char;
    let overlay: bool = ('0' <= t && t <= '9') || ('A' <= t && t <= 'Z');
    let name: Option<&'static str> = if t == '/' {
        primary_symbol(code as char)
    } else if t == '\\' || overlay {
        alternate_symbol(code as char)
    } else {
        None
    };
    match name {
        Some(name) => {
            let mut out = String::from_str(name);
            if overlay {
                out.append(" (overlay ");
                out.push(t);
                out.append(")");
                assert(out@ =~= name@ + " (overlay "@ + seq![t] + ")"@);
            }
            out
        },
        None => {
            let mut out = String::from_str("symbol ");
            out.push(t);
            out.push(code as char);
            assert(out@ =~= "symbol "@ + seq![t, code as char]);
            out
        },
    }
}

/// The symbols of the primary table, which a slash names.
pub proof fn law_primary_symbols()
    ensures
        spec_symbol_label('/' as u8, '!' as u8) == "police station"@,
        spec_symbol_label('/' as u8, '#' as u8) == "digipeater"@,
        spec_symbol_label('/' as u8, '$' as u8) == "phone"@,
        spec_symbol_label('/' as u8, '%' as u8) == "DX cluster"@,
        spec_symbol_label('/' as u8, '&' as u8) == "HF gateway"@,
        spec_symbol_label('/' as u8, '\'' as u8) == "small aircraft"@,
        spec_symbol_label('/' as u8, '(' as u8) == "mobile satellite station"@,
        spec_symbol_label('/' as u8, ')' as u8) == "wheelchair"@,
        spec_symbol_label('/' as u8, '*' as u8) == "snowmobile"@,
        spec_symbol_label('/' as u8, '+' as u8) == "Red Cross"@,
        spec_symbol_label('/' as u8, ',' as u8) == "Boy Scouts"@,
        spec_symbol_label('/' as u8, '-' as u8) == "house"@,
        spec_symbol_label('/' as u8, '.' as u8) == "X"@,
        spec_symbol_label('/' as u8, '/' as u8) == "red dot"@,
        spec_symbol_label('/' as u8, ':' as u8) == "fire"@,
        spec_symbol_label('/' as u8, ';' as u8) == "campground"@,
        spec_symbol_label('/' as u8, '<' as u8) == "motorcycle"@,
        spec_symbol_label('/' as u8, '=' as u8) == "railroad engine"@,
        spec_symbol_label('/' as u8, '>' as u8) == "car"@,
        spec_symbol_label('/' as u8, '?' as u8) == "file server"@,
        spec_symbol_label('/' as u8, '@' as u8) == "hurricane"@,
        spec_symbol_label('/' as u8, 'A' as u8) == "aid station"@,
        spec_symbol_label('/' as u8, 'B' as u8) == "BBS"@,
        spec_symbol_label('/' as u8, 'C' as u8) == "canoe"@,
        spec_symbol_label('/' as u8, 'E' as u8) == "eyeball"@,
        spec_symbol_label('/' as u8, 'F' as u8) == "tractor"@,
        spec_symbol_label('/' as u8, 'G' as u8) == "grid square"@,
        spec_symbol_label('/' as u8, 'H' as u8) == "hotel"@,
        spec_symbol_label('/' as u8, 'I' as u8) == "TCP/IP"@,
        spec_symbol_label('/' as u8, 'K' as u8) == "school"@,
        spec_symbol_label('/' as u8, 'L' as u8) == "PC user"@,
        spec_symbol_label('/' as u8, 'M' as u8) == "MacAPRS"@,
        spec_symbol_label('/' as u8, 'N' as u8) == "NTS station"@,
        spec_symbol_label('/' as u8, 'O' as u8) == "balloon"@,
        spec_symbol_label('/' as u8, 'P' as u8) == "police"@,
        spec_symbol_label('/' as u8, 'R' as u8) == "RV"@,
        spec_symbol_label('/' as u8, 'S' as u8) == "space shuttle"@,
        spec_symbol_label('/' as u8, 'T' as u8) == "SSTV"@,
        spec_symbol_label('/' as u8, 'U' as u8) == "bus"@,
        spec_symbol_label('/' as u8, 'V' as u8) == "ATV"@,
        spec_symbol_label('/' as u8, 'W' as u8) == "weather service site"@,
        spec_symbol_label('/' as u8, 'X' as u8) == "helicopter"@,
        spec_symbol_label('/' as u8, 'Y' as u8) == "yacht"@,
        spec_symbol_label('/' as u8, 'Z' as u8) == "WinAPRS"@,
        spec_symbol_label('/' as u8, '[' as u8) == "jogger"@,
        spec_symbol_label('/' as u8, '\\' as u8) == "triangle (DF)"@,
        spec_symbol_label('/' as u8, ']' as u8) == "mailbox"@,
        spec_symbol_label('/' as u8, '^' as u8) == "large aircraft"@,
        spec_symbol_label('/' as u8, '_' as u8) == "weather station"@,
        spec_symbol_label('/' as u8, '`' as u8) == "dish antenna"@,
        spec_symbol_label('/' as u8, 'a' as u8) == "ambulance"@,
        spec_symbol_label('/' as u8, 'b' as u8) == "bicycle"@,
        spec_symbol_label('/' as u8, 'c' as u8) == "incident command post"@,
        spec_symbol_label('/' as u8, 'd' as u8) == "fire department"@,
        spec_symbol_label('/' as u8, 'e' as u8) == "horse"@,
        spec_symbol_label('/' as u8, 'f' as u8) == "fire truck"@,
        spec_symbol_label('/' as u8, 'g' as u8) == "glider"@,
        spec_symbol_label('/' as u8, 'h' as u8) == "hospital"@,
        spec_symbol_label('/' as u8, 'i' as u8) == "IOTA"@,
        spec_symbol_label('/' as u8, 'j' as u8) == "jeep"@,
        spec_symbol_label('/' as u8, 'k' as u8) == "truck"@,
        spec_symbol_label('/' as u8, 'l' as u8) == "laptop"@,
        spec_symbol_label('/' as u8, 'm' as u8) == "Mic-E repeater"@,
        spec_symbol_label('/' as u8, 'n' as u8) == "node"@,
        spec_symbol_label('/' as u8, 'o' as u8) == "EOC"@,
        spec_symbol_label('/' as u8, 'p' as u8) == "rover"@,
        spec_symbol_label('/' as u8, 'q' as u8) == "grid square"@,
        spec_symbol_label('/' as u8, 'r' as u8) == "repeater"@,
        spec_symbol_label('/' as u8, 's' as u8) == "boat"@,
        spec_symbol_label('/' as u8, 't' as u8) == "truck stop"@,
        spec_symbol_label('/' as u8, 'u' as u8) == "semi truck"@,
        spec_symbol_label('/' as u8, 'v' as u8) == "van"@,
        spec_symbol_label('/' as u8, 'w' as u8) == "water station"@,
        spec_symbol_label('/' as u8, 'x' as u8) == "X-APRS"@,
        spec_symbol_label('/' as u8, 'y' as u8) == "Yagi at QTH"@,
        forall|code: u8|
            48 <= code <= 57 ==> #[trigger] spec_symbol_label('/' as u8, code)
                == "numbered circle"@,
{
}

/// The symbols of the alternate table, which a backslash names. A digit or capital letter in place
/// of the backslash is drawn over the symbol and told behind its name.
pub proof fn law_alternate_symbols(overlay: u8)
    requires
        48 <= overlay <= 57 || 'A' as u8 <= overlay <= 'Z' as u8,
    ensures
        spec_symbol_label('\\' as u8, '#' as u8) == "digipeater"@,
        spec_symbol_label('\\' as u8, '&' as u8) == "gateway"@,
        spec_symbol_label('\\' as u8, '>' as u8) == "car"@,
        spec_symbol_label('\\' as u8, '_' as u8) == "weather site"@,
        spec_symbol_label('\\' as u8, 'a' as u8) == "ARES"@,
        spec_symbol_label('\\' as u8, 'k' as u8) == "SUV"@,
        spec_symbol_label('\\' as u8, 'u' as u8) == "truck"@,
        spec_symbol_label('\\' as u8, 'v' as u8) == "van"@,
        spec_symbol_label(overlay, '#' as u8) == "digipeater"@ + " (overlay "@ + seq![overlay as char]
            + ")"@,
        spec_symbol_label(overlay, '&' as u8) == "gateway"@ + " (overlay "@ + seq![overlay as char]
            + ")"@,
        spec_symbol_label(overlay, '>' as u8) == "car"@ + " (overlay "@ + seq![overlay as char]
            + ")"@,
        spec_symbol_label(overlay, '_' as u8) == "weather site"@ + " (overlay "@ + seq![overlay as char]
            + ")"@,
        spec_symbol_label(overlay, 'a' as u8) == "ARES"@ + " (overlay "@ + seq![overlay as char]
            + ")"@,
        spec_symbol_label(overlay, 'k' as u8) == "SUV"@ + " (overlay "@ + seq![overlay as char]
            + ")"@,
        spec_symbol_label(overlay, 'u' as u8) == "truck"@ + " (overlay "@ + seq![overlay as char]
            + ")"@,
        spec_symbol_label(overlay, 'v' as u8) == "van"@ + " (overlay "@ + seq![overlay as char]
            + ")"@,
{
}

/// A symbol without a name is told by its two characters: the gaps of the primary table, what the
/// alternate table does not name, and everything in a table that there is not.
pub proof fn law_unnamed_symbols(table: u8, code: u8)
    requires
        ({
            let overlay = 48 <= table <= 57 || 'A' as u8 <= table <= 'Z' as u8;
            let gap = code == '"' as u8 || code == 'D' as u8 || code == 'J' as u8 || code == 'Q' as u8
                || code == 'z' as u8 || code < 33 || code > 122;
            let alternate = code == '#' as u8 || code == '&' as u8 || code == '>' as u8 || code
                == '_' as u8 || code == 'a' as u8 || code == 'k' as u8 || code == 'u' as u8 || code
                == 'v' as u8;
            if table == '/' as u8 {
                gap
            } else if table == '\\' as u8 || overlay {
                !alternate
            } else {
                true
            }
        }),
    ensures
        spec_symbol_label(table, code) == "symbol "@ + seq![table as char, code as char],
{
}

} // verus!
