use aprsmsg::decode::{decode, printable, Figures, Fix, Packet};
use aprsmsg::position::{Altitude, Angle, Speed};

const KNOTS_TO_KMH: f64 = 1.852;
const FEET_TO_M: f64 = 0.3048;

fn approx(a: f64, b: f64) -> bool {
    (a - b).abs() < 1e-4
}

fn degrees(angle: Angle) -> f64 {
    f64::from(angle.units()) / f64::from(angle.per_degree())
}

fn knots(speed: Speed) -> f64 {
    match speed {
        Speed::Knots(n) => f64::from(n),
        Speed::Power(s) => 1.08_f64.powi(i32::from(s)) - 1.0,
    }
}

fn metres(altitude: Altitude) -> f64 {
    match altitude {
        Altitude::Metres(m) => f64::from(m),
        Altitude::Feet(feet) => f64::from(feet) * FEET_TO_M,
        Altitude::FeetPower(exponent) => 1.002_f64.powi(i32::from(exponent)) * FEET_TO_M,
    }
}

fn figures(fix: Option<&Fix>) -> Figures {
    Figures {
        kmh: fix
            .and_then(|f| f.speed_knots)
            .map_or(String::new(), |s| format!("{:.0}", knots(s) * KNOTS_TO_KMH)),
        altitude: fix
            .and_then(|f| f.altitude_m)
            .map_or(String::new(), |a| format!("{:.0}", metres(a))),
    }
}

fn shown(packet: &Packet) -> String {
    packet.describe(&figures(packet.fix()))
}

#[test]
fn decodes_kenwood_mic_e() {
    // Heard on 144.800: SA0ANX-9>U9RQ09,WIDE1-1:`-U@mg{k/]"40}=<0x0d>
    let packet = decode("U9RQ09", b"`-U@mg{k/]\"40}=\r");
    let Packet::MicE { fix, status, device } = &packet else {
        panic!("expected Mic-E");
    };
    assert!(approx(degrees(fix.lat), 59.0 + 21.09 / 60.0));
    assert!(approx(degrees(fix.lon), 17.0 + 57.36 / 60.0));
    assert_eq!(fix.speed_knots.map(knots), Some(17.0));
    assert_eq!(fix.course, Some(195));
    assert_eq!(fix.altitude_m.map(metres), Some(25.0));
    assert_eq!((fix.table, fix.code), (b'/', b'k'));
    assert_eq!(*status, "In Service");
    assert_eq!(*device, Some("Kenwood TM-D710"));
    assert_eq!(
        shown(&packet),
        "Mic-E Kenwood TM-D710, In Service: truck at 59°21.09'N 017°57.36'E, 31 km/h, course 195°, alt 25 m"
    );
}

#[test]
fn decodes_uncompressed_position_with_extensions() {
    let packet = decode("APRS", b"!5921.09N/01757.36E>088/036/A=000100Test run");
    let Packet::Position(fix) = &packet else { panic!("expected position") };
    assert_eq!(fix.course, Some(88));
    assert_eq!(fix.speed_knots.map(knots), Some(36.0));
    assert!(approx(metres(fix.altitude_m.unwrap()), 30.48));
    assert_eq!(fix.comment, "Test run");
    assert_eq!(
        shown(&packet),
        "Position: car at 59°21.09'N 017°57.36'E, 67 km/h, course 88°, alt 30 m \"Test run\""
    );
}

#[test]
fn decodes_timestamped_and_ambiguous_positions() {
    let packet = decode("APRS", b"@092345z5921.  N/01757.  E_Weather");
    let Packet::Position(fix) = &packet else { panic!("expected position") };
    assert!(approx(degrees(fix.lat), 59.35));
    assert_eq!(fix.code, b'_');
}

#[test]
fn decodes_compressed_position() {
    let Packet::Position(fix) = decode("APRS", b"=/5L!!<*e7>7P[") else {
        panic!("expected position")
    };
    assert!(approx(degrees(fix.lat), 49.5));
    assert!(approx(degrees(fix.lon), -72.75));
    assert_eq!(fix.course, Some(88));
    assert!((knots(fix.speed_knots.unwrap()) - 36.2).abs() < 0.1);
}

#[test]
fn decodes_object_and_item() {
    let packet = decode("APRS", b";LEADER   *092345z4903.50N/07201.75W>088/036");
    assert!(matches!(&packet, Packet::Object { name, killed: false, .. } if name == "LEADER"));
    let packet = decode("APRS", b")AID #2!4903.50N/07201.75WA");
    assert!(matches!(&packet, Packet::Item { name, killed: false, .. } if name == "AID #2"));
}

#[test]
fn decodes_third_party_message_and_status() {
    let packet = decode("APRX29", b"}EMAIL-2>APJIE4,TCPIP,SK0TM-10*::SA0KAM-1 :ack12");
    assert_eq!(shown(&packet), "Via internet from EMAIL-2: Ack #12 to SA0KAM-1");
    assert_eq!(shown(&decode("APRS", b">Net tonight")), "Status: Net tonight");
    assert_eq!(shown(&decode("APRS", b">092345zOn air")), "Status: On air");
    assert_eq!(shown(&decode("APRS", b"garbage")), "Not decoded");
}

#[test]
fn printable_escapes_control_characters() {
    assert_eq!(printable(b"abc\r"), "abc<0x0d>");
}

#[test]
fn printable_text_has_no_controls() {
    let all: Vec<u8> = (0..=255).collect();
    assert!(printable(&all).chars().all(|c| !c.is_control()));
    assert_eq!(printable("\u{85}é\u{7f}".as_bytes()), "<0x85>é<0x7f>");
    assert_eq!(printable(b"\xff"), "\u{fffd}");
}

#[test]
fn printing_twice_changes_nothing() {
    assert_eq!(printable("Hej på dig <0x0d>".as_bytes()), "Hej på dig <0x0d>");
    let all: Vec<u8> = (0..=255).collect();
    let once = printable(&all);
    assert_eq!(printable(once.as_bytes()), once);
}

#[test]
fn line_ends_do_not_change_packets() {
    for info in [
        &b"!5921.09N/01757.36E>Test"[..],
        &b">Net tonight"[..],
        &b":SA0KAM-1 :ack12"[..],
        &b"}EMAIL-2>APJIE4,TCPIP,SK0TM-10*::SA0KAM-1 :hi{3"[..],
        &b""[..],
    ] {
        let plain = decode("APRS", info);
        for line_end in [&b"\r"[..], &b"\n"[..], &b"\r\n"[..], &b"\n\n\r"[..]] {
            assert_eq!(decode("APRS", &[info, line_end].concat()), plain);
        }
    }
}

#[test]
fn other_kinds_are_named() {
    let kind = |info: &[u8]| shown(&decode("APRS", info));
    assert_eq!(kind(b"_10090556c220"), "Weather report");
    assert_eq!(kind(b"T#005,1,2"), "Telemetry");
    assert_eq!(kind(b"T5"), "Not decoded");
    assert_eq!(kind(b"<IGATE"), "Station capabilities");
    assert_eq!(kind(b"?APRS?"), "Query");
    assert_eq!(kind(b"$GPRMC"), "Raw GPS (NMEA)");
    assert_eq!(kind(b"{Q1"), "User-defined data");
    assert_eq!(kind(b""), "Not decoded");
    assert_eq!(kind(b"\r\n"), "Not decoded");
    assert_eq!(kind(b":BLN1     :net tonight"), "Bulletin BLN1: net tonight");
    assert_eq!(kind(b":SA0KAM-1 :hi{7"), "Message to SA0KAM-1: hi (#7)");
    assert_eq!(kind(b":SA0KAM-1 :rej7"), "Reject #7 to SA0KAM-1");
    assert_eq!(kind(b":short"), "Not decoded");
}

#[test]
fn third_party_packets_are_opened_three_times() {
    let packet = decode("APRS", b"}A>B:}C>D:}E>F:>deep");
    assert_eq!(
        shown(&packet),
        "Via internet from A: Via internet from C: Via internet from E: Status: deep"
    );
    assert_eq!(shown(&packet.innermost()), "Status: deep");
    let packet = decode("APRS", b"}A>B:}C>D:}E>F:}G>H:>deeper");
    assert_eq!(shown(&packet.innermost()), "Not decoded");
}

#[test]
fn killed_objects_and_items() {
    let object = decode("APRS", b";LEADER   _092345z4903.50N/07201.75W>");
    assert_eq!(shown(&object), "Object LEADER (killed): car at 49°03.50'N 072°01.75'W");
    let item = decode("APRS", b")AID_4903.50N/07201.75W-");
    assert_eq!(shown(&item), "Item AID (killed): house at 49°03.50'N 072°01.75'W");
    assert_eq!(shown(&decode("APRS", b";LEADER   x092345z4903.50N/07201.75W>")), "Not decoded");
    assert_eq!(shown(&decode("APRS", b")AI!4903.50N/07201.75W-")), "Not decoded");
    assert_eq!(shown(&decode("APRS", b")TOOLONGNAME!4903.50N/07201.75W-")), "Not decoded");
}

#[test]
fn positions_out_of_range_are_refused() {
    for bad in [
        "!9100.00N/01757.36E>",
        "!5960.00N/01757.36E>",
        "!5921.09X/01757.36E>",
        "!5921x09N/01757.36E>",
        "!5921.09N/18100.00E>",
        "!5921.09N/01760.00E>",
        "!5921.09N/01757.36N>",
        "!59a1.09N/01757.36E>",
        "!5921.09N/01757.36",
    ] {
        assert_eq!(shown(&decode("APRS", bad.as_bytes())), "Not decoded", "{bad}");
    }
    let Packet::Position(fix) = decode("APRS", b"!0000.00S/00000.01W>") else { panic!("expected position") };
    assert_eq!((fix.lat, fix.lon), (Angle::Hundredths(0), Angle::Hundredths(-1)));
    assert_eq!(shown(&Packet::Position(fix)), "Position: car at 00°00.00'N 000°00.01'W");
}

#[test]
fn compressed_extras() {
    let fix = |info: &[u8]| match decode("APRS", info) {
        Packet::Position(fix) => Some(fix),
        _ => None,
    };
    let none = fix(b"=/5L!!<*e7> sTcomment").unwrap();
    assert_eq!((none.course, none.speed_knots, none.altitude_m), (None, None, None));
    assert_eq!(none.comment, "comment");
    let altitude = fix(b"=/5L!!<*e7>S]Q").unwrap();
    assert_eq!(altitude.altitude_m, Some(Altitude::FeetPower(50 * 91 + 60)));
    assert!((metres(altitude.altitude_m.unwrap()) / FEET_TO_M - 10004.52).abs() < 0.01);
    let range = fix(b"=/5L!!<*e7>{?!").unwrap();
    assert_eq!((range.course, range.speed_knots), (None, None));
    assert!(fix(b"=/5L!!<*e7>7P\x1f").is_none());
    assert!(fix(b"=/5L!|<*e7>7P[").is_none());
    assert!(fix(b"=/{{{{<*e7>7P[").is_none());
    assert!(fix(b"=/5L!!<*e7>7P").is_none());
    let overlay = fix(b"=c5L!!<*e7>7P[").unwrap();
    assert_eq!(overlay.table, b'2');
    assert_eq!(
        shown(&Packet::Position(overlay)),
        "Position: car (overlay 2) at 49°30.00'N 072°45.00'W, 67 km/h, course 88°"
    );
}

#[test]
fn feet_altitudes_leave_the_comment() {
    let fix = |comment: &str| match decode("APRS", format!("!5921.09N/01757.36E>{comment}").as_bytes()) {
        Packet::Position(fix) => fix,
        _ => panic!("expected position"),
    };
    assert_eq!(fix("a/A=001234b").comment, "ab");
    assert_eq!(fix("a/A=001234b").altitude_m, Some(Altitude::Feet(1234)));
    assert_eq!(fix("/A=-00100").altitude_m, Some(Altitude::Feet(-100)));
    assert_eq!(fix("/A=00123").comment, "/A=00123");
    assert_eq!(fix("/A=00x123y").comment, "/A=00x123y");
    assert_eq!(fix("/A=0012åx").altitude_m, None);
    let below = Packet::Position(fix("/A=-00001"));
    assert_eq!(shown(&below), "Position: car at 59°21.09'N 017°57.36'E, alt -0 m");
}

#[test]
fn courses_and_speeds() {
    let fix = |extension: &str| match decode("APRS", format!("!5921.09N/01757.36E>{extension}").as_bytes()) {
        Packet::Position(fix) => fix,
        _ => panic!("expected position"),
    };
    assert_eq!(fix("000/000").course, None);
    assert_eq!(fix("360/001").course, Some(360));
    assert_eq!(fix("361/001").course, None);
    assert_eq!(fix("12a/001").comment, "12a/001");
    assert_eq!(shown(&Packet::Position(fix("088/000"))), "Position: car at 59°21.09'N 017°57.36'E");
    assert_eq!(
        shown(&Packet::Position(fix("000/001"))),
        "Position: car at 59°21.09'N 017°57.36'E, 2 km/h"
    );
}

#[test]
fn half_a_knot_is_moving() {
    for s in 0..=222u8 {
        assert_eq!(Speed::Power(s).moving(), knots(Speed::Power(s)) >= 0.5, "{s}");
    }
    assert!(!Speed::Knots(0).moving());
    assert!(Speed::Knots(1).moving());
}

#[test]
fn angles_are_rounded_as_floating_point_would() {
    let text = |value: f64| {
        let n = (value.abs() * 6000.0).round() as u64;
        format!("{:02}°{:02}.{:02}'{}", n / 6000, n % 6000 / 100, n % 100, if value < 0.0 { 'S' } else { 'N' })
    };
    let mut base = 1u32;
    for _ in 0..2000 {
        base = base.wrapping_mul(1_664_525).wrapping_add(1_013_904_223);
        let mut v = base % 68_566_681;
        let value = 90.0 - f64::from(v) / 380_926.0;
        let mut digits = [0u8; 4];
        for d in digits.iter_mut().rev() {
            *d = (v % 91) as u8 + 33;
            v /= 91;
        }
        let mut info = b"=/".to_vec();
        info.extend(digits);
        info.extend(b"<*e7> sT");
        let line = shown(&decode("APRS", &info));
        assert!(line.starts_with(&format!("Position: car at {} ", text(value))), "{line} {value}");
    }
}

#[test]
fn mic_e_status_and_devices() {
    let mic_e = |dest: &str, rest: &[u8]| {
        let mut info = b"`-U@mg{k/".to_vec();
        info.extend(rest);
        match decode(dest, &info) {
            Packet::MicE { fix, status, device } => Some((fix, status, device)),
            _ => None,
        }
    };
    let status = |dest: &str| mic_e(dest, b"").unwrap().1;
    assert_eq!(status("592109"), "Emergency");
    assert_eq!(status("PYRQ09"), "Off Duty");
    assert_eq!(status("FJCQ09"), "Custom-0");
    assert_eq!(status("5JRQ09"), "Unknown status");
    assert_eq!(status("59CQ09"), "Custom-6");
    let device = |rest: &[u8]| {
        let (fix, _, device) = mic_e("U9RQ09", rest).unwrap();
        (device, fix.comment)
    };
    assert_eq!(device(b">hi="), (Some("Kenwood TH-D72"), "hi".into()));
    assert_eq!(device(b">hi^"), (Some("Kenwood TH-D74"), "hi".into()));
    assert_eq!(device(b">hi&"), (Some("Kenwood TH-D75"), "hi".into()));
    assert_eq!(device(b">hi"), (Some("Kenwood TH-D7A"), "hi".into()));
    assert_eq!(device(b">"), (Some("Kenwood TH-D7A"), "".into()));
    assert_eq!(device(b"]hi"), (Some("Kenwood TM-D700"), "hi".into()));
    assert_eq!(device(b"`hi_ "), (Some("Yaesu VX-8"), "hi".into()));
    assert_eq!(device(b"`hi_\""), (Some("Yaesu FTM-350"), "hi".into()));
    assert_eq!(device(b"`hi_#"), (Some("Yaesu VX-8G"), "hi".into()));
    assert_eq!(device(b"`hi_$"), (Some("Yaesu FT1D"), "hi".into()));
    assert_eq!(device(b"`hi_%"), (Some("Yaesu FTM-400DR"), "hi".into()));
    assert_eq!(device(b"`hi_)"), (Some("Yaesu FTM-100D"), "hi".into()));
    assert_eq!(device(b"`hi_("), (Some("Yaesu FT2D"), "hi".into()));
    assert_eq!(device(b"'hi|3"), (Some("Byonics TinyTrak3"), "hi".into()));
    assert_eq!(device(b"'hi|4"), (Some("Byonics TinyTrak4"), "hi".into()));
    assert_eq!(device(b"'hi|5"), (None, "hi|5".into()));
    assert_eq!(device(b"'"), (None, "".into()));
    assert_eq!(device(b"plain"), (None, "plain".into()));
    let (fix, _, _) = mic_e("U9RQ09", b"\"3r}up").unwrap();
    assert_eq!(fix.altitude_m, Some(Altitude::Metres(91 * 91 + 18 * 91 + 81 - 10_000)));
    assert_eq!(fix.comment, "up");
    let (fix, _, _) = mic_e("U9RQ09", b"|3r}up").unwrap();
    assert_eq!((fix.altitude_m, fix.comment.as_str()), (None, "|3r}up"));
}

#[test]
fn mic_e_hemispheres_and_ranges() {
    let mic_e = |dest: &str, info: &[u8]| match decode(dest, info) {
        Packet::MicE { fix, .. } => Some(fix),
        _ => None,
    };
    let fix = mic_e("592109", b"`-U@mg{k/").unwrap();
    assert_eq!((fix.lat, fix.lon), (Angle::Hundredths(-(59 * 6000 + 2109)), Angle::Hundredths(17 * 6000 + 5736)));
    let fix = mic_e("59210P", b"`-U@mg{k/").unwrap();
    assert_eq!(fix.lon, Angle::Hundredths(-(17 * 6000 + 5736)));
    let fix = mic_e("5921P9", b"`-U@mg{k/").unwrap();
    assert_eq!(fix.lon, Angle::Hundredths(117 * 6000 + 5736));
    let fix = mic_e("5921P9", &[b'`', 28 + 85, 28, 28, 28, 28, 28, b'k', b'/']).unwrap();
    assert_eq!(fix.lon, Angle::Hundredths(105 * 6000));
    let fix = mic_e("5921P9", &[b'`', 28 + 95, 28 + 61, 28, 28, 28, 28, b'k', b'/']).unwrap();
    assert_eq!(fix.lon, Angle::Hundredths(5 * 6000 + 100));
    assert!(mic_e("990000", b"`-U@mg{k/").is_none());
    assert!(mic_e("U9RQ0", b"`-U@mg{k/").is_none());
    assert!(mic_e("U9RQ0M", b"`-U@mg{k/").is_none());
    assert!(mic_e("U9RQ09", b"`-U@mg{k").is_none());
    assert!(mic_e("U9RQ09", b"`-\x10@mg{k/").is_none());
    let fix = mic_e("U9RQ09", &[b'`', 45, 85, 64, 28 + 85, 28 + 35, 28 + 50, b'k', b'/']).unwrap();
    assert_eq!(fix.speed_knots, Some(Speed::Knots(53)));
    assert_eq!(fix.course, Some(150));
}

#[test]
fn symbols_have_names() {
    let label = |table: char, code: char| {
        let line = shown(&decode("APRS", format!("!5921.09N{table}01757.36E{code}").as_bytes()));
        line["Position: ".len()..line.rfind(" at ").unwrap()].to_owned()
    };
    assert_eq!(label('/', '5'), "numbered circle");
    assert_eq!(label('/', 'D'), "symbol /D");
    assert_eq!(label('\\', '#'), "digipeater");
    assert_eq!(label('\\', '-'), "symbol \\-");
    assert_eq!(label('S', '#'), "digipeater (overlay S)");
    assert_eq!(label('7', '-'), "symbol 7-");
    assert_eq!(label('!', '-'), "symbol !-");
    assert_eq!(label('/', 'y'), "Yagi at QTH");
    assert_eq!(label('/', 'z'), "symbol /z");
}
