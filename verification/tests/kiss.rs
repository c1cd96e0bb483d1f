use aprsmsg::kiss::{encode, Decoder, FEND, FESC, TFEND, TFESC};

#[test]
fn round_trip_with_escapes() {
    let payload = vec![0x01, FEND, 0x02, FESC, 0x03];
    let wire = encode(2, &payload);
    assert_eq!(
        wire,
        vec![FEND, 0x20, 0x01, FESC, TFEND, 0x02, FESC, TFESC, 0x03, FEND]
    );
    let frames = Decoder::default().push(&wire);
    assert_eq!(frames.len(), 1);
    assert_eq!(frames[0].channel, 2);
    assert_eq!(frames[0].payload, payload);
}

#[test]
fn frame_split_across_reads() {
    let wire = encode(0, b"hello");
    let mut decoder = Decoder::default();
    assert!(decoder.push(&wire[..3]).is_empty());
    let frames = decoder.push(&wire[3..]);
    assert_eq!(frames.len(), 1);
    assert_eq!(frames[0].payload, b"hello");
}

#[test]
fn ignores_command_and_empty_frames() {
    let mut decoder = Decoder::default();
    // TXDELAY command (type 1) and back-to-back FENDs carry no data.
    assert!(decoder.push(&[FEND, 0x01, 30, FEND, FEND, FEND]).is_empty());
}

#[test]
fn a_stream_can_be_cut_anywhere() {
    let mut wire = encode(3, &[1, FEND, 2]);
    wire.extend(encode(4, &[FESC]));
    for cut in 0..=wire.len() {
        let mut decoder = Decoder::default();
        let mut frames = decoder.push(&wire[..cut]);
        frames.extend(decoder.push(&wire[cut..]));
        assert_eq!(frames.len(), 2);
        assert_eq!((frames[0].channel, frames[0].payload.as_slice()), (3, [1, FEND, 2].as_slice()));
        assert_eq!((frames[1].channel, frames[1].payload.as_slice()), (4, [FESC].as_slice()));
    }
}

#[test]
fn frames_that_are_too_long_are_dropped() {
    let mut decoder = Decoder::default();
    assert_eq!(decoder.push(&encode(0, &vec![7; 2047])).len(), 1);
    assert!(decoder.push(&encode(0, &vec![7; 2048])).is_empty());
    assert_eq!(decoder.push(&encode(0, b"next")).len(), 1);
}

#[test]
fn the_channel_is_taken_modulo_sixteen() {
    assert_eq!(encode(0x15, b"x")[1], 0x50);
    assert_eq!(Decoder::default().push(&encode(0x15, b"x"))[0].channel, 5);
}

#[test]
fn every_channel_carries_frames() {
    for channel in 0..16u8 {
        let mut decoder = Decoder::default();
        let frames = decoder.push(&encode(channel, &[0x41]));
        assert_eq!(frames.len(), 1);
        assert_eq!((frames[0].channel, frames[0].payload.as_slice()), (channel, [0x41].as_slice()));
    }
    // The command byte of channel 12 has the delimiter's value.
    assert_eq!(encode(12, &[0x41]), [FEND, FESC, TFEND, 0x41, FEND]);
    assert_eq!(encode(11, &[0x41]), [FEND, 0xB0, 0x41, FEND]);
}

#[test]
fn an_unknown_escape_stands_for_itself() {
    let frames = Decoder::default().push(&[FEND, 0x00, FESC, 0x41, FEND]);
    assert_eq!(frames[0].payload, b"A");
}
