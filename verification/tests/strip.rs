use lumen_dev::device::self_test::blocks;
use lumen_dev::device::self_test::dark;
use lumen_dev::device::self_test::gradient;
use lumen_dev::device::self_test::walking;
use lumen_dev::device::self_test::white;
use lumen_dev::device::strip::bit_of;
use lumen_dev::device::strip::buffer_words;
use lumen_dev::device::strip::pulse_of;
use lumen_dev::device::strip::Format;
use lumen_dev::device::strip::Strip;
use lumen_dev::device::strip::StripError;
use lumen_dev::device::strip_dma::buffer_bytes;
use lumen_dev::device::strip_dma::DmaStrip;

const ONE: u32 = 0x002C_8034;
const ZERO: u32 = 0x0046_801A;

fn read(codes: &[u32]) -> u8 {
    codes.iter().fold(0, |v, c| v * 2 + u8::from(*c == ONE))
}

#[test]
fn formats_and_their_sizes() {
    assert_eq!(Format::Grb.bytes_per_led(), 3);
    assert_eq!(Format::Grbw.bytes_per_led(), 4);
    assert_eq!(Format::Grb.name(), "GRB (24-bit)");
    assert_eq!(Format::Grbw.name(), "GRBW (32-bit)");
    assert_eq!(buffer_words(300, 4), 9_601);
    assert_eq!(buffer_words(0, 4), 1);
    assert_eq!(buffer_bytes(30, 4), 480);
    assert_eq!(buffer_bytes(300, 4), 4_800);
}

#[test]
fn pulses_are_encoded_level_and_length() {
    assert_eq!(pulse_of(52, 44), ONE);
    assert_eq!(pulse_of(26, 70), ZERO);
    assert!(bit_of(0x80, 0));
    assert!(!bit_of(0x80, 1));
    assert!(bit_of(0x01, 7));
}

#[test]
fn a_strip_takes_green_red_blue_and_no_white() {
    let mut strip = Strip::new("channel", Format::Grbw);
    assert_eq!(strip.format(), Format::Grbw);
    let mut scratch = [7u32; 70];
    assert_eq!(
        strip.write(&[0x12, 0xA5, 0xFF, 1, 2, 3], &mut scratch),
        Ok(("channel", 65))
    );
    assert_eq!(read(&scratch[0..8]), 0xA5);
    assert_eq!(read(&scratch[8..16]), 0x12);
    assert_eq!(read(&scratch[16..24]), 0xFF);
    assert_eq!(read(&scratch[24..32]), 0);
    assert_eq!(read(&scratch[32..40]), 2);
    assert_eq!(read(&scratch[40..48]), 1);
    assert_eq!(scratch[64], 0);
    // What is behind the frame stays.
    assert_eq!(scratch[65], 7);
    assert!(scratch[..64].iter().all(|c| *c == ONE || *c == ZERO));
}

#[test]
fn a_short_buffer_is_refused_untouched() {
    let mut strip = Strip::new(3, Format::Grb);
    let mut scratch = [7u32; 24];
    assert_eq!(strip.write(&[1, 2, 3], &mut scratch), Err(StripError::Overflow));
    assert_eq!(scratch, [7u32; 24]);
    assert!(strip.is_ready());
    let mut enough = [7u32; 25];
    assert_eq!(strip.write(&[1, 2, 3], &mut enough), Ok((3, 25)));
    assert_eq!(strip.sent::<()>(Ok(3)), Ok(()));
    // Bytes that make no whole LED are left out.
    assert_eq!(strip.write(&[1, 2, 3, 4, 5], &mut enough), Ok((3, 25)));
    assert_eq!(strip.sent::<()>(Ok(3)), Ok(()));
    assert_eq!(strip.write(&[], &mut []), Err(StripError::Overflow));
    assert_eq!(strip.write(&[], &mut enough), Ok((3, 1)));
}

#[test]
fn a_failed_frame_keeps_the_channel() {
    let mut strip = Strip::new(3, Format::Grb);
    let mut scratch = [0u32; 25];
    for _ in 0..2 {
        let (channel, words) = strip.write(&[1, 2, 3], &mut scratch).unwrap();
        assert_eq!(words, 25);
        assert!(!strip.is_ready());
        assert_eq!(strip.sent(Err(("underrun", channel))), Err("underrun"));
        assert!(strip.is_ready());
    }
}

#[test]
fn patterns_are_four_bits_to_a_bit() {
    let strip = DmaStrip::new(Format::Grbw);
    let mut scratch = [7u8; 17];
    // Green 0b00_01_10_11 comes first.
    assert_eq!(strip.write(&[0x00, 0x1B, 0xFF], &mut scratch), Ok(16));
    assert_eq!(scratch[0..4], [0x88, 0x8C, 0xC8, 0xCC]);
    assert_eq!(scratch[4..8], [0x88; 4]);
    assert_eq!(scratch[8..12], [0xCC; 4]);
    assert_eq!(scratch[12..16], [0x88; 4]);
    assert_eq!(scratch[16], 7);
    let mut short = [7u8; 11];
    assert_eq!(DmaStrip::new(Format::Grb).write(&[1, 2, 3], &mut short), Err(()));
    assert_eq!(short, [7u8; 11]);
    assert_eq!(DmaStrip::new(Format::Grb).write(&[], &mut []), Ok(0));
}

#[test]
fn the_pictures_of_the_self_test() {
    let mut p = [9u8; 90];
    walking(&mut p, 2);
    assert_eq!(p[6..9], [40, 40, 40]);
    assert!(p[..6].iter().all(|b| *b == 0));
    assert!(p[9..].iter().all(|b| *b == 0));
    blocks(&mut p);
    assert_eq!(p[0..3], [60, 0, 0]);
    assert_eq!(p[29 - 2..30], [60, 0, 0]);
    assert_eq!(p[30..33], [0, 60, 0]);
    assert_eq!(p[87..90], [0, 0, 60]);
    white(&mut p);
    assert_eq!(p, [30u8; 90]);
    gradient(&mut p);
    assert_eq!(p[0..3], [60, 0, 0]);
    // 15 * 255 / 29 = 131
    assert_eq!(p[45..48], [34, 0, 32]);
    assert_eq!(p[87..90], [9, 0, 63]);
    lumen_dev::device::self_test::set(&mut p, 1, 1, 2, 3);
    assert_eq!(p[3..6], [1, 2, 3]);
    dark(&mut p);
    assert_eq!(p, [0u8; 90]);
}
