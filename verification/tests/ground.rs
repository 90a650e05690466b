use lumen_dev::le::read;
use lumen_dev::le::u16_bytes;
use lumen_dev::le::u32_bytes;
use lumen_dev::le::u64_at;
use lumen_dev::le::u64_bytes;
use lumen_dev::modular::distance_between;
use lumen_dev::modular::larger_of;
use lumen_dev::modular::magnitude_of;
use lumen_dev::modular::mean_of;
use lumen_dev::modular::signed_of;
use lumen_dev::net::same_four;
use lumen_dev::order::ascending_of;
use lumen_dev::order::median_of;
use lumen_dev::tally::find_percentile;
use lumen_dev::tally::total_of;
use lumen_dev::text::append_decimal;
use lumen_dev::text::chars_of;
use lumen_dev::text::find_char;
use lumen_dev::text::find_run_end;
use lumen_dev::text::has_prefix;
use lumen_dev::text::has_suffix;
use lumen_dev::text::parse_u64;
use lumen_dev::text::same_text;
use lumen_dev::text::space;
use lumen_dev::text::spells;

#[test]
fn fields_are_little_endian() {
    assert_eq!(u16_bytes(0x0102), [2, 1]);
    assert_eq!(u32_bytes(0x0102_0304), [4, 3, 2, 1]);
    assert_eq!(u64_bytes(u64::MAX - 1), [0xFE, 255, 255, 255, 255, 255, 255, 255]);
    let v = 0x1234_5678_9ABC_DEF0u64;
    assert_eq!(u64_bytes(v), v.to_le_bytes());
    assert_eq!(read(&u64_bytes(v), 0, 8), v);
    assert_eq!(read(&[9, 1, 2], 1, 2), 0x0201);
    assert_eq!(u64_at(&[0; 9], 1), Some(0));
    assert_eq!(u64_at(&[0; 9], 2), None);
    assert_eq!(u64_at(&[0; 9], usize::MAX), None);
}

#[test]
fn wrapping_figures() {
    assert_eq!(magnitude_of(-5), 5);
    assert_eq!(magnitude_of(i64::MIN), i64::MIN);
    assert_eq!(distance_between(3, 10), 7);
    assert_eq!(larger_of(-1, -2), -1);
    assert_eq!(signed_of(u64::MAX), -1);
    assert_eq!(signed_of(5), 5);
    assert_eq!(mean_of(-7, 2), -3);
    assert_eq!(mean_of(7, 2), 3);
    assert_eq!(mean_of(i64::MIN as i128, 1), i64::MIN);
    assert!(same_four(&[1, 2, 3, 4], &[1, 2, 3, 4]));
    assert!(!same_four(&[1, 2, 3, 4], &[1, 2, 3, 5]));
}

#[test]
fn orders_and_middles() {
    assert_eq!(ascending_of(&[3, -1, 2, 2]), vec![-1, 2, 2, 3]);
    assert_eq!(median_of(&[9, 1, 4, 2]), 3);
    assert_eq!(median_of(&[i64::MAX, i64::MAX]), i64::MAX);
    assert_eq!(median_of(&[-4, -1]), -2);
}

#[test]
fn tallies_and_percentiles() {
    assert_eq!(total_of(&[u32::MAX, u32::MAX]), 2 * (u32::MAX as u64));
    assert_eq!(find_percentile(&[0, 0], 50), None);
    assert_eq!(find_percentile(&[1, 0, 1], 50), Some(0));
    assert_eq!(find_percentile(&[1, 0, 1], 51), Some(2));
    assert_eq!(find_percentile(&[1, 0, 1], 200), Some(2));
}

#[test]
fn text_and_numbers() {
    let t = chars_of("a=b=c");
    assert_eq!(find_char(&t, '='), 1);
    assert_eq!(find_char(&t, 'x'), 5);
    assert!(spells(&t, "a=b=c"));
    assert!(!spells(&t, "a=b"));
    assert!(has_prefix(&t, &chars_of("a=")));
    assert!(!has_prefix(&t, &chars_of("a=b=c=")));
    assert!(has_suffix(&t, &chars_of("=c")));
    assert!(!has_suffix(&t, &chars_of("b")));
    assert!(same_text("x", "x"));
    assert!(!same_text("x", "xy"));
    assert_eq!(parse_u64(&chars_of("+0018")), Some(18));
    assert_eq!(parse_u64(&chars_of("++1")), None);
    assert_eq!(parse_u64(&chars_of("\u{661}")), None);
    let mut s = String::from("n=");
    append_decimal(&mut s, u64::MAX);
    append_decimal(&mut s, 0);
    assert_eq!(s, "n=184467440737095516150");
}

#[test]
fn white_space_is_what_std_says_it_is() {
    for x in 0..=0x10FFFFu32 {
        if let Some(c) = char::from_u32(x) {
            assert_eq!(space(c), c.is_whitespace(), "{x:x}");
        }
    }
    let t = chars_of("  ab c");
    assert_eq!(find_run_end(&t, 0, true), 2);
    assert_eq!(find_run_end(&t, 2, false), 4);
    assert_eq!(find_run_end(&t, 5, false), 6);
}
