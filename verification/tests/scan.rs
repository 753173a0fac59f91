use simple_graphics::scan::chars_of;
use simple_graphics::scan::digit_of;
use simple_graphics::scan::is_word;
use simple_graphics::scan::line_ranges;
use simple_graphics::scan::push_decimal;
use simple_graphics::scan::read_digits;
use simple_graphics::scan::read_hex_byte;
use simple_graphics::scan::read_isize;
use simple_graphics::scan::read_magnitude;
use simple_graphics::scan::read_unsigned;
use simple_graphics::scan::read_usize;
use simple_graphics::scan::split_ranges;

fn chars(text: &str) -> Vec<char> {
    text.chars().collect()
}

#[test]
fn chars_of_keeps_every_character() {
    assert_eq!(chars_of("a\u{20AC}b"), vec!['a', '\u{20AC}', 'b']);
    assert_eq!(chars_of(""), Vec::<char>::new());
}

#[test]
fn digits_have_their_values() {
    assert_eq!(digit_of('0'), 0);
    assert_eq!(digit_of('9'), 9);
    assert_eq!(digit_of('a'), 10);
    assert_eq!(digit_of('F'), 15);
    assert_eq!(digit_of('g'), 16);
    assert_eq!(digit_of('/'), 16);
    assert_eq!(digit_of(':'), 16);
    assert_eq!(digit_of('@'), 16);
    assert_eq!(digit_of('`'), 16);
    assert_eq!(digit_of('\u{663}'), 16);
}

#[test]
fn magnitudes_stop_at_the_limit() {
    assert_eq!(read_magnitude(&chars("255"), 10, 255), Some(255));
    assert_eq!(read_magnitude(&chars("256"), 10, 255), None);
    assert_eq!(read_magnitude(&chars("000255"), 10, 255), Some(255));
    assert_eq!(read_magnitude(&chars(""), 10, 255), None);
    assert_eq!(read_digits(&chars(""), 10, 255), Some(0));
    assert_eq!(read_magnitude(&chars("1a"), 10, 255), None);
    assert_eq!(read_magnitude(&chars("1a"), 16, 255), Some(26));
    assert_eq!(
        read_magnitude(&chars("18446744073709551615"), 10, u64::MAX),
        Some(u64::MAX)
    );
    assert_eq!(read_magnitude(&chars("18446744073709551616"), 10, u64::MAX), None);
    assert_eq!(read_unsigned(&chars("+17"), 10, 20), Some(17));
    assert_eq!(read_unsigned(&chars("++17"), 10, 20), None);
    assert_eq!(read_unsigned(&chars("+"), 10, 20), None);
}

#[test]
fn signed_numbers_cover_the_whole_range() {
    assert_eq!(read_isize(&chars("0")), Some(0));
    assert_eq!(read_isize(&chars("-0")), Some(0));
    assert_eq!(read_isize(&chars("+42")), Some(42));
    assert_eq!(read_isize(&chars("-42")), Some(-42));
    assert_eq!(read_isize(&chars(&isize::MAX.to_string())), Some(isize::MAX));
    assert_eq!(read_isize(&chars(&isize::MIN.to_string())), Some(isize::MIN));
    assert_eq!(read_isize(&chars("9223372036854775808")), None);
    assert_eq!(read_isize(&chars("-9223372036854775809")), None);
    assert_eq!(read_isize(&chars("")), None);
    assert_eq!(read_isize(&chars("-")), None);
    assert_eq!(read_isize(&chars("+-1")), None);
    assert_eq!(read_isize(&chars(" 1")), None);
    assert_eq!(read_isize(&chars("1 ")), None);
}

#[test]
fn unsigned_numbers_take_no_minus() {
    assert_eq!(read_usize(&chars("12")), Some(12));
    assert_eq!(read_usize(&chars("+12")), Some(12));
    assert_eq!(read_usize(&chars("-12")), None);
    assert_eq!(read_usize(&chars(&usize::MAX.to_string())), Some(usize::MAX));
    assert_eq!(read_usize(&chars("18446744073709551616")), None);
}

#[test]
fn hex_bytes_fit_in_a_byte() {
    assert_eq!(read_hex_byte(&chars("00")), Some(0));
    assert_eq!(read_hex_byte(&chars("fF")), Some(255));
    assert_eq!(read_hex_byte(&chars("81")), Some(0x81));
    assert_eq!(read_hex_byte(&chars("7")), Some(7));
    assert_eq!(read_hex_byte(&chars("100")), None);
    assert_eq!(read_hex_byte(&chars("0x1")), None);
}

#[test]
fn splitting_keeps_empty_pieces() {
    assert_eq!(split_ranges(&chars("a bc  d"), ' '), vec![(0, 1), (2, 4), (5, 5), (6, 7)]);
    assert_eq!(split_ranges(&chars(""), ' '), vec![(0, 0)]);
    assert_eq!(split_ranges(&chars(" "), ' '), vec![(0, 0), (1, 1)]);
    assert_eq!(split_ranges(&chars("abc"), ' '), vec![(0, 3)]);
}

#[test]
fn lines_end_at_line_feeds() {
    assert_eq!(line_ranges(&chars("ab\ncd")), vec![(0, 2), (3, 5)]);
    assert_eq!(line_ranges(&chars("ab\ncd\n")), vec![(0, 2), (3, 5)]);
    assert_eq!(line_ranges(&chars("ab\r\ncd\r\n")), vec![(0, 2), (4, 6)]);
    assert_eq!(line_ranges(&chars("ab\n\ncd")), vec![(0, 2), (3, 3), (4, 6)]);
    assert_eq!(line_ranges(&chars("")), Vec::<(usize, usize)>::new());
    assert_eq!(line_ranges(&chars("\n")), vec![(0, 0)]);
    assert_eq!(line_ranges(&chars("ab\r")), vec![(0, 3)]);
    assert_eq!(line_ranges(&chars("\r\n")), vec![(0, 0)]);
}

#[test]
fn words_are_compared_whole() {
    assert!(is_word(&chars("BITMAP"), "BITMAP"));
    assert!(!is_word(&chars("BITMAPS"), "BITMAP"));
    assert!(!is_word(&chars("BITMA"), "BITMAP"));
    assert!(!is_word(&chars("bitmap"), "BITMAP"));
    assert!(is_word(&chars(""), ""));
}

#[test]
fn decimals_are_written_without_leading_zeros() {
    let mut text = String::from("n = ");
    push_decimal(&mut text, 0);
    assert_eq!(text, "n = 0");
    push_decimal(&mut text, 1234567890);
    assert_eq!(text, "n = 01234567890");
    let mut text = String::new();
    push_decimal(&mut text, usize::MAX);
    assert_eq!(text, usize::MAX.to_string());
}
