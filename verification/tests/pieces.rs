use lgrep::encoding::text_contains;
use lgrep::lines::next_line;
use lgrep::report::{decimal_text, format_match, report};
use lgrep::substring::{find, matches_at};

#[test]
fn find_tries_every_position() {
    assert!(find(b"abcabd", b"abd"));
    assert!(find(b"abcabd", b"abc"));
    assert!(find(b"abcabd", b"d"));
    assert!(find(b"abcabd", b"abcabd"));
    assert!(!find(b"abcabd", b"abcabde"));
    assert!(!find(b"abcabd", b"ac"));
    assert!(find(b"aab", b"ab"));
}

#[test]
fn find_of_nothing() {
    assert!(find(b"abc", b""));
    assert!(find(b"", b""));
    assert!(!find(b"", b"a"));
}

#[test]
fn matches_at_compares_in_place() {
    assert!(matches_at(b"abcabd", b"abd", 3));
    assert!(!matches_at(b"abcabd", b"abd", 0));
    assert!(matches_at(b"abc", b"", 3));
    assert!(matches_at(b"abc", b"abc", 0));
    assert!(!matches_at(b"abc", b"c", 3));
    assert!(!matches_at(b"abc", b"", 4));
    assert!(!matches_at(b"abc", b"abcd", 0));
    assert!(!matches_at(b"abc", b"bc", usize::MAX));
}

#[test]
fn text_contains_whole_characters() {
    assert!(text_contains("na\u{ef}ve", "\u{ef}v"));
    assert!(!text_contains("na\u{ef}ve", "iv"));
    assert!(text_contains("\u{65e5}\u{672c}\u{8a9e}", "\u{672c}"));
    assert!(!text_contains("\u{65e5}\u{672c}\u{8a9e}", "\u{672d}"));
    assert!(text_contains("x", ""));
}

#[test]
fn next_line_steps_over_the_terminator() {
    let content = b"ab\ncd\r\n\nef";
    assert_eq!(next_line(content, 0), Some((2, 3)));
    assert_eq!(next_line(content, 3), Some((5, 7)));
    assert_eq!(next_line(content, 7), Some((7, 8)));
    assert_eq!(next_line(content, 8), Some((10, 10)));
    assert_eq!(next_line(content, 1), Some((2, 3)));
}

#[test]
fn next_line_ends_with_the_bytes() {
    assert_eq!(next_line(b"ab\n", 3), None);
    assert_eq!(next_line(b"ab\n", 4), None);
    assert_eq!(next_line(b"", 0), None);
    assert_eq!(next_line(b"ab", 2), None);
}

#[test]
fn next_line_keeps_a_lone_carriage_return() {
    assert_eq!(next_line(b"a\r", 0), Some((2, 2)));
    assert_eq!(next_line(b"\r\n", 0), Some((0, 2)));
    assert_eq!(next_line(b"\r\r\n", 0), Some((1, 3)));
}

#[test]
fn decimal_text_of_numbers() {
    assert_eq!(decimal_text(0), "0");
    assert_eq!(decimal_text(7), "7");
    assert_eq!(decimal_text(9), "9");
    assert_eq!(decimal_text(10), "10");
    assert_eq!(decimal_text(99), "99");
    assert_eq!(decimal_text(100), "100");
    assert_eq!(decimal_text(1234567890), "1234567890");
    assert_eq!(decimal_text(usize::MAX), usize::MAX.to_string());
}

#[test]
fn format_match_lays_out_a_line() {
    assert_eq!(format_match("a.txt", 3, "some text"), "a.txt (3): some text");
    assert_eq!(format_match("", 0, ""), " (0): ");
    assert_eq!(format_match("dir/b", 120, "x: (y)"), "dir/b (120): x: (y)");
}

#[test]
fn report_keeps_the_order() {
    let results = vec![(0, "Hello".to_string()), (2, "HELLO there".to_string())];
    assert_eq!(
        report("greetings.txt", &results),
        vec!["greetings.txt (0): Hello".to_string(), "greetings.txt (2): HELLO there".to_string()]
    );
    assert_eq!(report("greetings.txt", &Vec::new()), Vec::<String>::new());
}
