use ascii_frames::text::{
    char_is_whitespace, chars_of, decimal_string, line_at, read_u32, starts_with, string_of,
    trim_bounds,
};

fn number(text: &str) -> Option<u32> {
    let v: Vec<char> = text.chars().collect();
    read_u32(&v, 0, v.len())
}

#[test]
fn numbers_are_read_as_the_standard_library_reads_them() {
    let texts = [
        "", "0", "7", "42", "0042", "+42", "-42", "+", "-", "++1", "+-1", " 1", "1 ", "1_000",
        "4294967295", "4294967296", "04294967295", "99999999999999999999999999", "12a", "a12",
        "١٢", "1.5", "0x10", "+0", "00000000000000000000000000000000000000001",
    ];
    for text in texts {
        assert_eq!(number(text), text.parse::<u32>().ok(), "{text:?}");
    }
}

#[test]
fn a_number_is_read_from_a_part_of_the_text() {
    let v: Vec<char> = "ab123cd".chars().collect();
    assert_eq!(read_u32(&v, 2, 5), Some(123));
    assert_eq!(read_u32(&v, 2, 6), None);
    assert_eq!(read_u32(&v, 3, 3), None);
}

#[test]
fn numbers_are_written_in_base_ten() {
    assert_eq!(decimal_string(0), "0");
    assert_eq!(decimal_string(9), "9");
    assert_eq!(decimal_string(10), "10");
    assert_eq!(decimal_string(1234567890), "1234567890");
    assert_eq!(decimal_string(u128::MAX), u128::MAX.to_string());
    for n in [0u32, 1, 99, 100, 4294967295] {
        assert_eq!(number(&decimal_string(n as u128)), Some(n));
    }
}

#[test]
fn texts_are_taken_apart_and_put_together() {
    let v = chars_of("héllo\n");
    assert_eq!(v, vec!['h', 'é', 'l', 'l', 'o', '\n']);
    assert_eq!(string_of(&v, 1, 4), "éll");
    assert_eq!(string_of(&v, 2, 2), "");
    assert!(starts_with(&v, &['h', 'é']));
    assert!(starts_with(&v, &[]));
    assert!(!starts_with(&v, &['h', 'e']));
    assert!(!starts_with(&['h'], &['h', 'é']));
}

fn lines_of(text: &str) -> Vec<String> {
    let v: Vec<char> = text.chars().collect();
    let mut lines = Vec::new();
    let mut at = 0;
    while at < v.len() {
        let (end, next) = line_at(&v, at);
        lines.push(v[at..end].iter().collect());
        at = next;
    }
    lines
}

#[test]
fn lines_are_split_as_the_standard_library_splits_them() {
    let texts = [
        "", "a", "a\n", "a\nb", "a\n\nb\n", "\n", "\n\n", "a\r\nb\r\n", "a\rb", "a\r", "\r\n",
        "\r", "a\r\r\nb", "a\n\r", "AB\nCD\n", "x\r\n\r\ny",
    ];
    for text in texts {
        let expected: Vec<String> = text.lines().map(|l| l.to_string()).collect();
        assert_eq!(lines_of(text), expected, "{text:?}");
    }
}

#[test]
fn white_space_is_what_the_standard_library_takes_for_it() {
    for code in 0..0x11000u32 {
        if let Some(c) = char::from_u32(code) {
            assert_eq!(char_is_whitespace(c), c.is_whitespace(), "{code:#x}");
        }
    }
}

#[test]
fn trimming_is_that_of_the_standard_library() {
    let texts = ["", " ", "  a  ", "a", "\t a b \r\n", "\u{a0}x\u{3000}", "   ", " a", "a "];
    for text in texts {
        let v: Vec<char> = text.chars().collect();
        let (from, to) = trim_bounds(&v, 0, v.len());
        let trimmed: String = v[from..to].iter().collect();
        assert_eq!(trimmed, text.trim(), "{text:?}");
    }
    let v: Vec<char> = "ab  cd  ef".chars().collect();
    assert_eq!(trim_bounds(&v, 2, 8), (4, 6));
    assert_eq!(trim_bounds(&v, 2, 4), (4, 4));
}
