use wordle_archive::glyph::{arrow, digit, square};
use wordle_archive::text::{
    chars_of, count_lines, push_decimal, push_hexadecimal4, space, split_lines, split_pieces,
    str_equals, string_of, strip_cr, trim_bounds,
};

#[test]
fn chars_and_strings_convert_both_ways() {
    let text = "a\u{E9}\u{2B1B}\u{1F7E9}z";
    let chars = chars_of(text);
    assert_eq!(chars, vec!['a', '\u{E9}', '\u{2B1B}', '\u{1F7E9}', 'z']);
    assert_eq!(string_of(&chars, 0, 5), text);
    assert_eq!(string_of(&chars, 1, 3), "\u{E9}\u{2B1B}");
    assert_eq!(string_of(&chars, 2, 2), "");
    assert_eq!(chars_of(""), Vec::<char>::new());
}

#[test]
fn strings_are_compared_by_their_characters() {
    assert!(str_equals("", ""));
    assert!(str_equals("geo", "geo"));
    assert!(!str_equals("geo", "ge"));
    assert!(!str_equals("ge", "geo"));
    assert!(!str_equals("geo", "gEo"));
    assert!(str_equals("\u{1F7E9}", "\u{1F7E9}"));
}

#[test]
fn white_space_is_what_the_standard_library_calls_so() {
    for code in 0u32..0x110000 {
        if let Some(c) = char::from_u32(code) {
            assert_eq!(space(c), c.is_whitespace(), "U+{:04X}", code);
        }
    }
}

#[test]
fn glyph_classes_hold_what_they_should() {
    let squares: Vec<char> = (0u32..0x110000).filter_map(char::from_u32).filter(|c| square(*c)).collect();
    assert_eq!(
        squares,
        vec![
            '\u{2B1B}', '\u{2B1C}', '\u{1F7E5}', '\u{1F7E6}', '\u{1F7E7}', '\u{1F7E8}', '\u{1F7E9}',
            '\u{1F7EA}', '\u{1F7EB}',
        ]
    );
    let arrows: Vec<char> = (0u32..0x110000).filter_map(char::from_u32).filter(|c| arrow(*c)).collect();
    assert_eq!(
        arrows,
        vec![
            '\u{2196}', '\u{2197}', '\u{2198}', '\u{2199}', '\u{27A1}', '\u{2B05}', '\u{2B06}',
            '\u{2B07}', '\u{1F389}',
        ]
    );
    let digits: Vec<char> = (0u32..0x110000).filter_map(char::from_u32).filter(|c| digit(*c)).collect();
    assert_eq!(digits, vec!['0', '1', '2', '3', '4', '5', '6', '7', '8', '9']);
}

#[test]
fn trimming_is_as_in_the_standard_library() {
    for text in [
        "",
        " ",
        "a",
        " a",
        "a ",
        "  a b  ",
        "\n\ta\u{A0}b\u{2003}\r\n",
        "\u{3000}\u{85}",
        "\u{200B}x\u{200B}",
        "x\ny\n",
    ] {
        let chars = chars_of(text);
        let (from, to) = trim_bounds(&chars);
        assert_eq!(string_of(&chars, from, to), text.trim());
    }
}

#[test]
fn carriage_returns_are_stripped() {
    assert_eq!(strip_cr("a\r\nb\rc\r"), chars_of("a\nbc"));
    assert_eq!(strip_cr("\r\r"), Vec::<char>::new());
    assert_eq!(strip_cr("abc"), chars_of("abc"));
}

#[test]
fn lines_are_counted_and_split_as_in_the_standard_library() {
    for text in ["", "a", "a\n", "\n", "\n\n", "a\nb", "a\n\nb\n", "\na"] {
        let chars = chars_of(text);
        let expected: Vec<String> = text.split('\n').map(|l| l.to_string()).collect();
        assert_eq!(count_lines(&chars, 0, chars.len()), expected.len());
        assert_eq!(split_lines(&chars, 0, chars.len()), expected);
    }
    let chars = chars_of("ab\ncd\nef");
    assert_eq!(count_lines(&chars, 1, 4), 2);
    assert_eq!(split_lines(&chars, 1, 4), vec!["b".to_string(), "c".to_string()]);
    assert_eq!(
        split_pieces(&chars_of("/a//b/"), 0, 6, '/'),
        vec!["".to_string(), "a".to_string(), "".to_string(), "b".to_string(), "".to_string()]
    );
}

#[test]
fn numerals_are_written_as_the_standard_library_writes_them() {
    for n in [0usize, 1, 9, 10, 11, 99, 100, 101, 12345, 4294967295, usize::MAX] {
        let mut out = String::from("n=");
        push_decimal(&mut out, n);
        assert_eq!(out, format!("n={}", n));
    }
    for n in [0u32, 1, 9, 10, 15, 16, 255, 256, 4095, 4096, 0xFFFF, 0x10000, 0x10FFFF, u32::MAX] {
        let mut out = String::from("U+");
        push_hexadecimal4(&mut out, n);
        assert_eq!(out, format!("U+{:04X}", n));
    }
}
