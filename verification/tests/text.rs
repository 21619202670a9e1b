use linestream::text::char_is_whitespace;
use linestream::text::count_words;
use linestream::text::decimal_len;
use linestream::text::push_decimal;
use linestream::text::push_right_aligned;
use linestream::text::push_spaces;

#[test]
fn whitespace_is_what_unicode_says() {
    let mut code: u32 = 0;
    while code <= 0x10FFFF {
        if let Some(c) = char::from_u32(code) {
            assert_eq!(char_is_whitespace(c), c.is_whitespace(), "U+{:04X}", code);
        }
        code += 1;
    }
}

#[test]
fn words_are_runs_between_whitespace() {
    let samples = [
        "",
        " ",
        "a",
        " a",
        "a ",
        "one two  three\tfour\nfive",
        "\u{2003}wide\u{2003}spaces\u{3000}",
        "I don't want the world. I just want your half.\r\n",
        "no-break\u{a0}space line\u{2028}separator",
    ];
    for text in samples {
        assert_eq!(count_words(text), text.split_whitespace().count(), "{:?}", text);
    }
    assert_eq!(count_words("one two  three\tfour\nfive"), 5);
}

#[test]
fn decimal_digits_of_numbers() {
    let numbers = [0u64, 1, 9, 10, 11, 99, 100, 12345, 1_000_000, u64::MAX];
    for n in numbers {
        let mut text = String::from("n=");
        push_decimal(&mut text, n);
        assert_eq!(text, format!("n={}", n));
        assert_eq!(decimal_len(n), n.to_string().len());
    }
    let mut text = String::new();
    push_decimal(&mut text, 4096);
    assert_eq!(text, "4096");
}

#[test]
fn numbers_are_right_aligned() {
    let cases = [(0u64, 8usize), (7, 4), (1234, 4), (12345, 4), (42, 0), (42, 1), (42, 3)];
    for (n, width) in cases {
        let mut text = String::new();
        push_right_aligned(&mut text, n, width);
        assert_eq!(text, format!("{:>width$}", n, width = width));
    }
    let mut text = String::from("[");
    push_right_aligned(&mut text, 7, 4);
    assert_eq!(text, "[   7");
}

#[test]
fn spaces_are_appended() {
    let mut text = String::from("x");
    push_spaces(&mut text, 0);
    assert_eq!(text, "x");
    push_spaces(&mut text, 3);
    assert_eq!(text, "x   ");
}
