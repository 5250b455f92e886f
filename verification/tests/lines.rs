use minigrep::decimal::decimal_string;
use minigrep::lines::split_lines;

fn same_as_std(text: &str) {
    let expected: Vec<&str> = text.lines().collect();
    assert_eq!(split_lines(text), expected, "for {:?}", text);
}

#[test]
fn empty_text_has_no_line() {
    assert_eq!(split_lines(""), Vec::<&str>::new());
}

#[test]
fn text_without_line_feed_is_one_line() {
    assert_eq!(split_lines("foo bar"), vec!["foo bar"]);
}

#[test]
fn final_line_feed_adds_no_line() {
    assert_eq!(split_lines("a\nb\n"), vec!["a", "b"]);
    assert_eq!(split_lines("a\nb"), vec!["a", "b"]);
}

#[test]
fn empty_lines_are_lines() {
    assert_eq!(split_lines("\n"), vec![""]);
    assert_eq!(split_lines("\n\n"), vec!["", ""]);
    assert_eq!(split_lines("a\n\nb"), vec!["a", "", "b"]);
}

#[test]
fn carriage_return_before_line_feed_ends_the_line() {
    assert_eq!(split_lines("a\r\nb\r\n"), vec!["a", "b"]);
    assert_eq!(split_lines("\r\n"), vec![""]);
    assert_eq!(split_lines("a\r\r\nb"), vec!["a\r", "b"]);
}

#[test]
fn carriage_return_elsewhere_stays() {
    assert_eq!(split_lines("a\rb\nc"), vec!["a\rb", "c"]);
    assert_eq!(split_lines("foo\nbar\n\r\nbaz\r"), vec!["foo", "bar", "", "baz\r"]);
    assert_eq!(split_lines("\r"), vec!["\r"]);
}

#[test]
fn lines_keep_their_blanks() {
    assert_eq!(split_lines("  a \n\tb\t\n"), vec!["  a ", "\tb\t"]);
}

#[test]
fn lines_of_text_beyond_ascii() {
    assert_eq!(split_lines("αβγ\nδ\r\n日本語\n😀"), vec!["αβγ", "δ", "日本語", "😀"]);
    assert_eq!(split_lines("é\r"), vec!["é\r"]);
    assert_eq!(split_lines("\u{85}\n\u{2028}"), vec!["\u{85}", "\u{2028}"]);
}

#[test]
fn split_lines_agrees_with_the_standard_library() {
    for text in [
        "",
        "\n",
        "\r",
        "\r\n",
        "\n\r",
        "a",
        "a\n",
        "a\r\n",
        "a\n\r\nb\r",
        "\n\n\n",
        "one\ntwo\r\nthree\rfour\n\rfive",
        "tab\there\nünïcödé\r\n\r\n\u{0}\n",
        "ends with feed\n",
        "무궁화\n꽃이\r\n피었습니다",
    ] {
        same_as_std(text);
    }
}

#[test]
fn decimal_of_small_and_large_numbers() {
    assert_eq!(decimal_string(0), "0");
    assert_eq!(decimal_string(7), "7");
    assert_eq!(decimal_string(9), "9");
    assert_eq!(decimal_string(10), "10");
    assert_eq!(decimal_string(42), "42");
    assert_eq!(decimal_string(100), "100");
    assert_eq!(decimal_string(12345), "12345");
    assert_eq!(decimal_string(9_876_543_210), "9876543210");
    assert_eq!(decimal_string(usize::MAX), usize::MAX.to_string());
}
