use errfmt::Indented;

#[test]
fn one_digit() {
    let input = "verify\nthis";
    let expected = "    2: verify\n       this";
    let mut output = String::new();

    let mut indented = Indented { ind: Some(2), started: false };
    indented.write_str(input, &mut output);

    assert_eq!(expected, output);
}

#[test]
fn two_digits() {
    let input = "verify\nthis";
    let expected = "   12: verify\n       this";
    let mut output = String::new();

    let mut indented = Indented { ind: Some(12), started: false };
    indented.write_str(input, &mut output);

    assert_eq!(expected, output);
}

#[test]
fn no_digits() {
    let input = "verify\nthis";
    let expected = "    verify\n    this";
    let mut output = String::new();

    let mut indented = Indented { ind: None, started: false };
    indented.write_str(input, &mut output);

    assert_eq!(expected, output);
}

#[test]
fn single_line_trimmed() {
    let mut output = String::new();
    let mut indented = Indented::numbered(7);
    indented.write_str("  hello  ", &mut output);
    assert_eq!(output, "    7: hello");
}

#[test]
fn leading_blank_lines_are_invisible() {
    let mut with_blanks = String::new();
    let mut indented = Indented::numbered(3);
    indented.write_str("\n   \n  msg", &mut with_blanks);

    let mut without_blanks = String::new();
    let mut indented2 = Indented::numbered(3);
    indented2.write_str("msg", &mut without_blanks);

    assert_eq!(with_blanks, "    3: msg");
    assert_eq!(with_blanks, without_blanks);
}

#[test]
fn blank_fragment_keeps_label_for_later_fragment() {
    let mut output = String::new();
    let mut indented = Indented::numbered(0);
    indented.write_str("  \n ", &mut output);
    assert_eq!(output, "");
    assert!(!indented.started);

    indented.write_str("hello", &mut output);
    indented.write_str(" world", &mut output);
    indented.write_str("\nnext", &mut output);
    assert_eq!(output, "    0: hello world\n       next");
}

#[test]
fn wide_label_overflows_field() {
    let mut output = String::new();
    let mut indented = Indented::numbered(123456);
    indented.write_str("x", &mut output);
    assert_eq!(output, "123456: x");
}

#[test]
fn whitespace_only_message_writes_nothing() {
    let mut output = String::new();
    let mut indented = Indented::numbered(4);
    indented.write_str(" \t \n  \n", &mut output);
    assert_eq!(output, "");
    assert!(!indented.started);
}

#[test]
fn continuation_lines_not_trimmed() {
    let mut output = String::new();
    let mut indented = Indented::numbered(1);
    indented.write_str("head\n  tail  ", &mut output);
    assert_eq!(output, "    1: head\n         tail  ");
}

#[test]
fn unnumbered_matches_plain_label() {
    let mut output = String::new();
    let mut indented = Indented::unnumbered();
    indented.write_str("verify\nthis", &mut output);
    assert_eq!(output, "    verify\n    this");
}
