use gauss_seidel::text::pad_string;

#[test]
fn pads_every_line() {
    assert_eq!(pad_string("a\nb", 2), "  a\n  b");
}

#[test]
fn empty_text_stays_empty() {
    assert_eq!(pad_string("", 3), "");
}

#[test]
fn trailing_newline_is_dropped() {
    assert_eq!(pad_string("a\n", 2), "  a");
}

#[test]
fn carriage_return_line_endings_are_normalized() {
    assert_eq!(pad_string("a\r\nb", 1), " a\n b");
}

#[test]
fn empty_lines_are_padded_too() {
    assert_eq!(pad_string("a\n\nb", 1), " a\n \n b");
}

#[test]
fn zero_padding_keeps_the_text() {
    assert_eq!(pad_string("x\ny", 0), "x\ny");
}
