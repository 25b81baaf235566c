use openai_compat::text::{
    chars_of, decimal_text, is_white_space, join_lines, split_at_line_feeds, text_of, trim,
    trim_trailing_cr,
};

fn owned(parts: &[&str]) -> Vec<String> {
    parts.iter().map(|part| part.to_string()).collect()
}

#[test]
fn lines_are_joined_with_line_feeds() {
    assert_eq!(join_lines(&owned(&[])), "");
    assert_eq!(join_lines(&owned(&["a"])), "a");
    assert_eq!(join_lines(&owned(&["a", "", "b\u{e9}"])), "a\n\nb\u{e9}");
}

#[test]
fn a_text_is_cut_at_its_line_feeds() {
    assert_eq!(split_at_line_feeds(""), owned(&[""]));
    assert_eq!(split_at_line_feeds("a"), owned(&["a"]));
    assert_eq!(split_at_line_feeds("a\n"), owned(&["a", ""]));
    assert_eq!(split_at_line_feeds("\n\nb\r\nc"), owned(&["", "", "b\r", "c"]));
}

#[test]
fn the_lines_make_up_the_text() {
    for text in ["", "\n", "a\nb", "a\n\n", "\u{1f600}\nx\n"] {
        let parts = split_at_line_feeds(text);
        assert_eq!(join_lines(&parts), text);
        assert!(parts.iter().all(|part| !part.contains('\n')));
        assert_eq!(parts, text.split('\n').map(|part| part.to_string()).collect::<Vec<_>>());
    }
}

#[test]
fn carriage_returns_at_the_end_go() {
    assert_eq!(trim_trailing_cr("data\r\r"), "data");
    assert_eq!(trim_trailing_cr("\rdata"), "\rdata");
    assert_eq!(trim_trailing_cr("a\r "), "a\r ");
    assert_eq!(trim_trailing_cr("\r"), "");
    assert_eq!(trim_trailing_cr(""), "");
}

#[test]
fn white_space_is_that_of_unicode() {
    for code in 0..=0x10ffffu32 {
        if let Some(ch) = char::from_u32(code) {
            assert_eq!(is_white_space(ch), ch.is_whitespace(), "{:x}", code);
        }
    }
}

#[test]
fn white_space_goes_at_both_ends() {
    assert_eq!(trim("  [DONE]\t\n"), "[DONE]");
    assert_eq!(trim("\u{3000}a b\u{a0}"), "a b");
    assert_eq!(trim(" \n "), "");
    assert_eq!(trim(""), "");
    assert_eq!(trim("x"), "x");
}

#[test]
fn numbers_are_written_in_decimal() {
    assert_eq!(decimal_text(0), "0");
    assert_eq!(decimal_text(9), "9");
    assert_eq!(decimal_text(10), "10");
    assert_eq!(decimal_text(1234567890), "1234567890");
    assert_eq!(decimal_text(usize::MAX), usize::MAX.to_string());
}

#[test]
fn characters_and_texts() {
    let chars = chars_of("h\u{e9}llo");
    assert_eq!(chars, vec!['h', '\u{e9}', 'l', 'l', 'o']);
    assert_eq!(text_of(&chars, 1, 3), "\u{e9}l");
    assert_eq!(text_of(&chars, 2, 2), "");
}
