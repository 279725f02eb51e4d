use microtree::input::Input;
use microtree::text::{char_len, fits_offsets, str_eq, str_slice, TextRange};

#[test]
fn new_input_spans_the_text() {
    let input = Input::new("hello");
    assert_eq!(input.cursor(), 0);
    assert_eq!(input.range().start(), 0);
    assert_eq!(input.range().end(), 5);
    assert_eq!(input.as_ref(), "hello");
}

#[test]
fn chomp_takes_characters_off_the_front() {
    let mut input = Input::new("hello world");
    assert_eq!(input.chomp(5).as_str(), "hello");
    assert_eq!(input.cursor(), 5);
    assert_eq!(input.as_ref(), " world");
    assert_eq!(input.chomp(1).as_str(), " ");
    assert_eq!(input.cursor(), 6);
    assert_eq!(input.chomp(2).as_str(), "wo");
    assert_eq!(input.as_ref(), "rld");
}

#[test]
fn chomp_counts_characters_and_moves_by_bytes() {
    let mut input = Input::new("\u{e9}\u{4e16}\u{1f600}x");
    assert_eq!(input.chomp(1).as_str(), "\u{e9}");
    assert_eq!(input.cursor(), 2);
    assert_eq!(input.chomp(2).as_str(), "\u{4e16}\u{1f600}");
    assert_eq!(input.cursor(), 9);
    assert_eq!(input.chomp(1).as_str(), "x");
    assert_eq!(input.cursor(), 10);
    assert_eq!(input.as_ref(), "");
}

#[test]
fn chomp_takes_what_is_left_where_there_is_less() {
    let mut input = Input::new("ab");
    assert_eq!(input.chomp(5).as_str(), "ab");
    assert_eq!(input.cursor(), 2);
    assert_eq!(input.chomp(1).as_str(), "");
    assert_eq!(input.cursor(), 2);
    let mut empty = Input::new("");
    assert_eq!(empty.chomp(3).as_str(), "");
    assert_eq!(empty.cursor(), 0);
}

#[test]
fn cursor_can_be_set() {
    let mut input = Input::new("hello world");
    input.set_cursor(6);
    assert_eq!(input.cursor(), 6);
    assert_eq!(input.as_ref(), "world");
    assert_eq!(input.range().end(), 11);
    input.set_cursor(0);
    assert_eq!(input.as_ref(), "hello world");
    input.set_cursor(11);
    assert_eq!(input.as_ref(), "");
}

#[test]
fn range_can_be_set() {
    let mut input = Input::new("hello world");
    input.set_range(TextRange::new(2, 7));
    assert_eq!(input.cursor(), 2);
    assert_eq!(input.as_ref(), "llo w");
    assert_eq!(input.chomp(10).as_str(), "llo w");
    assert_eq!(input.cursor(), 7);
    assert_eq!(input.range().end(), 7);
}

#[test]
fn str_for_range_reads_anywhere() {
    let mut input = Input::new("hello \u{4e16}\u{754c}!");
    input.set_cursor(6);
    assert_eq!(input.str_for_range(TextRange::new(0, 5)).as_str(), "hello");
    assert_eq!(input.str_for_range(TextRange::new(6, 9)).as_str(), "\u{4e16}");
    assert_eq!(input.str_for_range(TextRange::new(6, 13)).as_str(), "\u{4e16}\u{754c}!");
    assert_eq!(input.str_for_range(TextRange::new(3, 3)).as_str(), "");
    assert_eq!(input.cursor(), 6);
}

#[test]
fn ranges_are_made_and_read() {
    let range = TextRange::new(3, 8);
    assert_eq!(range.start(), 3);
    assert_eq!(range.end(), 8);
    assert_eq!(range.len(), 5);
    assert!(!range.is_empty());
    let at = TextRange::at(3, 5);
    assert_eq!(at, range);
    let up_to = TextRange::up_to(4);
    assert_eq!(up_to.start(), 0);
    assert_eq!(up_to.end(), 4);
    let empty = TextRange::empty(9);
    assert_eq!(empty.start(), 9);
    assert_eq!(empty.end(), 9);
    assert_eq!(empty.len(), 0);
    assert!(empty.is_empty());
}

#[test]
fn strings_are_sliced_by_bytes_and_compared() {
    assert_eq!(str_slice("hello world", 6, 11), "world");
    assert_eq!(str_slice("a\u{e9}b", 1, 3), "\u{e9}");
    assert_eq!(str_slice("abc", 0, 0), "");
    assert_eq!(str_slice("abc", 0, 3), "abc");
    assert!(str_eq("abc", "abc"));
    assert!(!str_eq("abc", "abd"));
    assert!(!str_eq("abc", "ab"));
    assert!(str_eq("", ""));
    assert!(!str_eq("", "a"));
}

#[test]
fn short_texts_fit_offsets() {
    assert!(fits_offsets(""));
    assert!(fits_offsets("hello \u{4e16}"));
}

#[test]
fn characters_take_one_to_four_bytes() {
    assert_eq!(char_len('a'), 1);
    assert_eq!(char_len('\u{7f}'), 1);
    assert_eq!(char_len('\u{80}'), 2);
    assert_eq!(char_len('\u{e9}'), 2);
    assert_eq!(char_len('\u{7ff}'), 2);
    assert_eq!(char_len('\u{800}'), 3);
    assert_eq!(char_len('\u{4e16}'), 3);
    assert_eq!(char_len('\u{ffff}'), 3);
    assert_eq!(char_len('\u{10000}'), 4);
    assert_eq!(char_len('\u{1f600}'), 4);
    for c in ['a', '\u{e9}', '\u{4e16}', '\u{1f600}'] {
        assert_eq!(char_len(c), c.len_utf8());
    }
}

#[test]
fn validity_of_the_window_is_tested() {
    let mut input = Input::new("a\u{e9}b");
    assert!(input.is_valid());
    input.set_cursor(1);
    assert!(input.is_valid());
    input.set_cursor(2);
    assert!(!input.is_valid());
    input.set_cursor(3);
    assert!(input.is_valid());
    input.set_range(TextRange::new(0, 2));
    assert!(!input.is_valid());
    input.set_range(TextRange::new(0, 4));
    assert!(input.is_valid());
    input.set_range(TextRange::new(4, 4));
    assert!(input.is_valid());
    input.set_range(TextRange::new(0, 5));
    assert!(!input.is_valid());
    input.set_range(TextRange::new(5, 9));
    assert!(!input.is_valid());
}
