use tuitr::editor::StyledText;
use tuitr::layout::{
    chunk_text, comment_box_height, comment_editor_height, comment_text_width, comment_top_border,
    div_ceil, file_area_width, line_display_rows, push_wrapped_word, wrap_styled, wrap_text,
};

#[test]
fn div_ceil_rounds_up() {
    assert_eq!(div_ceil(0, 3), 0);
    assert_eq!(div_ceil(7, 3), 3);
    assert_eq!(div_ceil(9, 3), 3);
    assert_eq!(div_ceil(usize::MAX, 2), usize::MAX / 2 + 1);
}

#[test]
fn line_display_rows_counts_wrapped_rows() {
    // 80 columns leave 80 - 11 = 69 for text.
    assert_eq!(line_display_rows("", 80), 1);
    assert_eq!(line_display_rows("abc", 80), 1);
    assert_eq!(line_display_rows(&"x".repeat(69), 80), 1);
    assert_eq!(line_display_rows(&"x".repeat(70), 80), 2);
    assert_eq!(line_display_rows(&"é".repeat(138), 80), 2);
    // A view narrower than the gutter still shows one character per row.
    assert_eq!(line_display_rows("abcd", 5), 4);
}

#[test]
fn comment_text_width_leaves_room_for_the_box() {
    assert_eq!(comment_text_width(80), 65);
    assert_eq!(comment_text_width(15), 1);
    assert_eq!(comment_text_width(3), 1);
}

#[test]
fn comment_editor_height_counts_cursor_mark() {
    // 10 columns leave 8 for text; "abcdefg" plus the mark fill one row.
    assert_eq!(comment_editor_height("abcdefg", 10), 3);
    assert_eq!(comment_editor_height("abcdefgh", 10), 4);
    assert_eq!(comment_editor_height("", 10), 3);
    assert_eq!(comment_editor_height("ab", 0), 5);
}

#[test]
fn file_area_width_subtracts_tree_panel() {
    assert_eq!(file_area_width(100, 25), 75);
    assert_eq!(file_area_width(81, 25), 61);
    assert_eq!(file_area_width(10, 150), 0);
    assert_eq!(file_area_width(65535, 50), 32768);
}

#[test]
fn comment_top_border_carries_title() {
    assert_eq!(comment_top_border(10), "─ note ───");
    assert_eq!(comment_top_border(7), "─ note ");
    assert_eq!(comment_top_border(3), "───");
    assert_eq!(comment_top_border(0), "");
}

#[test]
fn wrap_text_breaks_between_words() {
    assert_eq!(wrap_text("hello big world", 9), vec!["hello big", "world"]);
    assert_eq!(wrap_text("a  b\n\nc", 10), vec!["a b", "", "c"]);
    assert_eq!(wrap_text("", 5), vec![""]);
    assert_eq!(wrap_text("abcdefgh ij", 3), vec!["abc", "def", "gh", "ij"]);
    assert_eq!(wrap_text("ab", 0), vec!["a", "b"]);
}

#[test]
fn push_wrapped_word_cuts_long_words() {
    let mut lines: Vec<String> = Vec::new();
    let mut line = "ab".to_string();
    push_wrapped_word(&mut lines, &mut line, "cdefg", 3);
    assert_eq!(lines, vec!["abc", "def"]);
    assert_eq!(line, "g");
}

#[test]
fn comment_box_height_adds_borders() {
    // 80 columns give 65 for the comment text.
    assert_eq!(comment_box_height("short note", 80), 3);
    assert_eq!(comment_box_height(&"word ".repeat(20), 80), 4);
    assert_eq!(comment_box_height("one\ntwo", 80), 4);
}

fn piece(fg: (u8, u8, u8), text: &str) -> StyledText {
    StyledText { fg, text: text.to_string() }
}

#[test]
fn wrap_styled_splits_pieces_at_width() {
    let red = (255, 0, 0);
    let blue = (0, 0, 255);
    let rows = wrap_styled(&vec![piece(red, "abcd"), piece(blue, "efg")], 3);
    let shown: Vec<Vec<(String, (u8, u8, u8))>> = rows
        .iter()
        .map(|r| r.iter().map(|p| (p.text.clone(), p.fg)).collect())
        .collect();
    assert_eq!(
        shown,
        vec![
            vec![("abc".to_string(), red)],
            vec![("d".to_string(), red), ("ef".to_string(), blue)],
            vec![("g".to_string(), blue)],
        ]
    );
    let empty = wrap_styled(&Vec::new(), 5);
    assert_eq!(empty.len(), 1);
    assert!(empty[0].is_empty());
}

#[test]
fn chunk_text_cuts_rows() {
    assert_eq!(chunk_text("abcdefg", 3), vec!["abc", "def", "g"]);
    assert_eq!(chunk_text("", 3), vec![""]);
    assert_eq!(chunk_text("ab", 0), vec!["a", "b"]);
}
