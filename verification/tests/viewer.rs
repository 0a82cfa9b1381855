use std::collections::HashMap;

use tuitr::diff::{DiffRow, DiffRowKind};
use tuitr::editor::{App, CommentChange, Focus, Mode, ViewMode};
use tuitr::highlight::Highlighter;
use tuitr::tree::FileTree;

fn lines(v: &[&str]) -> Vec<String> {
    v.iter().map(|s| s.to_string()).collect()
}

fn app_with(ls: Vec<String>) -> App {
    let n = ls.len();
    App {
        file_path: "/test/file.rs".to_string(),
        lines: ls,
        comments: HashMap::new(),
        cursor: 0,
        editing_line: 0,
        scroll: 0,
        view_height: 20,
        view_width: 80,
        tree_width_pct: 25,
        mode: Mode::Normal,
        focus: Focus::File,
        input: String::new(),
        status: None,
        tree: FileTree::new("/tmp".to_string(), &Vec::new()),
        highlighted_lines: (0..n).map(|_| Vec::new()).collect(),
        search_query: String::new(),
        search_input: String::new(),
        search_matches: Vec::new(),
        search_match_idx: 0,
        view_mode: ViewMode::Source,
        compiled_lines: None,
        diff_rows: None,
    }
}

// --- compute_matches ---

#[test]
fn compute_matches_case_insensitive() {
    let mut app = app_with(lines(&["foo bar", "baz", "FOO"]));
    app.search_query = "foo".to_string();
    app.compute_matches();
    assert_eq!(app.search_matches, vec![0, 2]);
}

#[test]
fn compute_matches_empty_query_clears() {
    let mut app = app_with(lines(&["foo", "bar"]));
    app.search_matches = vec![0];
    app.search_query = String::new();
    app.compute_matches();
    assert!(app.search_matches.is_empty());
}

// --- next_match / prev_match ---

#[test]
fn next_match_wraps_to_first() {
    let mut app = app_with(lines(&["a", "b", "a"]));
    app.search_matches = vec![0, 2];
    app.search_match_idx = 1;
    app.cursor = 2;
    app.next_match();
    assert_eq!(app.search_match_idx, 0);
    assert_eq!(app.cursor, 0);
}

#[test]
fn prev_match_wraps_to_last() {
    let mut app = app_with(lines(&["a", "b", "a"]));
    app.search_matches = vec![0, 2];
    app.search_match_idx = 0;
    app.cursor = 0;
    app.prev_match();
    assert_eq!(app.search_match_idx, 1);
    assert_eq!(app.cursor, 2);
}

// --- navigation bounds ---

#[test]
fn move_down_bounded_at_last_line() {
    let mut app = app_with(lines(&["only"]));
    app.move_down();
    assert_eq!(app.cursor, 0);
}

#[test]
fn app_move_up_bounded_at_zero() {
    let mut app = app_with(lines(&["a", "b"]));
    app.move_up();
    assert_eq!(app.cursor, 0);
}

// --- scroll_to_cursor ---

#[test]
fn scroll_advances_when_cursor_below_viewport() {
    let many: Vec<String> = (0..50).map(|i| format!("line {i}")).collect();
    let mut app = app_with(many);
    app.view_height = 10;
    app.view_width = 80;
    app.cursor = 20;
    app.scroll = 0;
    app.scroll_to_cursor();
    assert!(app.scroll > 0);
    assert!(app.cursor >= app.scroll);
}

#[test]
fn scroll_resets_when_cursor_above_scroll() {
    let many: Vec<String> = (0..50).map(|i| format!("line {i}")).collect();
    let mut app = app_with(many);
    app.view_height = 10;
    app.view_width = 80;
    app.scroll = 10;
    app.cursor = 5;
    app.scroll_to_cursor();
    assert_eq!(app.scroll, 5);
}

// --- comment CRUD ---

#[test]
fn confirm_comment_inserts_into_hashmap_and_db() {
    let mut app = app_with(lines(&["line one", "line two"]));
    app.cursor = 0;
    app.editing_line = 0;
    app.input = "my note".to_string();
    let change = app.confirm_comment();
    assert_eq!(app.comments.get(&0), Some(&"my note".to_string()));
    // The change handed to the comment store is one saved row for line 0.
    match change {
        CommentChange::Save { line, text } => {
            assert_eq!(line, 0);
            assert_eq!(text, "my note");
        }
        CommentChange::Delete { .. } => panic!("expected a saved comment"),
    }
}

#[test]
fn confirm_comment_whitespace_only_removes() {
    let mut app = app_with(lines(&["line one"]));
    app.cursor = 0;
    app.editing_line = 0;
    app.comments.insert(0, "existing".to_string());
    app.input = "   ".to_string();
    app.confirm_comment();
    assert!(!app.comments.contains_key(&0));
}

#[test]
fn delete_comment_removes_from_hashmap_and_db() {
    let mut app = app_with(lines(&["line one"]));
    app.cursor = 0;
    app.editing_line = 0;
    app.comments.insert(0, "note".to_string());
    let removed = app.delete_comment();
    assert!(!app.comments.contains_key(&0));
    // The comment store is asked to drop the row of line 0.
    assert_eq!(removed, Some(0));
}

// --- source_line_for_cursor ---

#[test]
fn source_line_for_cursor_source_returns_cursor() {
    let mut app = app_with(lines(&["a", "b"]));
    app.cursor = 1;
    assert_eq!(app.source_line_for_cursor(), Some(1));
}

#[test]
fn source_line_for_cursor_gitdiff_maps_new_line() {
    let mut app = app_with(lines(&["a", "b", "c"]));
    app.view_mode = ViewMode::GitDiff;
    app.diff_rows = Some(vec![DiffRow {
        old: None,
        new: Some((3, "c".into())),
        kind: DiffRowKind::Changed,
    }]);
    app.cursor = 0;
    assert_eq!(app.source_line_for_cursor(), Some(2));
}

#[test]
fn source_line_for_cursor_gitdiff_old_only_is_none() {
    let mut app = app_with(lines(&["a"]));
    app.view_mode = ViewMode::GitDiff;
    app.diff_rows = Some(vec![DiffRow {
        old: Some((1, "a".into())),
        new: None,
        kind: DiffRowKind::Changed,
    }]);
    app.cursor = 0;
    assert_eq!(app.source_line_for_cursor(), None);
}

#[test]
fn source_line_for_cursor_latex_is_none() {
    let mut app = app_with(lines(&["x"]));
    app.view_mode = ViewMode::LatexCompiled;
    app.compiled_lines = Some(vec!["compiled".into()]);
    assert_eq!(app.source_line_for_cursor(), None);
}

// --- view_len / move_down in non-source views ---

#[test]
fn move_down_bounded_by_diff_rows() {
    let mut app = app_with(lines(&["a", "b", "c"]));
    app.view_mode = ViewMode::GitDiff;
    app.diff_rows = Some(vec![DiffRow {
        old: None,
        new: Some((1, "a".into())),
        kind: DiffRowKind::Context,
    }]);
    app.cursor = 0;
    app.move_down();
    assert_eq!(app.cursor, 0);
}

#[test]
fn start_comment_latex_blocks_with_status() {
    let mut app = app_with(lines(&["x"]));
    app.view_mode = ViewMode::LatexCompiled;
    app.compiled_lines = Some(vec!["compiled".into()]);
    app.start_comment();
    assert!(app.status.is_some());
    assert!(matches!(app.mode, Mode::Normal));
}

#[test]
fn delete_comment_latex_blocks_with_status() {
    let mut app = app_with(lines(&["x"]));
    app.view_mode = ViewMode::LatexCompiled;
    app.compiled_lines = Some(vec!["compiled".into()]);
    app.delete_comment();
    assert!(app.status.is_some());
}

#[test]
fn confirm_comment_uses_editing_line_not_cursor() {
    let mut app = app_with(lines(&["a", "b", "c"]));
    app.cursor = 2;
    app.editing_line = 1;
    app.input = "note on line 1".to_string();
    app.confirm_comment();
    assert!(app.comments.contains_key(&1));
    assert!(!app.comments.contains_key(&2));
}

// --- reload_file: the caller reads the file and hands over its text ---

#[test]
fn reload_file_updates_lines() {
    let hl = Highlighter::new();
    let mut app = app_with(lines(&[]));
    app.reload_file(Some("alpha\nbeta\n"), &hl);
    assert_eq!(app.lines, vec!["alpha", "beta"]);
}

#[test]
fn reload_file_clamps_cursor_when_file_shrinks() {
    let hl = Highlighter::new();
    let mut app = app_with(lines(&["a", "b", "c", "d", "e"]));
    app.cursor = 4;
    app.reload_file(Some("only\n"), &hl);
    assert_eq!(app.cursor, 0);
}

#[test]
fn reload_file_adjusts_scroll_after_shrink() {
    let hl = Highlighter::new();
    let mut app = app_with(lines(&["a", "b", "c", "d", "e"]));
    app.cursor = 4;
    app.scroll = 4;
    app.view_height = 10;
    app.reload_file(Some("only\n"), &hl);
    assert_eq!(app.scroll, 0);
}

#[test]
fn reload_file_ok_when_file_deleted() {
    let hl = Highlighter::new();
    let mut app = app_with(lines(&["a", "b"]));
    app.file_path = "/tmp/tuitr_nonexistent_file_xyz".to_string();
    // A file that could not be read hands over no text.
    app.reload_file(None, &hl);
    assert!(app.status.is_none());
    assert_eq!(app.lines, vec!["a", "b"]);
}

#[test]
fn scroll_stays_on_cursor_row_taller_than_view() {
    let mut app = app_with(vec!["x".repeat(200)]);
    app.view_height = 1;
    app.view_width = 80;
    app.cursor = 0;
    app.scroll = 0;
    app.scroll_to_cursor();
    assert_eq!(app.scroll, 0);
}

#[test]
fn scroll_stops_at_cursor_when_its_comment_box_does_not_fit() {
    let mut app = app_with(lines(&["a", "b", "c", "d", "e"]));
    app.view_height = 2;
    app.comments.insert(4, "a note".to_string());
    app.cursor = 4;
    app.scroll = 0;
    app.scroll_to_cursor();
    assert_eq!(app.scroll, 4);
}
