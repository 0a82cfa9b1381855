use std::collections::HashMap;

use tuitr::editor::{App, CommentChange, Opened};
use tuitr::highlight::Highlighter;
use tuitr::editor::StyledText;
use tuitr::layout::{chunk_text, comment_box_height, line_display_rows, wrap_styled, wrap_text};
use tuitr::screen::source_lines;
use tuitr::tree::{sort_entries, DirEntry, DirListing, FileTree};

fn open(content: &str) -> App {
    App::new(
        Opened::File { path: "/p/notes.md".to_string(), content: content.to_string() },
        FileTree::new("/p".to_string(), &Vec::new()),
        HashMap::new(),
        &Highlighter::new(),
    )
}

#[test]
fn next_then_prev_returns_to_match() {
    let mut app = open("a\nb\na\nb\na");
    app.search_query = "a".to_string();
    app.compute_matches();
    for start in 0..3 {
        app.search_match_idx = start;
        app.next_match();
        app.prev_match();
        assert_eq!(app.search_match_idx, start);
        assert_eq!(app.cursor, app.search_matches[start]);
        app.prev_match();
        app.next_match();
        assert_eq!(app.search_match_idx, start);
    }
}

#[test]
fn down_then_up_returns_to_row() {
    let mut app = open("1\n2\n3\n4");
    for start in 0..3 {
        app.cursor = start;
        app.move_down();
        app.move_up();
        assert_eq!(app.cursor, start);
    }
}

#[test]
fn moves_stay_in_view() {
    let mut app = open("1\n2\n3");
    for _ in 0..5 {
        app.move_down();
        assert!(app.cursor < app.lines.len());
    }
    app.move_bottom();
    assert_eq!(app.cursor, 2);
    for _ in 0..5 {
        app.move_up();
        assert!(app.cursor < app.lines.len());
    }
}

#[test]
fn scroll_keeps_cursor_visible() {
    let text: Vec<String> = (0..40).map(|i| format!("line {i}")).collect();
    let mut app = open(&text.join("\n"));
    app.view_height = 6;
    app.comments.insert(3, "a comment that takes a box".to_string());
    for target in [0usize, 10, 39, 5, 20] {
        app.cursor = target;
        app.scroll_to_cursor();
        assert!(app.scroll <= app.cursor);
        // Rows from the top of the view to the cursor fit in the view.
        let rows: usize = (app.scroll..=app.cursor)
            .map(|i| 1 + if app.comments.contains_key(&i) { 3 } else { 0 })
            .sum();
        assert!(rows <= app.view_height);
    }
}

#[test]
fn recorded_change_matches_comments() {
    let mut app = open("x\ny");
    app.editing_line = 1;
    app.input = " keep ".to_string();
    match app.confirm_comment() {
        CommentChange::Save { line, text } => assert_eq!(app.comments.get(&line), Some(&text)),
        CommentChange::Delete { .. } => panic!("expected a save"),
    }
    app.input = "  ".to_string();
    match app.confirm_comment() {
        CommentChange::Delete { line } => assert!(!app.comments.contains_key(&line)),
        CommentChange::Save { .. } => panic!("expected a deletion"),
    }
}

#[test]
fn editing_without_change_keeps_comments() {
    let mut app = open("x\ny");
    app.comments.insert(0, "keep me".to_string());
    app.comments.insert(1, "other".to_string());
    let before = app.comments.clone();
    app.start_comment();
    app.confirm_comment();
    assert_eq!(app.comments, before);
    app.cursor = 1;
    app.comments.remove(&1);
    let before = app.comments.clone();
    app.start_comment();
    app.confirm_comment();
    assert_eq!(app.comments, before);
}

fn entry(name: &str, is_dir: bool) -> DirEntry {
    DirEntry { path: format!("/r/{name}"), name: name.to_string(), is_dir }
}

#[test]
fn sorted_entries_are_ordered_and_complete() {
    let es = vec![
        entry("zeta", false),
        entry("Beta", true),
        entry("alpha", false),
        entry("beta", true),
        entry("Alpha", false),
    ];
    let sorted = sort_entries(&es);
    let names: Vec<(&str, bool)> = sorted.iter().map(|e| (e.name.as_str(), e.is_dir)).collect();
    assert_eq!(
        names,
        vec![("Beta", true), ("beta", true), ("Alpha", false), ("alpha", false), ("zeta", false)]
    );
}

#[test]
fn toggling_twice_restores_tree() {
    let listings = vec![
        DirListing { dir: "/r".to_string(), entries: vec![entry("d", true), entry("f", false)] },
        DirListing {
            dir: "/r/d".to_string(),
            entries: vec![DirEntry { path: "/r/d/x".to_string(), name: "x".to_string(), is_dir: false }],
        },
    ];
    let mut t = FileTree::new("/r".to_string(), &listings);
    let before: Vec<(String, usize, bool, bool)> =
        t.entries.iter().map(|e| (e.path.clone(), e.depth, e.is_dir, e.is_expanded)).collect();
    t.toggle_expand(&listings);
    assert_eq!(t.entries.len(), 3);
    t.toggle_expand(&listings);
    let after: Vec<(String, usize, bool, bool)> =
        t.entries.iter().map(|e| (e.path.clone(), e.depth, e.is_dir, e.is_expanded)).collect();
    assert_eq!(before, after);
    assert!(t.expanded_paths().is_empty());
}

#[test]
fn wrapped_rows_fit_width() {
    let text = "a quick brown fox jumps over the extraordinarily lazy dog\n\nend";
    for width in 0..20 {
        let rows = wrap_text(text, width);
        assert!(!rows.is_empty());
        for r in &rows {
            assert!(r.chars().count() <= width.max(1));
        }
    }
}

#[test]
fn wrapping_keeps_visible_text() {
    let text = "  split   these\twords,\r\nplease\nsupercalifragilistic  ";
    let visible: String = text.chars().filter(|c| !c.is_whitespace()).collect();
    for width in 0..25 {
        let rows = wrap_text(text, width);
        let kept: String = rows.concat().chars().filter(|c| !c.is_whitespace()).collect();
        assert_eq!(kept, visible);
    }
}

#[test]
fn styled_wrapping_keeps_colours_and_fills_rows() {
    let pieces = vec![
        StyledText { fg: (1, 2, 3), text: "let ".to_string() },
        StyledText { fg: (4, 5, 6), text: "value".to_string() },
        StyledText { fg: (7, 8, 9), text: " = 42;".to_string() },
    ];
    let expected: Vec<((u8, u8, u8), char)> =
        pieces.iter().flat_map(|p| p.text.chars().map(move |c| (p.fg, c))).collect();
    for width in 1..20 {
        let rows = wrap_styled(&pieces, width);
        let got: Vec<((u8, u8, u8), char)> = rows
            .iter()
            .flat_map(|r| r.iter().flat_map(|p| p.text.chars().map(move |c| (p.fg, c))))
            .collect();
        assert_eq!(got, expected);
        let lens: Vec<usize> = rows.iter().map(|r| r.iter().map(|p| p.text.chars().count()).sum()).collect();
        for (k, n) in lens.iter().enumerate() {
            if k + 1 < lens.len() {
                assert_eq!(*n, width);
            } else {
                assert!(*n <= width);
            }
        }
    }
}

#[test]
fn chunks_rejoin_to_text() {
    let text = "ünïcödé text of some length";
    for width in 1..30 {
        let rows = chunk_text(text, width);
        assert_eq!(rows.concat(), text);
        assert!(rows.iter().all(|r| r.chars().count() <= width));
    }
}

#[test]
fn search_lands_on_match_at_or_below_cursor() {
    let mut app = open("Alpha\nbeta\nALPHA\ngamma\nalphabet");
    for start in 0..5 {
        app.cursor = start;
        app.search_input = "alpha".to_string();
        app.confirm_search();
        let cur = app.cursor;
        assert_eq!(app.search_matches[app.search_match_idx], cur);
        assert!(app.lines[cur].to_lowercase().contains("alpha"));
        let expected = app.search_matches.iter().copied().find(|&m| m >= start).unwrap_or(app.search_matches[0]);
        assert_eq!(cur, expected);
    }
}

#[test]
fn compiled_view_scroll_keeps_cursor_in_view() {
    let mut app = open("x");
    app.view_mode = tuitr::editor::ViewMode::LatexCompiled;
    app.compiled_lines = Some((0..30).map(|i| format!("c{i}")).collect());
    app.view_height = 4;
    for target in [0usize, 9, 29, 2, 15] {
        app.cursor = target;
        app.scroll_to_cursor();
        assert!(app.scroll <= app.cursor && app.cursor < app.scroll + app.view_height);
    }
}

#[test]
fn comment_box_height_matches_drawn_box() {
    assert_eq!(comment_box_height("x", 80), 3);
    let mut app = open("short\nnext");
    app.view_width = 30;
    app.comments.insert(0, "one two three four five six seven".to_string());
    let h = comment_box_height(&app.comments[&0], 30);
    let drawn = source_lines(&app, 30, 50);
    // Line 0 takes one row, its box `h` rows, line 1 one row.
    assert_eq!(drawn.len(), 1 + h + 1);
}

#[test]
fn drawn_rows_match_line_display_rows() {
    let text = ["", "short", &"y".repeat(70), &"z".repeat(150)].join("\n");
    let app = open(&text);
    let mut total = 0;
    for l in &app.lines {
        total += line_display_rows(l, 80);
    }
    assert_eq!(source_lines(&app, 80, 200).len(), total);
}

#[test]
fn toggling_twice_keeps_selection_and_scroll() {
    let listings = vec![
        DirListing { dir: "/r".to_string(), entries: vec![entry("a", true), entry("d", true), entry("f", false)] },
        DirListing {
            dir: "/r/a".to_string(),
            entries: vec![DirEntry { path: "/r/a/x".to_string(), name: "x".to_string(), is_dir: false }],
        },
        DirListing {
            dir: "/r/d".to_string(),
            entries: vec![DirEntry { path: "/r/d/y".to_string(), name: "y".to_string(), is_dir: false }],
        },
    ];
    let mut t = FileTree::new("/r".to_string(), &listings);
    t.cursor = 1;
    t.scroll = 1;
    t.toggle_expand(&listings);
    assert_eq!(t.cursor, 1);
    assert!(t.entries[1].is_expanded);
    t.toggle_expand(&listings);
    assert_eq!((t.cursor, t.scroll), (1, 1));
    assert!(!t.entries[1].is_expanded);
    assert_eq!(t.entries.len(), 3);
}
