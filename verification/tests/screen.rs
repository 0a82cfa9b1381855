use std::collections::HashMap;

use tuitr::diff::{DiffRow, DiffRowKind};
use tuitr::editor::{App, Focus, Mode, StyledText, ViewMode};
use tuitr::screen::{
    compiled_lines, diff_lines, diff_side_width, editor_text, editor_title, file_title, panel_border,
    source_lines, status_line, tree_lines, Colour, Look, Part,
};
use tuitr::tree::{DirEntry, DirListing, FileTree};

const PLAIN: Look = Look { fg: None, bg: None, bold: false, underlined: false };

fn fg(c: Colour) -> Look {
    Look { fg: Some(c), ..PLAIN }
}

fn fg_bg(c: Colour, b: Colour) -> Look {
    Look { fg: Some(c), bg: Some(b), ..PLAIN }
}

fn bg(b: Colour) -> Look {
    Look { bg: Some(b), ..PLAIN }
}

fn texts(line: &[Part]) -> Vec<(&str, Look)> {
    line.iter().map(|p| (p.text.as_str(), p.look)).collect()
}

fn joined(line: &[Part]) -> String {
    line.iter().map(|p| p.text.as_str()).collect()
}

fn app_with(ls: &[&str]) -> App {
    let n = ls.len();
    App {
        file_path: "/p/f.rs".to_string(),
        lines: ls.iter().map(|s| s.to_string()).collect(),
        comments: HashMap::new(),
        cursor: 0,
        editing_line: 0,
        scroll: 0,
        view_height: 20,
        view_width: 80,
        tree_width_pct: 25,
        mode: Mode::Normal,
        focus: Focus::File,
        input: String::new(),
        status: None,
        tree: FileTree::new("/p".to_string(), &Vec::new()),
        highlighted_lines: ls
            .iter()
            .map(|s| vec![StyledText { fg: (1, 2, 3), text: s.to_string() }])
            .take(n)
            .collect(),
        search_query: String::new(),
        search_input: String::new(),
        search_matches: Vec::new(),
        search_match_idx: 0,
        view_mode: ViewMode::Source,
        compiled_lines: None,
        diff_rows: None,
    }
}

#[test]
fn status_line_by_mode() {
    let mut app = app_with(&["x"]);
    let l = status_line(&app);
    assert_eq!(l[0].text, " NORMAL ");
    assert_eq!(l[0].look, Look { fg: Some(Colour::White), bg: Some(Colour::Blue), bold: true, underlined: false });
    app.focus = Focus::Tree;
    assert_eq!(status_line(&app)[0].text, " TREE ");
    app.mode = Mode::Search;
    app.search_input = "abc".to_string();
    let l = status_line(&app);
    assert_eq!(joined(&l), " SEARCH   /abc_  Enter:confirm  Esc:cancel");
    app.mode = Mode::EditComment;
    assert_eq!(joined(&status_line(&app)), " INSERT   Enter:confirm  Esc:cancel");
    app.status = Some("Saved".to_string());
    assert_eq!(texts(&status_line(&app)), vec![(" ", PLAIN), ("Saved", fg(Colour::Green))]);
}

#[test]
fn titles_and_editor_text() {
    let mut app = app_with(&["a", "b"]);
    app.view_mode = ViewMode::GitDiff;
    assert_eq!(file_title(&app), " /p/f.rs [diff] ");
    app.cursor = 1;
    assert_eq!(editor_title(&app), " Comment (line 2) ");
    app.input = "typed".to_string();
    assert_eq!(editor_text(&app), "typed_");
    assert_eq!(panel_border(true), fg(Colour::Yellow));
    assert_eq!(panel_border(false), PLAIN);
}

#[test]
fn tree_rows_are_indented_and_marked() {
    let listings = vec![
        DirListing {
            dir: "/p".to_string(),
            entries: vec![
                DirEntry { path: "/p/f.rs".to_string(), name: "f.rs".to_string(), is_dir: false },
                DirEntry { path: "/p/src".to_string(), name: "src".to_string(), is_dir: true },
                DirEntry { path: "/p/z.txt".to_string(), name: "z.txt".to_string(), is_dir: false },
            ],
        },
        DirListing {
            dir: "/p/src".to_string(),
            entries: vec![DirEntry { path: "/p/src/m.rs".to_string(), name: "m.rs".to_string(), is_dir: false }],
        },
    ];
    let mut app = app_with(&["x"]);
    app.tree = FileTree::new("/p".to_string(), &listings);
    app.tree.toggle_expand(&listings);
    app.focus = Focus::Tree;
    let rows = tree_lines(&app, 10);
    let shown: Vec<(&str, Look)> = rows.iter().map(|p| (p.text.as_str(), p.look)).collect();
    assert_eq!(
        shown,
        vec![
            ("▼ src/", fg_bg(Colour::White, Colour::DarkGray)),
            ("    m.rs", PLAIN),
            ("  f.rs", fg(Colour::Cyan)),
            ("  z.txt", PLAIN),
        ]
    );
    app.focus = Focus::File;
    app.tree.scroll = 1;
    let rows = tree_lines(&app, 2);
    assert_eq!(rows.len(), 2);
    assert_eq!(rows[0].text, "    m.rs");
    app.tree.scroll = 0;
    assert_eq!(tree_lines(&app, 1)[0].look, Look { underlined: true, ..PLAIN });
}

#[test]
fn compiled_view_numbers_and_cuts_lines() {
    let mut app = app_with(&["x"]);
    app.view_mode = ViewMode::LatexCompiled;
    assert_eq!(joined(&compiled_lines(&app, 20, 10)[0]), "  Loading...");
    app.compiled_lines = Some(vec!["abcdefghijk".to_string(), "".to_string()]);
    // 20 columns leave 9 for text; 10 rows leave 8.
    let rows = compiled_lines(&app, 20, 10);
    let shown: Vec<String> = rows.iter().map(|l| joined(l)).collect();
    assert_eq!(shown, vec!["     1   abcdefghi", "         jk", "     2   "]);
    assert_eq!(texts(&rows[0])[1], ("   1 ", fg(Colour::DarkGray)));
    // Only as many rows as fit.
    assert_eq!(compiled_lines(&app, 20, 3).len(), 1);
}

#[test]
fn diff_view_sides() {
    let mut app = app_with(&["a", "c"]);
    app.view_mode = ViewMode::GitDiff;
    let (l, r) = diff_lines(&app, 10, 5);
    assert_eq!(joined(&l[0]), "  No changes vs HEAD");
    assert_eq!(joined(&r[0]), "  No changes vs HEAD");
    app.diff_rows = Some(vec![
        DiffRow { old: Some((1, "a".to_string())), new: Some((1, "a".to_string())), kind: DiffRowKind::Context },
        DiffRow { old: Some((2, "bbbbbbb".to_string())), new: None, kind: DiffRowKind::Changed },
    ]);
    assert_eq!(diff_side_width(21), 10);
    // Half of 10 columns leaves 4 for text.
    let (l, r) = diff_lines(&app, 10, 5);
    assert_eq!(l.len(), 3);
    assert_eq!(joined(&l[0]), " HEAD");
    assert_eq!(joined(&r[0]), " Working Tree");
    assert_eq!(joined(&l[1]), "    1 a   ");
    assert_eq!(joined(&l[2]), "    2 bbbb");
    assert_eq!(texts(&l[2])[2], ("bbbb", bg(Colour::Red)));
    assert_eq!(texts(&r[2]), vec![(" ", bg(Colour::Reset)), ("     ", bg(Colour::Reset)), ("    ", bg(Colour::Reset))]);
    let (l, _) = diff_lines(&app, 10, 2);
    assert_eq!(l.len(), 2);
}

#[test]
fn source_view_with_cursor_match_and_comment() {
    let mut app = app_with(&["first line", "second"]);
    app.cursor = 0;
    app.search_query = "sec".to_string();
    app.search_matches = vec![1];
    app.comments.insert(1, "a note".to_string());
    // 30 columns: 19 for text; comment text 15 wide, box 17.
    let rows = source_lines(&app, 30, 20);
    let shown: Vec<String> = rows.iter().map(|l| joined(l)).collect();
    assert_eq!(
        shown,
        vec![
            "▶    1   first line",
            "◆    2 ● second",
            "         ┌─ note ──────────┐",
            "         │ a note          │",
            "         └─────────────────┘",
        ]
    );
    assert_eq!(texts(&rows[0])[3], ("first line", fg_bg(Colour::Rgb(1, 2, 3), Colour::DarkGray)));
    assert_eq!(texts(&rows[1])[3], ("second", fg_bg(Colour::Rgb(1, 2, 3), Colour::Reset)));
    // A long line wraps behind a blank gutter; rows past the view are left out.
    app.lines[0] = "x".repeat(25);
    app.highlighted_lines[0] = vec![StyledText { fg: (9, 9, 9), text: "x".repeat(25) }];
    let rows = source_lines(&app, 30, 5);
    let shown: Vec<String> = rows.iter().map(|l| joined(l)).collect();
    assert_eq!(
        shown,
        vec![
            format!("▶    1   {}", "x".repeat(19)),
            format!("         {}", "x".repeat(6)),
            "◆    2 ● second".to_string(),
        ]
    );
}
