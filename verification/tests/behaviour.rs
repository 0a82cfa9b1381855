use std::collections::HashMap;

use tuitr::diff::{diff_rows, not_a_repository_rows, DiffRow, DiffRowKind};
use tuitr::editor::{displayable, lines_containing, App, CommentChange, Focus, Mode, Opened, ViewMode};
use tuitr::highlight::{highlight_file, Highlighter};
use tuitr::keys::{Effect, Key, Mouse};
use tuitr::path::path_extension;
use tuitr::prompt::{annotations_prompt, Annotation, SourceFile};
use tuitr::text::{chars_of, split_lines, split_words, trim_chars};
use tuitr::tree::{DirEntry, DirListing, FileTree};

fn lines(v: &[&str]) -> Vec<String> {
    v.iter().map(|s| s.to_string()).collect()
}

fn empty_tree() -> FileTree {
    FileTree::new("/tmp".to_string(), &Vec::new())
}

fn open(path: &str, content: &str) -> App {
    App::new(
        Opened::File { path: path.to_string(), content: content.to_string() },
        empty_tree(),
        HashMap::new(),
        &Highlighter::new(),
    )
}

fn side(s: &Option<(usize, String)>) -> Option<(usize, &str)> {
    s.as_ref().map(|(n, t)| (*n, t.as_str()))
}

fn row(r: &DiffRow) -> (Option<(usize, &str)>, Option<(usize, &str)>, DiffRowKind) {
    (side(&r.old), side(&r.new), r.kind)
}

// --- text ---

#[test]
fn split_lines_follows_str_lines() {
    assert_eq!(split_lines("a\nb\r\nc"), vec!["a", "b", "c"]);
    assert_eq!(split_lines("a\n\n"), vec!["a", ""]);
    assert!(split_lines("").is_empty());
    assert_eq!(split_lines("x\r"), vec!["x\r"]);
}

#[test]
fn words_and_trimming() {
    let ws: Vec<String> = split_words(&chars_of("  one\ttwo  three ")).iter().map(|w| w.iter().collect()).collect();
    assert_eq!(ws, vec!["one", "two", "three"]);
    let t: String = trim_chars(&chars_of("\u{3000} note \n")).iter().collect();
    assert_eq!(t, "note");
}

// --- opening files ---

#[test]
fn displayable_refuses_large_and_binary_files() {
    assert_eq!(displayable(10, b"hello"), Ok(()));
    assert_eq!(displayable(10 * 1024 * 1024, b"hello"), Ok(()));
    assert_eq!(
        displayable(10 * 1024 * 1024 + 1, b"hello"),
        Err("File too large to display (> 10 MB)".to_string())
    );
    assert_eq!(displayable(3, b"a\0b"), Err("Binary file, cannot display".to_string()));
}

#[test]
fn new_on_file_shows_it() {
    let app = open("/p/main.rs", "fn main() {}\n// end\n");
    assert_eq!(app.lines, vec!["fn main() {}", "// end"]);
    assert_eq!(app.focus, Focus::File);
    assert_eq!(app.highlighted_lines.len(), 2);
    assert_eq!((app.view_height, app.view_width, app.tree_width_pct), (20, 80, 25));
}

#[test]
fn new_on_directory_focuses_tree() {
    let app = App::new(Opened::Directory, empty_tree(), HashMap::new(), &Highlighter::new());
    assert_eq!(app.focus, Focus::Tree);
    assert!(app.file_path.is_empty());
    assert!(app.lines.is_empty());
}

#[test]
fn new_on_refused_file_shows_message() {
    let app = App::new(
        Opened::Refused { message: "Binary file, cannot display".to_string() },
        empty_tree(),
        HashMap::new(),
        &Highlighter::new(),
    );
    assert_eq!(app.status.as_deref(), Some("Binary file, cannot display"));
    assert!(app.lines.is_empty());
}

#[test]
fn highlighting_keeps_the_text_of_each_line() {
    let hl = Highlighter::new();
    let ls = lines(&["fn main() {", "    let x = 1; // one", "}"]);
    let rows = highlight_file(&hl, &"/p/main.rs".to_string(), &ls);
    assert_eq!(rows.len(), 3);
    for (r, l) in rows.iter().zip(ls.iter()) {
        let text: String = r.iter().map(|p| p.text.as_str()).collect();
        assert_eq!(&text, l);
    }
    let colours: Vec<(u8, u8, u8)> = rows[1].iter().map(|p| p.fg).collect();
    assert!(colours.iter().any(|c| *c != colours[0]));
    assert!(highlight_file(&hl, &String::new(), &ls).is_empty());
}

#[test]
fn load_file_resets_view_and_runs_search() {
    let hl = Highlighter::new();
    let mut app = open("/p/a.txt", "x\ny\n");
    app.cursor = 1;
    app.view_mode = ViewMode::GitDiff;
    app.search_query = "B".to_string();
    let mut comments = HashMap::new();
    comments.insert(1, "c".to_string());
    app.load_file("/p/b.txt".to_string(), "a\nb\nab\n", comments, &hl);
    assert_eq!(app.file_path, "/p/b.txt");
    assert_eq!(app.cursor, 0);
    assert_eq!(app.view_mode, ViewMode::Source);
    assert_eq!(app.search_matches, vec![1, 2]);
    assert_eq!(app.comments.get(&1).map(|s| s.as_str()), Some("c"));
}

#[test]
fn path_extension_as_path_gives_it() {
    assert_eq!(path_extension("/a/b/paper.TeX"), "TeX");
    assert_eq!(path_extension("archive.tar.gz"), "gz");
    assert_eq!(path_extension("/a/.bashrc"), "");
    assert_eq!(path_extension("/a/b/"), "");
    assert_eq!(path_extension("/a/b.rs/."), "rs");
    assert_eq!(path_extension("/a/x.y/.."), "");
    assert_eq!(path_extension("Makefile"), "");
}

// --- view modes ---

#[test]
fn available_view_modes_depend_on_file() {
    let tex = open("/p/paper.TEX", "x");
    assert_eq!(tex.available_view_modes(true), vec![ViewMode::Source, ViewMode::LatexCompiled, ViewMode::GitDiff]);
    let rs = open("/p/main.rs", "x");
    assert_eq!(rs.available_view_modes(false), vec![ViewMode::Source]);
}

#[test]
fn switch_view_mode_cycles() {
    let mut app = open("/p/paper.tex", "x");
    let modes = app.available_view_modes(true);
    app.scroll = 3;
    assert_eq!(app.switch_view_mode(&modes), Some(ViewMode::LatexCompiled));
    assert_eq!(app.scroll, 0);
    assert_eq!(app.switch_view_mode(&modes), Some(ViewMode::GitDiff));
    assert_eq!(app.switch_view_mode(&modes), Some(ViewMode::Source));
    let mut none = App::new(Opened::Directory, empty_tree(), HashMap::new(), &Highlighter::new());
    assert_eq!(none.switch_view_mode(&modes), None);
}

#[test]
fn compiled_output_lines_or_error() {
    let mut app = open("/p/paper.tex", "x");
    app.set_compiled_output(true, "one\ntwo\n", "");
    assert_eq!(app.compiled_lines, Some(lines(&["one", "two"])));
    app.set_compiled_output(false, "", "  bad input\n");
    assert_eq!(app.compiled_lines, Some(lines(&["[pandoc error: bad input]"])));
}

// --- diff view ---

#[test]
fn diff_rows_pair_deleted_and_inserted_lines() {
    let rows = diff_rows("a\nb\n", &lines(&["a", "c"])).unwrap();
    let shown: Vec<_> = rows.iter().map(row).collect();
    assert_eq!(
        shown,
        vec![
            (Some((1, "a")), Some((1, "a")), DiffRowKind::Context),
            (Some((2, "b")), Some((2, "c")), DiffRowKind::Changed),
        ]
    );
}

#[test]
fn diff_rows_for_added_lines() {
    let rows = diff_rows("", &lines(&["x", "y"])).unwrap();
    let shown: Vec<_> = rows.iter().map(row).collect();
    assert_eq!(
        shown,
        vec![(None, Some((1, "x")), DiffRowKind::Changed), (None, Some((2, "y")), DiffRowKind::Changed)]
    );
}

#[test]
fn diff_rows_empty_when_unchanged() {
    assert!(diff_rows("a\nb\n", &lines(&["a", "b"])).unwrap().is_empty());
    assert!(diff_rows("", &Vec::new()).unwrap().is_empty());
}

#[test]
fn set_diff_outside_repository() {
    let mut app = open("/p/a.rs", "x");
    assert!(app.set_diff(None));
    let rows = app.diff_rows.as_ref().unwrap();
    assert_eq!(rows.len(), 1);
    assert_eq!(row(&rows[0]), (Some((0, "[not a git repository]")), None, DiffRowKind::Changed));
    assert_eq!(not_a_repository_rows().len(), 1);
    assert!(app.set_diff(Some("y\n")));
    assert_eq!(app.diff_rows.as_ref().unwrap().len(), 1);
}

// --- comments and clipboard ---

#[test]
fn confirm_comment_trims_text() {
    let mut app = open("/p/a.rs", "x\ny");
    app.editing_line = 1;
    app.input = "  tidy up  ".to_string();
    let change = app.confirm_comment();
    assert!(matches!(change, CommentChange::Save { line: 1, ref text } if text == "tidy up"));
    assert_eq!(app.comments.get(&1).map(|s| s.as_str()), Some("tidy up"));
    assert_eq!(app.mode, Mode::Normal);
    assert!(app.input.is_empty());
}

#[test]
fn start_comment_loads_existing_text() {
    let mut app = open("/p/a.rs", "x\ny");
    app.comments.insert(1, "old".to_string());
    app.cursor = 1;
    app.start_comment();
    assert_eq!(app.mode, Mode::EditComment);
    assert_eq!(app.editing_line, 1);
    assert_eq!(app.input, "old");
    app.cancel_comment();
    assert_eq!(app.mode, Mode::Normal);
    assert_eq!(app.comments.get(&1).map(|s| s.as_str()), Some("old"));
}

#[test]
fn delete_all_comments_reports_count() {
    let mut app = open("/p/a.rs", "x\ny");
    assert!(!app.delete_all_comments());
    assert_eq!(app.status.as_deref(), Some("No comments to delete"));
    app.comments.insert(0, "a".to_string());
    app.comments.insert(1, "b".to_string());
    assert!(app.delete_all_comments());
    assert!(app.comments.is_empty());
    assert_eq!(app.status.as_deref(), Some("Deleted 2 comment(s)"));
}

#[test]
fn yank_gives_line_and_comment() {
    let mut app = open("/p/a.rs", "first\nsecond");
    app.cursor = 1;
    let clip = app.yank().unwrap();
    assert_eq!(clip.text, "Line 2: second");
    assert_eq!(clip.status, "Yanked to clipboard");
    app.comments.insert(1, "why?".to_string());
    assert_eq!(app.yank().unwrap().text, "Line 2: second\nComment: why?");
    app.cursor = 5;
    assert!(app.yank().is_none());
}

#[test]
fn yank_all_comments_in_line_order() {
    let mut app = open("/p/a.rs", "l0\nl1\nl2");
    assert!(app.yank_all_comments().is_none());
    assert_eq!(app.status.as_deref(), Some("No comments to yank"));
    app.comments.insert(2, "third".to_string());
    app.comments.insert(0, "first".to_string());
    app.comments.insert(9, "gone".to_string());
    let clip = app.yank_all_comments().unwrap();
    assert_eq!(
        clip.text,
        "I found the following issues in /p/a.rs. Please create a plan to fix them:\n\
         \nLine 1 (`l0`):\nfirst\n\
         \nLine 3 (`l2`):\nthird\n\
         \nLine 10 (``):\ngone\n"
    );
    assert_eq!(clip.status, "Yanked 3 comment(s) to clipboard");
    assert_eq!(app.commented_lines(), vec![0, 2, 9]);
}

#[test]
fn export_prompt_groups_by_file() {
    let rows = vec![
        Annotation { file_path: "/a.rs".to_string(), line_number: 0, comment: "c1".to_string() },
        Annotation { file_path: "/a.rs".to_string(), line_number: 5, comment: "c2".to_string() },
        Annotation { file_path: "/b.rs".to_string(), line_number: 1, comment: "c3".to_string() },
    ];
    let sources = vec![
        SourceFile { path: "/a.rs".to_string(), lines: lines(&["alpha"]) },
        SourceFile { path: "/b.rs".to_string(), lines: lines(&["b0", "b1"]) },
    ];
    let expected = "I found the following issues across multiple files. Please create a plan to fix them:\n\
         \n### /a.rs\n\nLine 1 (`alpha`):\nc1\n\nLine 6 (``):\nc2\n\
         \n### /b.rs\n\nLine 2 (`b1`):\nc3\n";
    assert_eq!(annotations_prompt(&rows, &sources), expected);
    let mut app = open("/p/a.rs", "x");
    let clip = app.export_annotations(&rows, &sources).unwrap();
    assert_eq!(clip.text, expected);
    assert_eq!(clip.status, "Exported 3 annotation(s) globally");
    assert!(app.export_annotations(&Vec::new(), &sources).is_none());
    assert_eq!(app.status.as_deref(), Some("No annotations in database"));
}

// --- search ---

#[test]
fn confirm_search_goes_to_first_match_below_cursor() {
    let mut app = open("/p/a.rs", "foo\nbar\nfoo\nfoo");
    app.cursor = 1;
    app.start_search();
    app.search_input = "  Foo ".to_string();
    app.confirm_search();
    assert_eq!(app.search_query, "Foo");
    assert_eq!(app.search_matches, vec![0, 2, 3]);
    assert_eq!(app.cursor, 2);
    assert_eq!(app.search_match_idx, 1);
    assert_eq!(app.mode, Mode::Normal);
}

#[test]
fn confirm_search_without_match_says_so() {
    let mut app = open("/p/a.rs", "foo");
    app.search_input = "zzz".to_string();
    app.confirm_search();
    assert!(app.search_matches.is_empty());
    assert_eq!(app.status.as_deref(), Some("No matches for \"zzz\""));
    app.next_match();
    assert_eq!(app.status.as_deref(), Some("No matches"));
}

// --- keys and mouse ---

#[test]
fn keys_edit_a_comment() {
    let mut app = open("/p/a.rs", "x\ny");
    assert!(matches!(app.handle_key(Key::Char('j')), Effect::Nothing));
    assert_eq!(app.cursor, 1);
    app.handle_key(Key::Char('c'));
    assert_eq!(app.mode, Mode::EditComment);
    for c in "hix".chars() {
        app.handle_key(Key::Char(c));
    }
    app.handle_key(Key::Backspace);
    let r = app.handle_key(Key::Enter);
    assert!(matches!(r, Effect::Comment(CommentChange::Save { line: 1, ref text }) if text == "hi"));
    assert_eq!(app.comments.get(&1).map(|s| s.as_str()), Some("hi"));
    let r = app.handle_key(Key::Char('d'));
    assert!(matches!(r, Effect::Comment(CommentChange::Delete { line: 1 })));
    assert_eq!(app.status.as_deref(), Some("Comment deleted"));
    app.handle_key(Key::Char('k'));
    assert!(app.status.is_none());
}

#[test]
fn keys_search_and_navigate() {
    let mut app = open("/p/a.rs", "ab\nx\nAB\nx");
    app.handle_key(Key::Char('/'));
    assert_eq!(app.mode, Mode::Search);
    app.handle_key(Key::Char('a'));
    app.handle_key(Key::Char('b'));
    app.handle_key(Key::Enter);
    assert_eq!(app.search_matches, vec![0, 2]);
    app.handle_key(Key::Char('n'));
    assert_eq!(app.cursor, 2);
    app.handle_key(Key::Char('N'));
    assert_eq!(app.cursor, 0);
    app.handle_key(Key::Char('G'));
    assert_eq!(app.cursor, 3);
    app.handle_key(Key::Char('g'));
    assert_eq!(app.cursor, 0);
    assert!(matches!(app.handle_key(Key::Char('v')), Effect::SwitchViewMode));
    assert!(matches!(app.handle_key(Key::Char('q')), Effect::Quit));
}

#[test]
fn keys_resize_tree_panel_within_bounds() {
    let mut app = open("/p/a.rs", "x");
    for _ in 0..10 {
        app.handle_key(Key::Char('<'));
    }
    assert_eq!(app.tree_width_pct, 10);
    for _ in 0..10 {
        app.handle_key(Key::Char('>'));
    }
    assert_eq!(app.tree_width_pct, 50);
    assert!(matches!(app.handle_key(Key::Char('E')), Effect::ExportAll));
}

#[test]
fn keys_in_tree_open_files_and_toggle() {
    let listing = DirListing {
        dir: "/w".to_string(),
        entries: vec![
            DirEntry { path: "/w/f.txt".to_string(), name: "f.txt".to_string(), is_dir: false },
            DirEntry { path: "/w/d".to_string(), name: "d".to_string(), is_dir: true },
        ],
    };
    let tree = FileTree::new("/w".to_string(), &vec![listing]);
    let mut app = App::new(Opened::Directory, tree, HashMap::new(), &Highlighter::new());
    assert!(matches!(app.handle_key(Key::Enter), Effect::ToggleExpand));
    app.handle_key(Key::Down);
    assert_eq!(app.tree.cursor, 1);
    assert!(matches!(app.handle_key(Key::Char('l')), Effect::OpenFile(ref p) if p == "/w/f.txt"));
    assert!(matches!(app.handle_key(Key::Char(' ')), Effect::ToggleExpand));
    app.handle_key(Key::Tab);
    assert_eq!(app.focus, Focus::File);
    // Without an open file the file panel ignores keys.
    assert!(matches!(app.handle_key(Key::Char('j')), Effect::Nothing));
    app.handle_mouse(Mouse::ScrollUp);
    assert_eq!(app.cursor, 0);
    app.focus_file();
    app.toggle_focus();
    app.handle_mouse(Mouse::ScrollUp);
    assert_eq!(app.tree.cursor, 0);
}

#[test]
fn keys_yank_returns_clip() {
    let mut app = open("/p/a.rs", "hello");
    let r = app.handle_key(Key::Char('y'));
    assert!(matches!(r, Effect::Copy(ref c) if c.text == "Line 1: hello"));
    assert!(matches!(app.handle_key(Key::Char('D')), Effect::Nothing));
    app.comments.insert(0, "n".to_string());
    assert!(matches!(app.handle_key(Key::Char('D')), Effect::DeleteAllComments));
}

#[test]
fn mouse_scrolls_file() {
    let mut app = open("/p/a.rs", "a\nb\nc");
    app.handle_mouse(Mouse::ScrollDown);
    app.handle_mouse(Mouse::ScrollDown);
    app.handle_mouse(Mouse::ScrollDown);
    assert_eq!(app.cursor, 2);
    app.handle_mouse(Mouse::ScrollUp);
    assert_eq!(app.cursor, 1);
    app.handle_mouse(Mouse::Other);
    assert_eq!(app.cursor, 1);
}

#[test]
fn resize_fits_view_to_terminal() {
    let mut app = open("/p/a.rs", "x");
    app.resize(120, 40);
    assert_eq!(app.view_height, 37);
    assert_eq!(app.view_width, 90);
    app.start_comment();
    app.input = "note".to_string();
    app.resize(120, 40);
    assert_eq!(app.view_height, 34);
    app.resize(120, 2);
    assert_eq!(app.view_height, 0);
}

#[test]
fn open_checked_refusal_only_sets_status() {
    let hl = Highlighter::new();
    let mut app = open("/p/a.rs", "x\ny");
    app.cursor = 1;
    let r = app.open_checked(
        "/p/bin".to_string(),
        Err("Binary file, cannot display".to_string()),
        Err(String::new()),
        HashMap::new(),
        &hl,
    );
    assert_eq!(r, Ok(()));
    assert_eq!(app.status.as_deref(), Some("Binary file, cannot display"));
    assert_eq!(app.file_path, "/p/a.rs");
    assert_eq!(app.cursor, 1);
    let r = app.open_checked("/p/gone".to_string(), Ok(()), Err("not found".to_string()), HashMap::new(), &hl);
    assert_eq!(r, Err("not found".to_string()));
    assert_eq!(app.file_path, "/p/a.rs");
    let r = app.open_checked("/p/b.rs".to_string(), Ok(()), Ok("one\ntwo\nthree".to_string()), HashMap::new(), &hl);
    assert_eq!(r, Ok(()));
    assert_eq!(app.file_path, "/p/b.rs");
    assert_eq!(app.lines.len(), 3);
    assert_eq!(app.cursor, 0);
}

#[test]
fn lines_containing_finds_texts_holding_query() {
    let texts = lines(&["foo bar", "baz", "xfoo", "fo"]);
    assert_eq!(lines_containing(&texts, "foo"), vec![0, 2]);
    assert_eq!(lines_containing(&texts, ""), vec![0, 1, 2, 3]);
    assert!(lines_containing(&Vec::new(), "a").is_empty());
}
