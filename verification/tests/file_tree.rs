use tuitr::tree::{sort_entries, DirEntry, DirListing, FileTree};

const ROOT: &str = "/work";

fn entry(dir: &str, name: &str, is_dir: bool) -> DirEntry {
    DirEntry { path: format!("{dir}/{name}"), name: name.to_string(), is_dir }
}

fn listing(dir: &str, entries: &[(&str, bool)]) -> DirListing {
    DirListing {
        dir: dir.to_string(),
        entries: entries.iter().map(|(n, d)| entry(dir, n, *d)).collect(),
    }
}

fn tree(listings: &Vec<DirListing>) -> FileTree {
    FileTree::new(ROOT.to_string(), listings)
}

fn file_name(path: &str) -> &str {
    path.rsplit('/').next().unwrap()
}

#[test]
fn empty_dir_has_no_entries() {
    let t = tree(&vec![listing(ROOT, &[])]);
    assert!(t.entries.is_empty());
    assert_eq!(t.cursor, 0);
}

#[test]
fn dirs_sort_before_files() {
    let t = tree(&vec![listing(ROOT, &[("z_file.txt", false), ("a_dir", true)])]);
    assert_eq!(t.entries.len(), 2);
    assert!(t.entries[0].is_dir);
    assert!(!t.entries[1].is_dir);
}

#[test]
fn files_sort_alphabetically() {
    let t = tree(&vec![listing(ROOT, &[("b.txt", false), ("a.txt", false)])]);
    assert_eq!(file_name(&t.entries[0].path), "a.txt");
    assert_eq!(file_name(&t.entries[1].path), "b.txt");
}

#[test]
fn toggle_expand_shows_and_hides_children() {
    let sub = format!("{ROOT}/sub");
    let listings = vec![listing(ROOT, &[("sub", true)]), listing(&sub, &[("child.txt", false)])];
    let mut t = tree(&listings);
    assert_eq!(t.entries.len(), 1);
    assert!(!t.entries[0].is_expanded);

    t.toggle_expand(&listings);
    assert!(t.entries[0].is_expanded);
    assert_eq!(t.entries.len(), 2);

    t.toggle_expand(&listings);
    assert!(!t.entries[0].is_expanded);
    assert_eq!(t.entries.len(), 1);
}

#[test]
fn current_file_none_on_dir() {
    let t = tree(&vec![listing(ROOT, &[("mydir", true)])]);
    assert!(t.current_file().is_none());
}

#[test]
fn current_file_some_on_file() {
    let t = tree(&vec![listing(ROOT, &[("foo.txt", false)])]);
    let path = t.current_file().unwrap();
    assert_eq!(file_name(path), "foo.txt");
}

#[test]
fn move_down_bounded_at_last_entry() {
    let mut t = tree(&vec![listing(ROOT, &[("only.txt", false)])]);
    assert_eq!(t.cursor, 0);
    t.move_down();
    assert_eq!(t.cursor, 0);
}

#[test]
fn tree_move_up_bounded_at_zero() {
    let mut t = tree(&vec![listing(ROOT, &[("a.txt", false)])]);
    t.move_up();
    assert_eq!(t.cursor, 0);
}

// --- further behaviour ---

#[test]
fn expanded_children_are_indented_and_sorted() {
    let sub = format!("{ROOT}/src");
    let listings = vec![
        listing(ROOT, &[("README.md", false), ("src", true), ("Cargo.toml", false)]),
        listing(&sub, &[("main.rs", false), ("lib.rs", false), ("bin", true)]),
    ];
    let mut t = tree(&listings);
    let names: Vec<&str> = t.entries.iter().map(|e| file_name(&e.path)).collect();
    assert_eq!(names, vec!["src", "Cargo.toml", "README.md"]);
    t.toggle_expand(&listings);
    let rows: Vec<(&str, usize)> = t.entries.iter().map(|e| (file_name(&e.path), e.depth)).collect();
    assert_eq!(
        rows,
        vec![("src", 0), ("bin", 1), ("lib.rs", 1), ("main.rs", 1), ("Cargo.toml", 0), ("README.md", 0)]
    );
    assert_eq!(t.cursor, 0);
    assert_eq!(t.expanded_paths(), &vec![sub.clone()]);
}

#[test]
fn toggle_keeps_selected_directory_selected() {
    let b = format!("{ROOT}/b");
    let listings = vec![
        listing(ROOT, &[("a", true), ("b", true)]),
        listing(&format!("{ROOT}/a"), &[("x", false), ("y", false)]),
        listing(&b, &[("z", false)]),
    ];
    let mut t = tree(&listings);
    t.cursor = 0;
    t.toggle_expand(&listings);
    assert_eq!(t.entries.len(), 4);
    t.cursor = 3;
    assert_eq!(t.entries[3].path, b);
    t.toggle_expand(&listings);
    assert_eq!(t.entries.len(), 5);
    assert_eq!(t.cursor, 3);
    assert_eq!(t.entries[4].path, format!("{b}/z"));
}

#[test]
fn toggle_on_file_changes_nothing() {
    let listings = vec![listing(ROOT, &[("f.txt", false)])];
    let mut t = tree(&listings);
    t.toggle_expand(&listings);
    assert_eq!(t.entries.len(), 1);
    assert!(t.expanded_paths().is_empty());
}

#[test]
fn rebuild_reads_new_listing() {
    let mut t = tree(&vec![listing(ROOT, &[("a.txt", false)])]);
    t.rebuild(&vec![listing(ROOT, &[("a.txt", false), ("b.txt", false)])]);
    assert_eq!(t.entries.len(), 2);
}

#[test]
fn current_dir_on_directory() {
    let t = tree(&vec![listing(ROOT, &[("d", true)])]);
    assert_eq!(t.current_dir().map(|s| s.as_str()), Some("/work/d"));
    assert!(t.current_file().is_none());
}

#[test]
fn tree_scroll_follows_cursor() {
    let names: Vec<String> = (0..30).map(|i| format!("f{i:02}")).collect();
    let entries: Vec<(&str, bool)> = names.iter().map(|n| (n.as_str(), false)).collect();
    let mut t = tree(&vec![listing(ROOT, &entries)]);
    t.cursor = 12;
    t.scroll_to_cursor(5);
    assert_eq!(t.scroll, 8);
    t.cursor = 3;
    t.scroll_to_cursor(5);
    assert_eq!(t.scroll, 3);
    t.scroll_to_cursor(0);
    assert_eq!(t.scroll, 3);
}

#[test]
fn sort_entries_is_stable_for_equal_names() {
    let es = vec![entry("/a", "x", false), entry("/b", "x", false), entry("/c", "w", true)];
    let sorted = sort_entries(&es);
    let paths: Vec<&str> = sorted.iter().map(|e| e.path.as_str()).collect();
    assert_eq!(paths, vec!["/c/w", "/a/x", "/b/x"]);
}
