//! What each key and mouse event does to the viewer, and what outside work
//! it asks of the caller: the caller reads files and directories, talks to
//! the comment store, the clipboard and outside programs, and hands the
//! results back.
use vstd::prelude::*;
use crate::editor::{App, Clip, CommentChange, Focus, Mode};
use crate::text::{chars_of, string_from_chars};
use crate::tree::FileTree;

verus! {

/// A key press.
#[derive(Clone, Copy, PartialEq, Eq, Structural, Debug)]
pub enum Key {
    Char(char),
    Tab,
    Enter,
    Esc,
    Backspace,
    Up,
    Down,
    Other,
}

/// A mouse event.
#[derive(Clone, Copy, PartialEq, Eq, Structural, Debug)]
pub enum Mouse {
    ScrollDown,
    ScrollUp,
    Other,
}

/// Outside work that an event asks for.
#[derive(Debug)]
pub enum Effect {
    /// Nothing to do.
    Nothing,
    /// Leave the program.
    Quit,
    /// Open the file at this path.
    OpenFile(String),
    /// Show or hide the selected directory of the tree (its entries are needed).
    ToggleExpand,
    /// Put this text on the clipboard.
    Copy(Clip),
    /// Build the prompt of every stored comment.
    ExportAll,
    /// Switch to the next view mode (which modes exist is needed).
    SwitchViewMode,
    /// Record this change of a comment of the open file.
    Comment(CommentChange),
    /// Drop every comment of the open file.
    DeleteAllComments,
}

/// The line whose comment `r` asks to delete.
pub open spec fn deleted_line(r: Effect) -> Option<usize> {
    match r {
        Effect::Comment(CommentChange::Delete { line }) => Some(line),
        _ => None,
    }
}

/// The clipboard text that `r` asks to copy.
pub open spec fn copied(r: Effect) -> Option<Clip> {
    match r {
        Effect::Copy(c) => Some(c),
        _ => None,
    }
}

/// `s` without its last character, when it has one.
pub open spec fn backspaced(s: Seq<char>) -> Seq<char> {
    if s.len() > 0 {
        s.drop_last()
    } else {
        s
    }
}

fn pop_char(s: &String) -> (r: String)
    ensures
        r@ == backspaced(s@),
{
    let mut cs = chars_of(s.as_str());
    cs.pop();
    string_from_chars(cs.as_slice())
}

fn push_char(s: &String, c: char) -> (r: String)
    ensures
        r@ == s@.push(c),
{
    let mut cs = chars_of(s.as_str());
    cs.push(c);
    string_from_chars(cs.as_slice())
}

impl App {
    /// What a key does while a comment is edited.
    pub open spec fn edit_key_post(o: App, f: App, key: Key, r: Effect) -> bool {
        match key {
            Key::Enter => r matches Effect::Comment(c) && App::confirm_comment_post(o, f, c),
            Key::Esc => {
                &&& r is Nothing
                &&& f == (App { input: f.input, mode: Mode::Normal, ..o })
                &&& f.input@ == Seq::<char>::empty()
            },
            Key::Backspace => {
                &&& r is Nothing
                &&& f == (App { input: f.input, ..o })
                &&& f.input@ == backspaced(o.input@)
            },
            Key::Char(c) => {
                &&& r is Nothing
                &&& f == (App { input: f.input, ..o })
                &&& f.input@ == o.input@.push(c)
            },
            _ => r is Nothing && f == o,
        }
    }

    /// What a key does while a search is typed.
    pub open spec fn search_key_post(o: App, f: App, key: Key, r: Effect) -> bool {
        &&& r is Nothing
        &&& match key {
            Key::Enter => App::confirm_search_post(o, f),
            Key::Esc => {
                &&& f == (App { search_input: f.search_input, mode: Mode::Normal, ..o })
                &&& f.search_input@ == Seq::<char>::empty()
            },
            Key::Backspace => {
                &&& f == (App { search_input: f.search_input, ..o })
                &&& f.search_input@ == backspaced(o.search_input@)
            },
            Key::Char(c) => {
                &&& f == (App { search_input: f.search_input, ..o })
                &&& f.search_input@ == o.search_input@.push(c)
            },
            _ => f == o,
        }
    }

    /// What a key does in the tree panel.
    pub open spec fn tree_key_post(o: App, f: App, key: Key, r: Effect) -> bool {
        if key == Key::Char('j') || key == Key::Down {
            r is Nothing && f == (App {
                tree: o.tree.moved_to(o.tree.cursor_down(), o.view_height),
                ..o
            })
        } else if key == Key::Char('k') || key == Key::Up {
            r is Nothing && f == (App { tree: o.tree.moved_to(o.tree.cursor_up(), o.view_height), ..o })
        } else if key == Key::Enter || key == Key::Char('l') {
            &&& f == o
            &&& if o.tree.cursor < o.tree.entries@.len() && !o.tree.entries@[o.tree.cursor as int].is_dir {
                r matches Effect::OpenFile(p) && p@ == o.tree.entries@[o.tree.cursor as int].path@
            } else {
                r is ToggleExpand
            }
        } else if key == Key::Char(' ') || key == Key::Char('h') {
            r is ToggleExpand && f == o
        } else {
            r is Nothing && f == o
        }
    }

    /// What a key does in the file panel.
    pub open spec fn file_key_post(o: App, f: App, key: Key, r: Effect) -> bool {
        if o.file_path@.len() == 0 {
            r is Nothing && f == o
        } else if key == Key::Char('j') || key == Key::Down {
            r is Nothing && App::move_down_post(o, f)
        } else if key == Key::Char('k') || key == Key::Up {
            r is Nothing && App::move_up_post(o, f)
        } else if key == Key::Char('g') {
            r is Nothing && f == (App { cursor: 0, scroll: 0, ..o })
        } else if key == Key::Char('G') {
            r is Nothing && App::move_bottom_post(o, f)
        } else if key == Key::Char('c') {
            r is Nothing && App::start_comment_post(o, f)
        } else if key == Key::Char('d') {
            (r is Nothing || deleted_line(r) is Some) && App::delete_comment_post(o, f, deleted_line(r))
        } else if key == Key::Char('D') {
            (r is Nothing || r is DeleteAllComments) && App::delete_all_comments_post(
                o,
                f,
                r is DeleteAllComments,
            )
        } else if key == Key::Char('y') {
            f == o && (r is Nothing || r is Copy) && App::yank_post(o, copied(r))
        } else if key == Key::Char('Y') {
            (r is Nothing || r is Copy) && App::yank_all_comments_post(o, f, copied(r))
        } else if key == Key::Char('/') {
            &&& r is Nothing
            &&& f == (App { search_input: f.search_input, mode: Mode::Search, ..o })
            &&& f.search_input@ == o.search_query@
        } else if key == Key::Char('n') {
            r is Nothing && App::next_match_post(o, f)
        } else if key == Key::Char('N') {
            r is Nothing && App::prev_match_post(o, f)
        } else if key == Key::Char('v') {
            r is SwitchViewMode && f == o
        } else {
            r is Nothing && f == o
        }
    }

    /// What a key does: the status line is cleared first; then the comment
    /// editor or the search prompt takes the key when open; else `q` quits,
    /// Tab switches panels, `<` and `>` resize the tree panel (between 10%
    /// and 50%), `E` asks for the prompt of all stored comments, and the
    /// focused panel takes any other key.
    pub open spec fn key_post(old_app: App, f: App, key: Key, r: Effect) -> bool {
        let o = App { status: None, ..old_app };
        if o.mode == Mode::EditComment {
            App::edit_key_post(o, f, key, r)
        } else if o.mode == Mode::Search {
            App::search_key_post(o, f, key, r)
        } else if key == Key::Char('q') {
            r is Quit && f == o
        } else if key == Key::Tab {
            r is Nothing && f == (App {
                focus: if o.focus == Focus::Tree {
                    Focus::File
                } else {
                    Focus::Tree
                },
                ..o
            })
        } else if key == Key::Char('<') {
            let w = if o.tree_width_pct >= 15 {
                (o.tree_width_pct - 5) as u16
            } else {
                10u16
            };
            r is Nothing && f == (App { tree_width_pct: w, ..o })
        } else if key == Key::Char('>') {
            let w = if o.tree_width_pct + 5 <= 50 {
                (o.tree_width_pct + 5) as u16
            } else {
                50u16
            };
            r is Nothing && f == (App { tree_width_pct: w, ..o })
        } else if key == Key::Char('E') {
            r is ExportAll && f == o
        } else if o.focus == Focus::Tree {
            App::tree_key_post(o, f, key, r)
        } else {
            App::file_key_post(o, f, key, r)
        }
    }

    /// Handles a key press (see `key_post`) and gives the outside work it asks for.
    pub fn handle_key(&mut self, key: Key) -> (r: Effect)
        requires
            old(self).wf(),
        ensures
            final(self).wf(),
            App::key_post(*old(self), *final(self), key, r),
    {
        self.status = None;
        if self.mode == Mode::EditComment {
            return self.handle_edit(key);
        }
        if self.mode == Mode::Search {
            self.handle_search_input(key);
            return Effect::Nothing;
        }
        match key {
            Key::Char('q') => Effect::Quit,
            Key::Tab => {
                self.toggle_focus();
                Effect::Nothing
            },
            Key::Char('<') => {
                self.tree_width_pct = if self.tree_width_pct >= 15 {
                    self.tree_width_pct - 5
                } else {
                    10
                };
                Effect::Nothing
            },
            Key::Char('>') => {
                self.tree_width_pct = if self.tree_width_pct <= 45 {
                    self.tree_width_pct + 5
                } else {
                    50
                };
                Effect::Nothing
            },
            Key::Char('E') => Effect::ExportAll,
            _ => match self.focus {
                Focus::Tree => self.handle_tree(key),
                Focus::File => self.handle_file(key),
            },
        }
    }

    /// Moves the focus to the other panel.
    pub fn toggle_focus(&mut self)
        requires
            old(self).wf(),
        ensures
            final(self).wf(),
            *final(self) == (App {
                focus: if old(self).focus == Focus::Tree {
                    Focus::File
                } else {
                    Focus::Tree
                },
                ..*old(self)
            }),
    {
        self.focus = match self.focus {
            Focus::Tree => Focus::File,
            Focus::File => Focus::Tree,
        };
    }

    /// Moves the focus to the file panel (once a file has been opened).
    pub fn focus_file(&mut self)
        requires
            old(self).wf(),
        ensures
            final(self).wf(),
            *final(self) == (App { focus: Focus::File, ..*old(self) }),
    {
        self.focus = Focus::File;
    }

    fn tree_down(&mut self)
        requires
            old(self).wf(),
        ensures
            final(self).wf(),
            *final(self) == (App {
                tree: old(self).tree.moved_to(old(self).tree.cursor_down(), old(self).view_height),
                ..*old(self)
            }),
    {
        self.tree.move_down();
        self.tree.scroll_to_cursor(self.view_height);
    }

    fn tree_up(&mut self)
        requires
            old(self).wf(),
        ensures
            final(self).wf(),
            *final(self) == (App {
                tree: old(self).tree.moved_to(old(self).tree.cursor_up(), old(self).view_height),
                ..*old(self)
            }),
    {
        self.tree.move_up();
        self.tree.scroll_to_cursor(self.view_height);
    }

    fn handle_tree(&mut self, key: Key) -> (r: Effect)
        requires
            old(self).wf(),
        ensures
            final(self).wf(),
            App::tree_key_post(*old(self), *final(self), key, r),
    {
        match key {
            Key::Char('j') | Key::Down => {
                self.tree_down();
                Effect::Nothing
            },
            Key::Char('k') | Key::Up => {
                self.tree_up();
                Effect::Nothing
            },
            Key::Enter | Key::Char('l') => match self.tree.current_file() {
                Some(path) => Effect::OpenFile(path.clone()),
                None => Effect::ToggleExpand,
            },
            Key::Char(' ') | Key::Char('h') => Effect::ToggleExpand,
            _ => Effect::Nothing,
        }
    }

    fn handle_file(&mut self, key: Key) -> (r: Effect)
        requires
            old(self).wf(),
        ensures
            final(self).wf(),
            App::file_key_post(*old(self), *final(self), key, r),
    {
        if self.file_path.as_str().is_empty() {
            return Effect::Nothing;
        }
        match key {
            Key::Char('j') | Key::Down => {
                self.move_down();
                Effect::Nothing
            },
            Key::Char('k') | Key::Up => {
                self.move_up();
                Effect::Nothing
            },
            Key::Char('g') => {
                self.move_top();
                Effect::Nothing
            },
            Key::Char('G') => {
                self.move_bottom();
                Effect::Nothing
            },
            Key::Char('c') => {
                self.start_comment();
                Effect::Nothing
            },
            Key::Char('d') => match self.delete_comment() {
                Some(line) => Effect::Comment(CommentChange::Delete { line }),
                None => Effect::Nothing,
            },
            Key::Char('D') => if self.delete_all_comments() {
                Effect::DeleteAllComments
            } else {
                Effect::Nothing
            },
            Key::Char('y') => match self.yank() {
                Some(c) => Effect::Copy(c),
                None => Effect::Nothing,
            },
            Key::Char('Y') => match self.yank_all_comments() {
                Some(c) => Effect::Copy(c),
                None => Effect::Nothing,
            },
            Key::Char('/') => {
                self.start_search();
                Effect::Nothing
            },
            Key::Char('n') => {
                self.next_match();
                Effect::Nothing
            },
            Key::Char('N') => {
                self.prev_match();
                Effect::Nothing
            },
            Key::Char('v') => Effect::SwitchViewMode,
            _ => Effect::Nothing,
        }
    }

    fn handle_edit(&mut self, key: Key) -> (r: Effect)
        requires
            old(self).wf(),
        ensures
            final(self).wf(),
            App::edit_key_post(*old(self), *final(self), key, r),
    {
        match key {
            Key::Enter => Effect::Comment(self.confirm_comment()),
            Key::Esc => {
                self.cancel_comment();
                Effect::Nothing
            },
            Key::Backspace => {
                self.input = pop_char(&self.input);
                Effect::Nothing
            },
            Key::Char(c) => {
                self.input = push_char(&self.input, c);
                Effect::Nothing
            },
            _ => Effect::Nothing,
        }
    }

    fn handle_search_input(&mut self, key: Key)
        requires
            old(self).wf(),
        ensures
            final(self).wf(),
            App::search_key_post(*old(self), *final(self), key, Effect::Nothing),
    {
        match key {
            Key::Enter => self.confirm_search(),
            Key::Esc => self.cancel_search(),
            Key::Backspace => {
                self.search_input = pop_char(&self.search_input);
            },
            Key::Char(c) => {
                self.search_input = push_char(&self.search_input, c);
            },
            _ => {},
        }
    }

    /// What a mouse event does: scrolling moves the focused panel's cursor.
    pub open spec fn mouse_post(o: App, f: App, m: Mouse) -> bool {
        match m {
            Mouse::ScrollDown => if o.focus == Focus::File {
                App::move_down_post(o, f)
            } else {
                f == (App { tree: o.tree.moved_to(o.tree.cursor_down(), o.view_height), ..o })
            },
            Mouse::ScrollUp => if o.focus == Focus::File {
                App::move_up_post(o, f)
            } else {
                f == (App { tree: o.tree.moved_to(o.tree.cursor_up(), o.view_height), ..o })
            },
            Mouse::Other => f == o,
        }
    }

    /// Handles a mouse event (see `mouse_post`).
    pub fn handle_mouse(&mut self, m: Mouse)
        requires
            old(self).wf(),
        ensures
            final(self).wf(),
            App::mouse_post(*old(self), *final(self), m),
    {
        match m {
            Mouse::ScrollDown => match self.focus {
                Focus::File => self.move_down(),
                Focus::Tree => self.tree_down(),
            },
            Mouse::ScrollUp => match self.focus {
                Focus::File => self.move_up(),
                Focus::Tree => self.tree_up(),
            },
            Mouse::Other => {},
        }
    }
}

} // verus!
