//! The state of the viewer: the open file, its comments, the cursor and the
//! viewport, search, and the view modes, with every decision the viewer
//! makes on them. Reading files, the comment database, the clipboard and
//! outside programs are left to the caller, which hands the results in.
use vstd::prelude::*;
use std::collections::HashMap;
use vstd::std_specs::iter::IteratorSpec;
use crate::diff::{diff_rows, diff_rows_spec, file_text, indices_fit, line_diff_ops, not_a_repository_rows, row_view, rows_view, DiffRow, DiffRowKind, DIFF_CONTEXT};
use crate::layout::{comment_box_height, comment_box_rows, comment_editor_height, display_rows, editor_rows, file_area_width, file_width, line_display_rows, rows_of_pieces};
use crate::prompt::{annotations_prompt, annotations_prompt_spec, annotations_view, line_numbers_fit, sources_view, Annotation, SourceFile};
use crate::text::{lines_of, split_lines, chars_of, contains_chars, decimal, has_infix, lowercase, push_decimal, push_str, string_from_chars, to_lower, trimmed, views};
use crate::tree::FileTree;
use crate::highlight::{highlight_file, highlighting, Highlighter};
use crate::path::{eq_ascii_case, eq_ignore_ascii_case, path_ext, path_extension};

verus! {

broadcast use vstd::std_specs::hash::group_hash_axioms;

/// What keys do: move and act, edit a comment, or type a search.
#[derive(Clone, Copy, PartialEq, Eq, Structural, Debug)]
pub enum Mode {
    Normal,
    EditComment,
    Search,
}

/// Which panel receives keys.
#[derive(Clone, Copy, PartialEq, Eq, Structural, Debug)]
pub enum Focus {
    Tree,
    File,
}

/// How the open file is shown.
#[derive(Clone, Copy, PartialEq, Eq, Structural, Debug)]
pub enum ViewMode {
    Source,
    LatexCompiled,
    GitDiff,
}

/// A highlighted piece of a source line: its foreground colour and text.
pub struct StyledText {
    pub fg: (u8, u8, u8),
    pub text: String,
}

/// The viewer's state.
pub struct App {
    pub file_path: String,
    pub lines: Vec<String>,
    pub comments: HashMap<usize, String>,
    pub cursor: usize,
    pub editing_line: usize,
    pub scroll: usize,
    pub view_height: usize,
    pub view_width: u16,
    pub tree_width_pct: u16,
    pub mode: Mode,
    pub focus: Focus,
    pub input: String,
    pub status: Option<String>,
    pub tree: FileTree,
    pub highlighted_lines: Vec<Vec<StyledText>>,
    pub search_query: String,
    pub search_input: String,
    pub search_matches: Vec<usize>,
    pub search_match_idx: usize,
    pub view_mode: ViewMode,
    pub compiled_lines: Option<Vec<String>>,
    pub diff_rows: Option<Vec<DiffRow>>,
}

/// What the comment store has to record after an edit.
#[derive(Debug)]
pub enum CommentChange {
    Save { line: usize, text: String },
    Delete { line: usize },
}

/// Text for the clipboard and the status to show once it is copied.
#[derive(Debug)]
pub struct Clip {
    pub text: String,
    pub status: String,
}

/// Each element is smaller than the next.
pub open spec fn increasing(s: Seq<usize>) -> bool {
    forall|i: int, j: int| 0 <= i < j < s.len() ==> s[i] < s[j]
}

/// The clipboard text for line `idx` (0-based): its number and text, and
/// its comment when it has one.
pub open spec fn yank_text(idx: nat, line: Seq<char>, comment: Option<Seq<char>>) -> Seq<char> {
    let head = "Line "@ + decimal(idx + 1) + ": "@ + line;
    match comment {
        Some(c) => head + "\nComment: "@ + c,
        None => head,
    }
}

/// The elements of `d` in increasing order.
pub open spec fn key_order(d: Set<usize>) -> Seq<usize> {
    choose|s: Seq<usize>| s.to_set() == d && increasing(s)
}

/// Two increasing sequences with the same elements are equal.
pub proof fn lemma_increasing_unique(a: Seq<usize>, b: Seq<usize>)
    requires
        increasing(a),
        increasing(b),
        a.to_set() == b.to_set(),
    ensures
        a == b,
    decreases a.len(),
{
    if a.len() == 0 {
        if b.len() > 0 {
            assert(b.to_set().contains(b[0]));
        }
        assert(a =~= b);
    } else {
        assert(a.to_set().contains(a[0]));
        assert(b.len() > 0);
        assert(b.to_set().contains(b[0]));
        let ka = choose|k: int| 0 <= k < b.len() && b[k] == a[0];
        let kb = choose|k: int| 0 <= k < a.len() && a[k] == b[0];
        assert(a[0] == b[0]) by {
            if ka > 0 {
                assert(b[0] < b[ka]);
            }
            if kb > 0 {
                assert(a[0] < a[kb]);
            }
        }
        let a1 = a.drop_first();
        let b1 = b.drop_first();
        assert(a1.to_set() =~= b1.to_set()) by {
            assert forall|x: usize| a1.to_set().contains(x) implies b1.to_set().contains(x) by {
                let k = choose|k: int| 0 <= k < a1.len() && a1[k] == x;
                assert(a[k + 1] == x);
                assert(b.to_set().contains(x));
                let j = choose|j: int| 0 <= j < b.len() && b[j] == x;
                if j == 0 {
                    assert(a[0] < a[k + 1]);
                }
                assert(b1[j - 1] == x);
            }
            assert forall|x: usize| b1.to_set().contains(x) implies a1.to_set().contains(x) by {
                let k = choose|k: int| 0 <= k < b1.len() && b1[k] == x;
                assert(b[k + 1] == x);
                assert(a.to_set().contains(x));
                let j = choose|j: int| 0 <= j < a.len() && a[j] == x;
                if j == 0 {
                    assert(b[0] < b[k + 1]);
                }
                assert(a1[j - 1] == x);
            }
        }
        lemma_increasing_unique(a1, b1);
        assert(a =~= b) by {
            assert forall|k: int| 0 <= k < a.len() implies a[k] == b[k] by {
                if k > 0 {
                    assert(a[k] == a1[k - 1]);
                    assert(b[k] == b1[k - 1]);
                }
            }
        }
    }
}

/// An increasing sequence with the elements of `d` is `key_order(d)`.
pub proof fn lemma_key_order(s: Seq<usize>, d: Set<usize>)
    requires
        increasing(s),
        s.to_set() == d,
    ensures
        key_order(d) == s,
{
    let k = key_order(d);
    assert(k.to_set() == d && increasing(k));
    lemma_increasing_unique(k, s);
}

/// The prompt entry for a comment on line `k` (0-based) whose text is `code`.
pub open spec fn comment_entry(k: usize, code: Seq<char>, comment: Seq<char>) -> Seq<char> {
    "\nLine "@ + decimal((k + 1) as nat) + " (`"@ + code + "`):\n"@ + comment + "\n"@
}

/// The prompt entries for the comments on `keys`, in that order.
pub open spec fn comment_entries(
    keys: Seq<usize>,
    lines: Seq<Seq<char>>,
    comments: Map<usize, Seq<char>>,
) -> Seq<char>
    decreases keys.len(),
{
    if keys.len() == 0 {
        seq![]
    } else {
        let k = keys.last();
        let code = if k < lines.len() {
            lines[k as int]
        } else {
            seq![]
        };
        let c = if comments.contains_key(k) {
            comments[k]
        } else {
            seq![]
        };
        comment_entries(keys.drop_last(), lines, comments) + comment_entry(k, code, c)
    }
}

/// The prompt asking for a plan to address the comments of one file.
pub open spec fn file_prompt(
    path: Seq<char>,
    keys: Seq<usize>,
    lines: Seq<Seq<char>>,
    comments: Map<usize, Seq<char>>,
) -> Seq<char> {
    "I found the following issues in "@ + path + ". Please create a plan to fix them:\n"@
        + comment_entries(keys, lines, comments)
}

/// The indices below `n` of the lines that, lower-cased, hold `q`.
pub open spec fn matching_lines(lines: Seq<Seq<char>>, q: Seq<char>, n: int) -> Seq<usize>
    decreases n,
{
    if n <= 0 {
        seq![]
    } else if has_infix(lowercase(lines[n - 1]), q) {
        matching_lines(lines, q, n - 1).push((n - 1) as usize)
    } else {
        matching_lines(lines, q, n - 1)
    }
}

/// The indices below `n` of the texts of `ls` that hold `q`.
pub open spec fn lines_holding(ls: Seq<Seq<char>>, q: Seq<char>, n: int) -> Seq<usize>
    decreases n,
{
    if n <= 0 {
        seq![]
    } else if has_infix(ls[n - 1], q) {
        lines_holding(ls, q, n - 1).push((n - 1) as usize)
    } else {
        lines_holding(ls, q, n - 1)
    }
}

/// Each of `ls` lower-cased.
pub open spec fn lowered(ls: Seq<Seq<char>>) -> Seq<Seq<char>> {
    ls.map_values(|l: Seq<char>| lowercase(l))
}

/// Matching lines are the lower-cased lines that hold the query.
pub proof fn lemma_matching_is_holding(lines: Seq<Seq<char>>, q: Seq<char>, n: int)
    requires
        n <= lines.len(),
    ensures
        matching_lines(lines, q, n) == lines_holding(lowered(lines), q, n),
    decreases n,
{
    if n > 0 {
        lemma_matching_is_holding(lines, q, n - 1);
    }
}

/// The indices, in order, of the texts that hold `q`.
pub fn lines_containing(texts: &Vec<String>, q: &str) -> (r: Vec<usize>)
    ensures
        r@ == lines_holding(views(texts@), q@, texts@.len() as int),
{
    let qc = chars_of(q);
    let mut found: Vec<usize> = Vec::new();
    let n = texts.len();
    let mut i: usize = 0;
    while i < n
        invariant
            n == texts@.len(),
            i <= n,
            qc@ == q@,
            found@ == lines_holding(views(texts@), q@, i as int),
        decreases n - i,
    {
        let tc = chars_of(texts[i].as_str());
        assert(views(texts@)[i as int] == texts@[i as int]@);
        if contains_chars(tc.as_slice(), qc.as_slice()) {
            found.push(i);
        }
        i += 1;
    }
    found
}

/// Every index that `lines_holding` lists is below `n`.
pub proof fn lemma_holding_below(ls: Seq<Seq<char>>, q: Seq<char>, n: int)
    requires
        n <= usize::MAX,
    ensures
        forall|k: int| 0 <= k < lines_holding(ls, q, n).len() ==> #[trigger] lines_holding(ls, q, n)[k] < n,
    decreases n,
{
    if n > 0 {
        lemma_holding_below(ls, q, n - 1);
        let prev = lines_holding(ls, q, n - 1);
        let cur = lines_holding(ls, q, n);
        assert forall|k: int| 0 <= k < cur.len() implies #[trigger] cur[k] < n by {
            if k < prev.len() {
                assert(cur[k] == prev[k]);
            }
        }
    }
}

/// The first position at or after `j` whose element is at least `c`.
pub open spec fn first_at_least(s: Seq<usize>, c: usize, j: int) -> Option<int>
    decreases s.len() - j,
{
    if j < 0 || j >= s.len() {
        None
    } else if s[j] >= c {
        Some(j)
    } else {
        first_at_least(s, c, j + 1)
    }
}

/// The first position at or after `j` whose element is `v`.
pub open spec fn first_index_of(s: Seq<usize>, v: usize, j: int) -> Option<int>
    decreases s.len() - j,
{
    if j < 0 || j >= s.len() {
        None
    } else if s[j] == v {
        Some(j)
    } else {
        first_index_of(s, v, j + 1)
    }
}

/// The first position at or after `j` holding `m`.
pub open spec fn first_mode_index(s: Seq<ViewMode>, m: ViewMode, j: int) -> Option<int>
    decreases s.len() - j,
{
    if j < 0 || j >= s.len() {
        None
    } else if s[j] == m {
        Some(j)
    } else {
        first_mode_index(s, m, j + 1)
    }
}

/// How the path given at start-up was opened.
pub enum Opened {
    /// A directory: only the tree is shown.
    Directory,
    /// A file that can be shown, with its text.
    File { path: String, content: String },
    /// A file that cannot be shown, and why.
    Refused { message: String },
}

/// The file at `path` has the extension `tex`, in any case.
pub open spec fn is_tex(path: Seq<char>) -> bool {
    eq_ignore_ascii_case(path_ext(path), seq!['t', 'e', 'x'])
}

/// Largest file shown, in bytes.
pub const MAX_FILE_SIZE: u64 = 10485760;

/// Whether a file of `size` bytes that starts with `head` can be shown: not
/// when it is larger than 10 MB, nor when its start holds a NUL byte.
pub open spec fn displayable_spec(size: u64, head: Seq<u8>) -> Result<(), Seq<char>> {
    if size > MAX_FILE_SIZE {
        Err("File too large to display (> 10 MB)"@)
    } else if head.contains(0u8) {
        Err("Binary file, cannot display"@)
    } else {
        Ok(())
    }
}

/// Decides whether a file can be shown (see `displayable_spec`).
pub fn displayable(size: u64, head: &[u8]) -> (r: Result<(), String>)
    ensures
        r is Ok <==> displayable_spec(size, head@) is Ok,
        r matches Err(m) ==> displayable_spec(size, head@) == Err::<(), Seq<char>>(m@),
{
    if size > MAX_FILE_SIZE {
        return Err("File too large to display (> 10 MB)".to_string());
    }
    let n = head.len();
    let mut i: usize = 0;
    while i < n
        invariant
            n == head@.len(),
            i <= n,
            size <= MAX_FILE_SIZE,
            forall|k: int| 0 <= k < i ==> head@[k] != 0u8,
        decreases n - i,
    {
        if head[i] == 0u8 {
            assert(head@.contains(0u8)) by {
                assert(head@[i as int] == 0u8);
            }
            let m = "Binary file, cannot display".to_string();

            return Err(m);
        }
        i += 1;
    }
    Ok(())
}

/// The text of line `i` of `lines`, empty past the end.
pub open spec fn line_at(lines: Seq<String>, i: int) -> Seq<char> {
    if 0 <= i < lines.len() {
        lines[i]@
    } else {
        seq![]
    }
}

impl App {
    /// What the viewer keeps true between any two of its operations.
    pub open spec fn wf(&self) -> bool {
        &&& self.cursor < usize::MAX
        &&& self.editing_line < usize::MAX
        &&& self.search_matches@.len() > 0 ==> self.search_match_idx
            < self.search_matches@.len()
        &&& forall|k: int|
            0 <= k < self.search_matches@.len() ==> #[trigger] self.search_matches@[k]
                < usize::MAX
        &&& forall|l: usize| #[trigger] self.comments@.contains_key(l) ==> l < usize::MAX
        &&& self.diff_rows matches Some(rs) ==> forall|k: int|
            0 <= k < rs@.len() ==> ((#[trigger] rs@[k]).new matches Some(p) ==> p.0 >= 1)
    }

    /// Number of rows of the current view.
    pub open spec fn view_len_spec(&self) -> nat {
        match self.view_mode {
            ViewMode::Source => self.lines@.len(),
            ViewMode::LatexCompiled => match self.compiled_lines {
                Some(ls) => ls@.len(),
                None => 0,
            },
            ViewMode::GitDiff => match self.diff_rows {
                Some(rs) => rs@.len(),
                None => 0,
            },
        }
    }

    pub fn view_len(&self) -> (r: usize)
        ensures
            r == self.view_len_spec(),
    {
        match self.view_mode {
            ViewMode::Source => self.lines.len(),
            ViewMode::LatexCompiled => match &self.compiled_lines {
                Some(ls) => ls.len(),
                None => 0,
            },
            ViewMode::GitDiff => match &self.diff_rows {
                Some(rs) => rs.len(),
                None => 0,
            },
        }
    }

    /// The source line (0-based) that diff row `i` shows on its new side.
    pub open spec fn diff_source_line(&self, i: int) -> Option<usize> {
        match self.diff_rows {
            Some(rs) => if 0 <= i < rs@.len() {
                match rs@[i].new {
                    Some(p) => Some((p.0 - 1) as usize),
                    None => None,
                }
            } else {
                None
            },
            None => None,
        }
    }

    /// The source line under the cursor: the cursor itself in the source
    /// view, the new side of the diff row in the diff view, none in the
    /// compiled view.
    pub open spec fn source_line_spec(&self) -> Option<usize> {
        match self.view_mode {
            ViewMode::Source => Some(self.cursor),
            ViewMode::GitDiff => self.diff_source_line(self.cursor as int),
            ViewMode::LatexCompiled => None,
        }
    }

    fn diff_line_at(&self, i: usize) -> (r: Option<usize>)
        requires
            self.wf(),
        ensures
            r == self.diff_source_line(i as int),
    {
        match &self.diff_rows {
            Some(rs) => if i < rs.len() {
                match &rs[i].new {
                    Some(p) => Some(p.0 - 1),
                    None => None,
                }
            } else {
                None
            },
            None => None,
        }
    }

    pub fn source_line_for_cursor(&self) -> (r: Option<usize>)
        requires
            self.wf(),
        ensures
            r == self.source_line_spec(),
    {
        match self.view_mode {
            ViewMode::Source => Some(self.cursor),
            ViewMode::GitDiff => self.diff_line_at(self.cursor),
            ViewMode::LatexCompiled => None,
        }
    }

    // -----------------------------------------------------------------------
    // Viewport
    // -----------------------------------------------------------------------
    /// The height of the comment box of source line `l`, none without comment.
    pub open spec fn comment_rows(&self, l: usize, width: u16) -> nat {
        if self.comments@.contains_key(l) {
            comment_box_rows(self.comments@[l]@, width)
        } else {
            0
        }
    }

    /// Terminal rows that row `i` of the current view takes: in the source
    /// view the wrapped line and its comment box, in the diff view one row
    /// and the comment box (at half width) of the new-side line.
    pub open spec fn row_height(&self, i: int) -> nat {
        match self.view_mode {
            ViewMode::Source => display_rows(line_at(self.lines@, i).len(), self.view_width)
                + self.comment_rows(i as usize, self.view_width),
            ViewMode::GitDiff => 1 + match self.diff_source_line(i) {
                Some(l) => self.comment_rows(l, self.view_width / 2),
                None => 0,
            },
            ViewMode::LatexCompiled => 1,
        }
    }

    /// Terminal rows that rows `s` up to (not including) `e` take.
    pub open spec fn rows_between(&self, s: int, e: int) -> nat
        decreases e - s,
    {
        if e <= s {
            0
        } else {
            self.rows_between(s, e - 1) + self.row_height(e - 1)
        }
    }

    /// With row `t` at the top, the rows down to the cursor fit in the view.
    pub open spec fn fits_from(&self, t: int) -> bool {
        self.rows_between(t, self.cursor + 1) <= self.view_height
    }

    /// The first row shown once the cursor has been scrolled into view: the
    /// cursor itself when it is above the view; in the compiled view, just
    /// enough that it is among the rows shown; in the other views, the first
    /// row from the current top on from which the rows down to the cursor
    /// fit, and never a row below the cursor (the cursor's own row, when even
    /// it does not fit).
    pub open spec fn scrolled_to_cursor(&self, s: int) -> bool {
        if self.view_height == 0 {
            s == self.scroll
        } else if self.cursor < self.scroll {
            s == self.cursor
        } else {
            match self.view_mode {
                ViewMode::LatexCompiled => s == (if self.cursor >= self.scroll + self.view_height {
                    self.cursor - self.view_height + 1
                } else {
                    self.scroll as int
                }),
                _ => {
                    &&& self.scroll <= s <= self.cursor
                    &&& (self.fits_from(s) || s == self.cursor)
                    &&& forall|t: int| self.scroll <= t < s ==> !#[trigger] self.fits_from(t)
                },
            }
        }
    }

    /// The rows from `s` to `e` are those from `s` to `t` and from `t` to `e`.
    pub proof fn lemma_rows_between_split(&self, s: int, t: int, e: int)
        requires
            s <= t <= e,
        ensures
            self.rows_between(s, e) == self.rows_between(s, t) + self.rows_between(t, e),
        decreases e - t,
    {
        if t < e {
            self.lemma_rows_between_split(s, t, e - 1);
        }
    }

    proof fn lemma_rows_between_mono(&self, s: int, e1: int, e2: int)
        requires
            e1 <= e2,
        ensures
            self.rows_between(s, e1) <= self.rows_between(s, e2),
        decreases e2 - e1,
    {
        if e1 < e2 {
            self.lemma_rows_between_mono(s, e1, e2 - 1);
        }
    }

    fn comment_height(&self, l: usize, width: u16) -> (r: usize)
        ensures
            r == self.comment_rows(l, width),
    {
        match self.comments.get(&l) {
            Some(c) => comment_box_height(c.as_str(), width),
            None => 0,
        }
    }

    /// The rows that row `i` takes, in two parts whose sum is `row_height(i)`.
    fn row_height_parts(&self, i: usize) -> (r: (usize, usize))
        requires
            self.wf(),
        ensures
            r.0 + r.1 == self.row_height(i as int),
    {
        match self.view_mode {
            ViewMode::Source => {
                let a = if i < self.lines.len() {
                    line_display_rows(self.lines[i].as_str(), self.view_width)
                } else {
                    line_display_rows("", self.view_width)
                };
                proof {
                    if i >= self.lines@.len() {
                        assert(line_at(self.lines@, i as int).len() == 0);
                        assert(""@.len() == 0) by {
                            reveal_strlit("");
                        }
                    }
                }
                (a, self.comment_height(i, self.view_width))
            },
            ViewMode::GitDiff => {
                let b = match self.diff_line_at(i) {
                    Some(l) => self.comment_height(l, self.view_width / 2),
                    None => 0,
                };
                (1, b)
            },
            ViewMode::LatexCompiled => (1, 0),
        }
    }

    /// Whether, with row `t` at the top, the rows down to the cursor fit.
    fn fits_exec(&self, t: usize) -> (b: bool)
        requires
            self.wf(),
        ensures
            b == self.fits_from(t as int),
    {
        let end = self.cursor + 1;
        let vh = self.view_height;
        let mut acc: usize = 0;
        let mut i = t;
        while i < end
            invariant
                self.wf(),
                end == self.cursor + 1,
                vh == self.view_height,
                i >= t,
                t <= end ==> i <= end,
                acc == self.rows_between(t as int, i as int),
                acc <= vh,
            decreases end - i,
        {
            let (a, b) = self.row_height_parts(i);
            if a > vh - acc || b > vh - acc - a {
                proof {
                    self.lemma_rows_between_mono(t as int, i + 1, end as int);
                }
                return false;
            }
            acc = acc + a + b;
            i += 1;
        }
        proof {
            if t > end {
                assert(self.rows_between(t as int, end as int) == 0);
            }
        }
        true
    }

    /// Scrolls just enough that the cursor row is shown (see `scrolled_to_cursor`).
    pub fn scroll_to_cursor(&mut self)
        requires
            old(self).wf(),
        ensures
            old(self).scrolled_to_cursor(final(self).scroll as int),
            *final(self) == (App { scroll: final(self).scroll, ..*old(self) }),
    {
        if self.view_height == 0 {
            return ;
        }
        if self.cursor < self.scroll {
            self.scroll = self.cursor;
            return ;
        }
        match self.view_mode {
            ViewMode::LatexCompiled => {
                let ghost o = *self;
                if self.cursor - self.scroll >= self.view_height {
                    self.scroll = self.cursor - (self.view_height - 1);
                }
                assert(o.scrolled_to_cursor(self.scroll as int));

            },
            _ => {
                let ghost start = *self;
                while self.scroll < self.cursor
                    invariant
                        self.wf(),
                        *self == (App { scroll: self.scroll, ..start }),
                        start.scroll <= self.scroll <= self.cursor,
                        start.view_mode != ViewMode::LatexCompiled,
                        forall|t: int| start.scroll <= t < self.scroll ==> !#[trigger] start.fits_from(t),
                    ensures
                        *self == (App { scroll: self.scroll, ..start }),
                        start.scroll <= self.scroll <= self.cursor,
                        start.fits_from(self.scroll as int) || self.scroll == self.cursor,
                        forall|t: int| start.scroll <= t < self.scroll ==> !#[trigger] start.fits_from(t),
                    decreases self.cursor - self.scroll,
                {
                    assert(forall|t: int| self.fits_from(t) == start.fits_from(t)) by {
                        assert forall|t: int| self.fits_from(t) == start.fits_from(t) by {
                            self.lemma_same_rows(start, t, self.cursor + 1);
                        }
                    }
                    if self.fits_exec(self.scroll) {
                        break;
                    }
                    self.scroll += 1;
                }
            },
        }
    }

    proof fn lemma_same_rows(&self, other: App, s: int, e: int)
        requires
            *self == (App { scroll: self.scroll, ..other }),
        ensures
            self.rows_between(s, e) == other.rows_between(s, e),
        decreases e - s,
    {
        if s < e {
            self.lemma_same_rows(other, s, e - 1);
        }
    }

    // -----------------------------------------------------------------------
    // Cursor movement
    // -----------------------------------------------------------------------
    /// Moves the cursor one row down, if that row exists, and scrolls it into view.
    pub fn move_down(&mut self)
        requires
            old(self).wf(),
        ensures
            final(self).wf(),
            Self::move_down_post(*old(self), *final(self)),
    {
        let n = self.view_len();
        if self.cursor < n && n - self.cursor > 1 {
            self.cursor += 1;
            self.scroll_to_cursor();
        }
    }

    /// Moves the cursor one row up, if it is not on the first, and scrolls it into view.
    pub fn move_up(&mut self)
        requires
            old(self).wf(),
        ensures
            final(self).wf(),
            Self::move_up_post(*old(self), *final(self)),
    {
        if self.cursor > 0 {
            self.cursor -= 1;
            self.scroll_to_cursor();
        }
    }

    /// Moves the cursor to the first row and shows the top of the view.
    pub fn move_top(&mut self)
        requires
            old(self).wf(),
        ensures
            final(self).wf(),
            *final(self) == (App { cursor: 0, scroll: 0, ..*old(self) }),
    {
        self.cursor = 0;
        self.scroll = 0;
    }

    /// Moves the cursor to the last row (the first, for an empty view) and
    /// scrolls it into view.
    pub fn move_bottom(&mut self)
        requires
            old(self).wf(),
        ensures
            final(self).wf(),
            Self::move_bottom_post(*old(self), *final(self)),
    {
        let n = self.view_len();
        self.cursor = if n > 0 { n - 1 } else { 0 };
        self.scroll_to_cursor();
    }

    // -----------------------------------------------------------------------
    // Comments
    // -----------------------------------------------------------------------
    /// Opens the comment editor on the source line under the cursor, holding
    /// that line's comment; in the compiled view, says that comments are not
    /// available there.
    pub fn start_comment(&mut self)
        requires
            old(self).wf(),
        ensures
            final(self).wf(),
            Self::start_comment_post(*old(self), *final(self)),
    {
        match self.source_line_for_cursor() {
            None => {
                self.status = Some("Comments not available in compiled view".to_string());
            },
            Some(src_line) => {
                self.editing_line = src_line;
                self.input = match self.comments.get(&src_line) {
                    Some(c) => c.clone(),
                    None => String::new(),
                };
                self.mode = Mode::EditComment;
            },
        }
    }

    /// Stores the edited comment, trimmed, on the line being edited (an
    /// empty one removes the comment there), closes the editor, and says
    /// what the comment store has to record.
    pub fn confirm_comment(&mut self) -> (r: CommentChange)
        requires
            old(self).wf(),
        ensures
            final(self).wf(),
            Self::confirm_comment_post(*old(self), *final(self), r),
    {
        let line = self.editing_line;
        let cs = crate::text::chars_of(self.input.as_str());
        let t = crate::text::trim_chars(cs.as_slice());
        let r = if t.len() == 0 {
            self.comments.remove(&line);
            CommentChange::Delete { line }
        } else {
            let text = crate::text::string_from_chars(t.as_slice());
            self.comments.insert(line, text.clone());
            CommentChange::Save { line, text }
        };
        self.input = String::new();
        self.mode = Mode::Normal;
        r
    }

    /// Closes the comment editor without storing anything.
    pub fn cancel_comment(&mut self)
        requires
            old(self).wf(),
        ensures
            final(self).wf(),
            *final(self) == (App { input: final(self).input, mode: Mode::Normal, ..*old(self) }),
            final(self).input@ == Seq::<char>::empty(),
    {
        self.input = String::new();
        self.mode = Mode::Normal;
    }

    /// Removes the comment of the source line under the cursor, if there is
    /// one, and gives back that line for the comment store; in the compiled
    /// view, says that comments are not available there.
    pub fn delete_comment(&mut self) -> (r: Option<usize>)
        requires
            old(self).wf(),
        ensures
            final(self).wf(),
            Self::delete_comment_post(*old(self), *final(self), r),
    {
        match self.source_line_for_cursor() {
            None => {
                self.status = Some("Comments not available in compiled view".to_string());
                None
            },
            Some(src_line) => {
                if self.comments.contains_key(&src_line) {
                    self.comments.remove(&src_line);
                    self.status = Some("Comment deleted".to_string());
                    Some(src_line)
                } else {
                    None
                }
            },
        }
    }

    /// Removes every comment of the file; says so, or that there was none.
    /// Gives whether the comment store has to drop the file's comments.
    pub fn delete_all_comments(&mut self) -> (r: bool)
        requires
            old(self).wf(),
        ensures
            final(self).wf(),
            Self::delete_all_comments_post(*old(self), *final(self), r),
    {
        let count = self.comments.len();
        if count == 0 {
            self.status = Some("No comments to delete".to_string());
            return false;
        }
        self.comments.clear();
        let mut msg: Vec<char> = Vec::new();
        push_str(&mut msg, "Deleted ");
        push_decimal(&mut msg, count);
        push_str(&mut msg, " comment(s)");
        self.status = Some(string_from_chars(msg.as_slice()));
        true
    }

    /// The clipboard text for the line under the cursor: its number, its
    /// text, and its comment when it has one. None past the last line.
    pub fn yank(&self) -> (r: Option<Clip>)
        requires
            self.wf(),
        ensures
            Self::yank_post(*self, r),
    {
        if self.cursor >= self.lines.len() {
            return None;
        }
        let mut out: Vec<char> = Vec::new();
        push_str(&mut out, "Line ");
        push_decimal(&mut out, self.cursor + 1);
        push_str(&mut out, ": ");
        push_str(&mut out, self.lines[self.cursor].as_str());
        match self.comments.get(&self.cursor) {
            Some(c) => {
                push_str(&mut out, "\nComment: ");
                push_str(&mut out, c.as_str());
            },
            None => {},
        }
        Some(Clip { text: string_from_chars(out.as_slice()), status: "Yanked to clipboard".to_string() })
    }

    /// The lines that have a comment, in increasing order.
    pub fn commented_lines(&self) -> (r: Vec<usize>)
        ensures
            r@.to_set() == self.comments@.dom(),
            increasing(r@),
    {
        let ghost ks = vstd::std_specs::hash::spec_keys_iter(&self.comments).remaining().unref();
        let mut keys: Vec<usize> = Vec::new();
        for k in it: self.comments.keys()
            invariant
                keys@ == it.seq().take(it.index()).unref(),
        {
            keys.push(*k);
            assert(keys@ =~= it.seq().take(it.index() + 1).unref());
        }
        assert(keys@ =~= ks);
        let mut r: Vec<usize> = Vec::new();
        let n = keys.len();
        let mut i: usize = 0;
        while i < n
            invariant
                n == keys@.len(),
                i <= n,
                keys@.no_duplicates(),
                increasing(r@),
                r@.to_set() == keys@.take(i as int).to_set(),
            decreases n - i,
        {
            let x = keys[i];
            assert(keys@.take(i + 1) =~= keys@.take(i as int).push(x));
            proof {
                keys@.take(i as int).lemma_push_to_set_commute(x);
                assert(!keys@.take(i as int).contains(x));
                assert(!r@.to_set().contains(x));
            }
            let mut p = r.len();
            while p > 0 && r[p - 1] > x
                invariant
                    p <= r@.len(),
                    increasing(r@),
                    forall|k: int| p <= k < r@.len() ==> r@[k] > x,
                decreases p,
            {
                p -= 1;
            }
            proof {
                if p > 0 {
                    assert(r@[p - 1] != x) by {
                        assert(r@.to_set().contains(r@[p - 1]));
                    }
                }
            }
            let ghost before = r@;
            r.insert(p, x);
            proof {
                assert(r@ =~= before.subrange(0, p as int).push(x) + before.subrange(
                    p as int,
                    before.len() as int,
                ));
                assert(r@.to_set() =~= before.to_set().insert(x)) by {
                    assert forall|y: usize| r@.to_set().contains(y) implies before.to_set().insert(
                        x,
                    ).contains(y) by {
                        let k = choose|k: int| 0 <= k < r@.len() && r@[k] == y;
                        if k < p {
                            assert(before[k] == y);
                        } else if k > p {
                            assert(before[k - 1] == y);
                        }
                    }
                    assert forall|y: usize| before.to_set().insert(x).contains(y) implies r@.to_set().contains(
                        y,
                    ) by {
                        if y == x {
                            assert(r@[p as int] == x);
                        } else {
                            let k = choose|k: int| 0 <= k < before.len() && before[k] == y;
                            if k < p {
                                assert(r@[k] == y);
                            } else {
                                assert(r@[k + 1] == y);
                            }
                        }
                    }
                }
            }
            i += 1;
        }
        assert(keys@.take(n as int) =~= keys@);
        r
    }

    /// The clipboard text asking for a plan to address every comment of the
    /// file, line by line in increasing order; says when there is none.
    pub fn yank_all_comments(&mut self) -> (r: Option<Clip>)
        requires
            old(self).wf(),
        ensures
            final(self).wf(),
            Self::yank_all_comments_post(*old(self), *final(self), r),
    {
        if self.comments.is_empty() {
            self.status = Some("No comments to yank".to_string());
            return None;
        }
        let keys = self.commented_lines();
        proof {
            lemma_key_order(keys@, self.comments@.dom());
        }
        let mut out: Vec<char> = Vec::new();
        push_str(&mut out, "I found the following issues in ");
        push_str(&mut out, self.file_path.as_str());
        push_str(&mut out, ". Please create a plan to fix them:\n");
        let ghost head = out@;
        let n = keys.len();
        let mut i: usize = 0;
        while i < n
            invariant
                n == keys@.len(),
                i <= n,
                self.wf(),
                keys@.to_set() == self.comments@.dom(),
                out@ == head + comment_entries(keys@.take(i as int), views(self.lines@), self.comment_texts()),
            decreases n - i,
        {
            let k = keys[i];
            assert(keys@.take(i + 1).drop_last() =~= keys@.take(i as int));
            assert(keys@.to_set().contains(k));
            push_str(&mut out, "\nLine ");
            push_decimal(&mut out, k + 1);
            push_str(&mut out, " (`");
            if k < self.lines.len() {
                push_str(&mut out, self.lines[k].as_str());
            }
            push_str(&mut out, "`):\n");
            match self.comments.get(&k) {
                Some(c) => push_str(&mut out, c.as_str()),
                None => {},
            }
            push_str(&mut out, "\n");
            proof {
                assert(views(self.lines@).len() == self.lines@.len());
                if k < self.lines@.len() {
                    assert(views(self.lines@)[k as int] == self.lines@[k as int]@);
                }
                assert(out@ =~= head + comment_entries(
                    keys@.take(i + 1),
                    views(self.lines@),
                    self.comment_texts(),
                ));
            }
            i += 1;
        }
        assert(keys@.take(n as int) =~= keys@);
        let mut msg: Vec<char> = Vec::new();
        push_str(&mut msg, "Yanked ");
        push_decimal(&mut msg, self.comments.len());
        push_str(&mut msg, " comment(s) to clipboard");
        Some(Clip { text: string_from_chars(out.as_slice()), status: string_from_chars(msg.as_slice()) })
    }

    /// The comments, by line, as text.
    pub open spec fn comment_texts(&self) -> Map<usize, Seq<char>> {
        self.comments@.map_values(|c: String| c@)
    }

    /// The clipboard text asking for a plan to address the stored comments
    /// `rows` of every file, with the lines read from `sources`; says when
    /// there is none.
    pub fn export_annotations(&mut self, rows: &Vec<Annotation>, sources: &Vec<SourceFile>) -> (r:
        Option<Clip>)
        requires
            old(self).wf(),
            line_numbers_fit(annotations_view(rows@)),
        ensures
            final(self).wf(),
            ({
                let o = *old(self);
                let f = *final(self);
                if rows@.len() == 0 {
                    &&& r is None
                    &&& f == (App { status: f.status, ..o })
                    &&& f.status matches Some(s) && s@ == "No annotations in database"@
                } else {
                    &&& f == o
                    &&& r matches Some(c) && c.text@ == annotations_prompt_spec(
                        annotations_view(rows@),
                        sources_view(sources@),
                    ) && c.status@ == "Exported "@ + decimal(rows@.len()) + " annotation(s) globally"@
                }
            }),
    {
        if rows.len() == 0 {
            self.status = Some("No annotations in database".to_string());
            return None;
        }
        let text = annotations_prompt(rows, sources);
        let mut msg: Vec<char> = Vec::new();
        push_str(&mut msg, "Exported ");
        push_decimal(&mut msg, rows.len());
        push_str(&mut msg, " annotation(s) globally");
        Some(Clip { text, status: string_from_chars(msg.as_slice()) })
    }

    // -----------------------------------------------------------------------
    // Search
    // -----------------------------------------------------------------------
    /// Opens the search prompt, holding the last query.
    pub fn start_search(&mut self)
        requires
            old(self).wf(),
        ensures
            final(self).wf(),
            *final(self) == (App {
                search_input: final(self).search_input,
                mode: Mode::Search,
                ..*old(self)
            }),
            final(self).search_input@ == old(self).search_query@,
    {
        self.search_input = self.search_query.clone();
        self.mode = Mode::Search;
    }

    /// Closes the search prompt, dropping what was typed.
    pub fn cancel_search(&mut self)
        requires
            old(self).wf(),
        ensures
            final(self).wf(),
            *final(self) == (App {
                search_input: final(self).search_input,
                mode: Mode::Normal,
                ..*old(self)
            }),
            final(self).search_input@ == Seq::<char>::empty(),
    {
        self.search_input = String::new();
        self.mode = Mode::Normal;
    }

    /// Finds the lines that hold the query, ignoring case: none for an empty
    /// query (the match position then stays), else the matching lines in
    /// order with the first one current.
    pub fn compute_matches(&mut self)
        requires
            old(self).wf(),
        ensures
            final(self).wf(),
            ({
                let o = *old(self);
                let f = *final(self);
                &&& f == (App { search_matches: f.search_matches, search_match_idx: f.search_match_idx, ..o })
                &&& if o.search_query@.len() == 0 {
                    f.search_matches@.len() == 0 && f.search_match_idx == o.search_match_idx
                } else {
                    &&& f.search_matches@ == matching_lines(
                        views(o.lines@),
                        lowercase(o.search_query@),
                        o.lines@.len() as int,
                    )
                    &&& f.search_match_idx == 0
                }
            }),
    {
        if self.search_query.as_str().is_empty() {
            self.search_matches = Vec::new();
            return ;
        }
        let q = to_lower(self.search_query.as_str());
        let mut low: Vec<String> = Vec::new();
        let n = self.lines.len();
        let mut i: usize = 0;
        while i < n
            invariant
                n == self.lines@.len(),
                i <= n,
                views(low@) == lowered(views(self.lines@)).take(i as int),
            decreases n - i,
        {
            let l = to_lower(self.lines[i].as_str());
            assert(views(self.lines@)[i as int] == self.lines@[i as int]@);
            proof {
                crate::text::lemma_views_push(low@, l);
            }
            low.push(l);
            i += 1;
            assert(views(low@) =~= lowered(views(self.lines@)).take(i as int));
        }
        assert(lowered(views(self.lines@)).take(n as int) =~= lowered(views(self.lines@)));
        let found = lines_containing(&low, q.as_str());
        proof {
            lemma_matching_is_holding(views(self.lines@), q@, n as int);
            lemma_holding_below(views(low@), q@, n as int);
        }
        self.search_matches = found;
        self.search_match_idx = 0;
    }

    /// Moves the cursor to the next match, after the last back to the first.
    pub fn next_match(&mut self)
        requires
            old(self).wf(),
        ensures
            final(self).wf(),
            Self::next_match_post(*old(self), *final(self)),
    {
        let n = self.search_matches.len();
        if n == 0 {
            if !self.search_query.as_str().is_empty() {
                self.status = Some("No matches".to_string());
            }
            return ;
        }
        self.search_match_idx = (self.search_match_idx + 1) % n;
        self.cursor = self.search_matches[self.search_match_idx];
        self.scroll_to_cursor();
    }

    /// Moves the cursor to the previous match, before the first to the last.
    pub fn prev_match(&mut self)
        requires
            old(self).wf(),
        ensures
            final(self).wf(),
            Self::prev_match_post(*old(self), *final(self)),
    {
        let n = self.search_matches.len();
        if n == 0 {
            if !self.search_query.as_str().is_empty() {
                self.status = Some("No matches".to_string());
            }
            return ;
        }
        self.search_match_idx = if self.search_match_idx == 0 {
            n - 1
        } else {
            self.search_match_idx - 1
        };
        self.cursor = self.search_matches[self.search_match_idx];
        self.scroll_to_cursor();
    }

    /// Runs the typed search: the trimmed input becomes the query, the
    /// matches are found, and the cursor goes to the first match at or below
    /// it (or the first match), which becomes current; without a match for a
    /// non-empty query, says so.
    pub fn confirm_search(&mut self)
        requires
            old(self).wf(),
        ensures
            final(self).wf(),
            Self::confirm_search_post(*old(self), *final(self)),
    {
        let cs = chars_of(self.search_input.as_str());
        let t = crate::text::trim_chars(cs.as_slice());
        self.search_query = string_from_chars(t.as_slice());
        self.mode = Mode::Normal;
        self.compute_matches();
        let n = self.search_matches.len();
        if n > 0 {
            let mut j: usize = 0;
            while j < n && self.search_matches[j] < self.cursor
                invariant
                    n == self.search_matches@.len(),
                    j <= n,
                    first_at_least(self.search_matches@, self.cursor, 0) == first_at_least(
                        self.search_matches@,
                        self.cursor,
                        j as int,
                    ),
                decreases n - j,
            {
                j += 1;
            }
            let next = if j < n {
                self.search_matches[j]
            } else {
                self.search_matches[0]
            };
            self.cursor = next;
            let mut k: usize = 0;
            while k < n && self.search_matches[k] != next
                invariant
                    n == self.search_matches@.len(),
                    k <= n,
                    first_index_of(self.search_matches@, next, 0) == first_index_of(
                        self.search_matches@,
                        next,
                        k as int,
                    ),
                decreases n - k,
            {
                k += 1;
            }
            self.search_match_idx = if k < n {
                k
            } else {
                0
            };
            self.scroll_to_cursor();
        } else if !self.search_query.as_str().is_empty() {
            let mut msg: Vec<char> = Vec::new();
            push_str(&mut msg, "No matches for \"");
            crate::text::push_chars(&mut msg, t.as_slice());
            push_str(&mut msg, "\"");
            self.status = Some(string_from_chars(msg.as_slice()));
        }
    }

    // -----------------------------------------------------------------------
    // View modes
    // -----------------------------------------------------------------------
    /// Switches to the view mode after the current one in `modes` (to the
    /// first, when the current one is not there or is the last) and shows
    /// its top; gives the new mode, whose content the caller then produces.
    /// Without an open file nothing changes.
    pub fn switch_view_mode(&mut self, modes: &Vec<ViewMode>) -> (r: Option<ViewMode>)
        requires
            old(self).wf(),
            modes@.len() > 0,
        ensures
            final(self).wf(),
            ({
                let o = *old(self);
                let f = *final(self);
                if o.file_path@.len() == 0 {
                    r is None && f == o
                } else {
                    let cur = match first_mode_index(modes@, o.view_mode, 0) {
                        Some(k) => k,
                        None => 0,
                    };
                    let next = modes@[(cur + 1) % (modes@.len() as int)];
                    &&& r == Some(next)
                    &&& f == (App { view_mode: next, scroll: 0, ..o })
                }
            }),
    {
        if self.file_path.as_str().is_empty() {
            return None;
        }
        let n = modes.len();
        let mut k: usize = 0;
        while k < n && modes[k] != self.view_mode
            invariant
                n == modes@.len(),
                k <= n,
                first_mode_index(modes@, self.view_mode, 0) == first_mode_index(
                    modes@,
                    self.view_mode,
                    k as int,
                ),
            decreases n - k,
        {
            k += 1;
        }
        let cur = if k < n {
            k
        } else {
            0
        };
        let next = modes[(cur + 1) % n];
        self.view_mode = next;
        self.scroll = 0;
        Some(next)
    }

    /// Shows what the LaTeX compiler produced: its output's lines when it
    /// succeeded, else one line quoting its trimmed error output.
    pub fn set_compiled_output(&mut self, success: bool, stdout: &str, stderr: &str)
        requires
            old(self).wf(),
        ensures
            final(self).wf(),
            *final(self) == (App { compiled_lines: final(self).compiled_lines, ..*old(self) }),
            final(self).compiled_lines matches Some(ls) && views(ls@) == (if success {
                lines_of(stdout@)
            } else {
                seq!["[pandoc error: "@ + trimmed(stderr@) + "]"@]
            }),
    {
        if success {
            self.compiled_lines = Some(split_lines(stdout));
        } else {
            let cs = chars_of(stderr);
            let t = crate::text::trim_chars(cs.as_slice());
            let mut msg: Vec<char> = Vec::new();
            push_str(&mut msg, "[pandoc error: ");
            crate::text::push_chars(&mut msg, t.as_slice());
            push_str(&mut msg, "]");
            let line = string_from_chars(msg.as_slice());
            let v = vec![line];
            assert(views(v@) =~= seq![line@]);
            self.compiled_lines = Some(v);
        }
    }

    /// Shows the diff of the open lines against `head`, their committed
    /// text, or says that the file is outside a git repository when there
    /// is none. Gives false, changing nothing, when the diff reports a line
    /// index whose number would not fit.
    pub fn set_diff(&mut self, head: Option<&str>) -> (ok: bool)
        requires
            old(self).wf(),
        ensures
            final(self).wf(),
            ({
                let o = *old(self);
                let f = *final(self);
                match head {
                    None => {
                        &&& ok
                        &&& f == (App { diff_rows: f.diff_rows, ..o })
                        &&& f.diff_rows matches Some(rs) && rows_view(rs@) == seq![
                            (Some((0usize, "[not a git repository]"@)), None::<(usize, Seq<char>)>, DiffRowKind::Changed),
                        ]
                    },
                    Some(h) => {
                        let current = file_text(views(o.lines@));
                        if h@ == current || (h@.len() == 0 && o.lines@.len() == 0) {
                            &&& ok
                            &&& f == (App { diff_rows: f.diff_rows, ..o })
                            &&& f.diff_rows matches Some(rs) && rs@.len() == 0
                        } else if indices_fit(line_diff_ops(h@, current, DIFF_CONTEXT)) {
                            &&& ok
                            &&& f == (App { diff_rows: f.diff_rows, ..o })
                            &&& f.diff_rows matches Some(rs) && rows_view(rs@) == diff_rows_spec(h@, views(o.lines@))
                        } else {
                            !ok && f == o
                        }
                    },
                }
            }),
    {
        match head {
            None => {
                let rows = not_a_repository_rows();
                self.diff_rows = Some(rows);
                true
            },
            Some(h) => match diff_rows(h, &self.lines) {
                Some(rows) => {
                    self.diff_rows = Some(rows);
                    true
                },
                None => false,
            },
        }
    }

    /// The view modes for the open file: the source view always, the
    /// compiled view for a `.tex` file (any case), the diff view inside a
    /// git repository.
    pub fn available_view_modes(&self, in_git: bool) -> (r: Vec<ViewMode>)
        ensures
            r@ == seq![ViewMode::Source] + (if is_tex(self.file_path@) {
                seq![ViewMode::LatexCompiled]
            } else {
                Seq::empty()
            }) + (if in_git {
                seq![ViewMode::GitDiff]
            } else {
                Seq::empty()
            }),
            r@.len() > 0,
    {
        let mut modes = vec![ViewMode::Source];
        let ext = path_extension(self.file_path.as_str());
        let e = chars_of(ext.as_str());
        let tex = chars_of("tex");
        proof {
            reveal_strlit("tex");
            assert(tex@ =~= seq!['t', 'e', 'x']);
        }
        let is = eq_ascii_case(e.as_slice(), tex.as_slice());
        if is {
            modes.push(ViewMode::LatexCompiled);
        }
        if in_git {
            modes.push(ViewMode::GitDiff);
        }
        assert(modes@ =~= seq![ViewMode::Source] + (if is_tex(self.file_path@) {
            seq![ViewMode::LatexCompiled]
        } else {
            Seq::empty()
        }) + (if in_git {
            seq![ViewMode::GitDiff]
        } else {
            Seq::empty()
        }));
        modes
    }

    // -----------------------------------------------------------------------
    // Opening and reloading
    // -----------------------------------------------------------------------
    /// Recomputes the highlighting of the open lines.
    pub fn rehighlight(&mut self, hl: &Highlighter)
        requires
            old(self).wf(),
        ensures
            final(self).wf(),
            *final(self) == (App { highlighted_lines: final(self).highlighted_lines, ..*old(self) }),
            final(self).highlighted_lines@.len() == (if old(self).file_path@.len() == 0 {
                0
            } else {
                old(self).lines@.len()
            }),
            rows_of_pieces(final(self).highlighted_lines@) == highlighting(
                old(self).file_path@,
                views(old(self).lines@),
            ),
    {
        self.highlighted_lines = highlight_file(hl, &self.file_path, &self.lines);
    }

    /// Opens the file at `path` whose text is `content` and whose stored
    /// comments are `comments`: cursor and view at the top, in the source
    /// view, highlighted, with the current search run on it.
    pub fn load_file(
        &mut self,
        path: String,
        content: &str,
        comments: HashMap<usize, String>,
        hl: &Highlighter,
    )
        requires
            old(self).wf(),
            forall|l: usize| #[trigger] comments@.contains_key(l) ==> l < usize::MAX,
        ensures
            final(self).wf(),
            App::load_post(*old(self), *final(self), path, content@, comments),
    {
        self.lines = split_lines(content);
        self.comments = comments;
        self.file_path = path;
        self.cursor = 0;
        self.scroll = 0;
        self.view_mode = ViewMode::Source;
        self.compiled_lines = None;
        self.diff_rows = None;
        self.rehighlight(hl);
        self.compute_matches();
    }

    /// What `load_file` does with the file at `path`, its text `content`
    /// and its stored `comments`.
    pub open spec fn load_post(
        o: App,
        f: App,
        path: String,
        content: Seq<char>,
        comments: HashMap<usize, String>,
    ) -> bool {
        &&& f == (App {
            file_path: path,
            lines: f.lines,
            comments,
            cursor: 0,
            scroll: 0,
            view_mode: ViewMode::Source,
            compiled_lines: None,
            diff_rows: None,
            highlighted_lines: f.highlighted_lines,
            search_matches: f.search_matches,
            search_match_idx: f.search_match_idx,
            ..o
        })
        &&& views(f.lines@) == lines_of(content)
        &&& f.highlighted_lines@.len() == (if path@.len() == 0 {
            0
        } else {
            f.lines@.len()
        })
        &&& rows_of_pieces(f.highlighted_lines@) == highlighting(path@, views(f.lines@))
        &&& f.searched_from(o.search_match_idx)
    }

    /// Opens the file at `path` chosen in the tree. `check` says whether it
    /// can be shown and `content` is its text as read (or why it could not
    /// be read; only looked at when the file can be shown). A file that
    /// cannot be shown only puts its reason in the status line; a file that
    /// could not be read changes nothing and gives back the error; else the
    /// file is loaded (see `load_file`).
    pub fn open_checked(
        &mut self,
        path: String,
        check: Result<(), String>,
        content: Result<String, String>,
        comments: HashMap<usize, String>,
        hl: &Highlighter,
    ) -> (r: Result<(), String>)
        requires
            old(self).wf(),
            forall|l: usize| #[trigger] comments@.contains_key(l) ==> l < usize::MAX,
        ensures
            final(self).wf(),
            match check {
                Err(msg) => r is Ok && *final(self) == (App { status: Some(msg), ..*old(self) }),
                Ok(()) => match content {
                    Err(e) => r == Err::<(), String>(e) && *final(self) == *old(self),
                    Ok(text) => r is Ok && App::load_post(*old(self), *final(self), path, text@, comments),
                },
            },
    {
        match check {
            Err(msg) => {
                self.status = Some(msg);
                Ok(())
            },
            Ok(()) => match content {
                Err(e) => Err(e),
                Ok(text) => {
                    self.load_file(path, text.as_str(), comments, hl);
                    Ok(())
                },
            },
        }
    }

    /// The matches are those of the query in the open lines; the current
    /// match is the first, or stays `idx` when the query is empty.
    pub open spec fn searched_from(&self, idx: usize) -> bool {
        if self.search_query@.len() == 0 {
            self.search_matches@.len() == 0 && self.search_match_idx == idx
        } else {
            &&& self.search_matches@ == matching_lines(
                views(self.lines@),
                lowercase(self.search_query@),
                self.lines@.len() as int,
            )
            &&& self.search_match_idx == 0
        }
    }

    /// Takes in the new text of the open file, `content`, read again after
    /// a change on disk: the cursor stays, moved up to the last line when the
    /// file got shorter, and is scrolled into view; highlighting and search
    /// are redone, and the status says so. Nothing happens without an open
    /// file or without a text (the file could not be read).
    pub fn reload_file(&mut self, content: Option<&str>, hl: &Highlighter)
        requires
            old(self).wf(),
        ensures
            final(self).wf(),
            ({
                let o = *old(self);
                let f = *final(self);
                if o.file_path@.len() == 0 || content is None {
                    f == o
                } else {
                    let n = lines_of(content->0@).len();
                    let c = if o.cursor as int <= n - 1 {
                        o.cursor as int
                    } else if n > 0 {
                        n - 1
                    } else {
                        0
                    };
                    let moved = App { lines: f.lines, cursor: c as usize, ..o };
                    &&& views(f.lines@) == lines_of(content->0@)
                    &&& moved.scrolled_to_cursor(f.scroll as int)
                    &&& f == (App {
                        scroll: f.scroll,
                        highlighted_lines: f.highlighted_lines,
                        search_matches: f.search_matches,
                        search_match_idx: f.search_match_idx,
                        status: f.status,
                        ..moved
                    })
                    &&& f.highlighted_lines@.len() == f.lines@.len()
                    &&& rows_of_pieces(f.highlighted_lines@) == highlighting(o.file_path@, views(f.lines@))
                    &&& f.searched_from(o.search_match_idx)
                    &&& f.status matches Some(s) && s@ == "File reloaded"@
                }
            }),
    {
        if self.file_path.as_str().is_empty() {
            return ;
        }
        let text = match content {
            Some(t) => t,
            None => {
                return ;
            },
        };
        self.lines = split_lines(text);
        let n = self.lines.len();
        let last = if n > 0 {
            n - 1
        } else {
            0
        };
        if self.cursor > last {
            self.cursor = last;
        }
        self.scroll_to_cursor();
        self.rehighlight(hl);
        self.compute_matches();
        self.status = Some("File reloaded".to_string());
    }

    /// The viewer on `opened`, with `tree` in its panel and the stored
    /// `comments` of the file: cursor and view at the top, in the source
    /// view, the default sizes, the tree focused for a directory and the
    /// file otherwise, and the refusal shown for a file that cannot be shown.
    pub fn new(opened: Opened, tree: FileTree, comments: HashMap<usize, String>, hl: &Highlighter) -> (a: App)
        requires
            forall|l: usize| #[trigger] comments@.contains_key(l) ==> l < usize::MAX,
        ensures
            a.wf(),
            a.tree == tree,
            a.cursor == 0 && a.editing_line == 0 && a.scroll == 0,
            a.view_height == 20 && a.view_width == 80 && a.tree_width_pct == 25,
            a.mode == Mode::Normal,
            a.input@.len() == 0 && a.search_query@.len() == 0 && a.search_input@.len() == 0,
            a.search_matches@.len() == 0 && a.search_match_idx == 0,
            a.view_mode == ViewMode::Source,
            a.compiled_lines is None && a.diff_rows is None,
            match opened {
                Opened::Directory => {
                    &&& a.focus == Focus::Tree
                    &&& a.file_path@.len() == 0 && a.lines@.len() == 0
                    &&& a.comments@ == Map::<usize, String>::empty()
                    &&& a.status is None
                    &&& a.highlighted_lines@.len() == 0
                },
                Opened::File { path, content } => {
                    &&& a.focus == Focus::File
                    &&& a.file_path == path
                    &&& views(a.lines@) == lines_of(content@)
                    &&& a.comments@ == (if path@.len() == 0 { Map::<usize, String>::empty() } else { comments@ })
                    &&& a.status is None
                    &&& a.highlighted_lines@.len() == (if path@.len() == 0 { 0 } else { a.lines@.len() })
                    &&& rows_of_pieces(a.highlighted_lines@) == highlighting(path@, views(a.lines@))
                },
                Opened::Refused { message } => {
                    &&& a.focus == Focus::File
                    &&& a.file_path@.len() == 0 && a.lines@.len() == 0
                    &&& a.comments@ == Map::<usize, String>::empty()
                    &&& a.status == Some(message)
                    &&& a.highlighted_lines@.len() == 0
                },
            },
    {
        let (file_path, lines, focus, status) = match opened {
            Opened::Directory => (String::new(), Vec::new(), Focus::Tree, None),
            Opened::File { path, content } => (path, split_lines(content.as_str()), Focus::File, None),
            Opened::Refused { message } => (String::new(), Vec::new(), Focus::File, Some(message)),
        };
        let comments = if file_path.as_str().is_empty() {
            HashMap::new()
        } else {
            comments
        };
        let highlighted_lines = highlight_file(hl, &file_path, &lines);
        App {
            file_path,
            lines,
            comments,
            cursor: 0,
            editing_line: 0,
            scroll: 0,
            view_height: 20,
            view_width: 80,
            tree_width_pct: 25,
            mode: Mode::Normal,
            focus,
            input: String::new(),
            status,
            tree,
            highlighted_lines,
            search_query: String::new(),
            search_input: String::new(),
            search_matches: Vec::new(),
            search_match_idx: 0,
            view_mode: ViewMode::Source,
            compiled_lines: None,
            diff_rows: None,
        }
    }

    /// Shows `message` in the status line.
    pub fn show_status(&mut self, message: String)
        requires
            old(self).wf(),
        ensures
            final(self).wf(),
            *final(self) == (App { status: Some(message), ..*old(self) }),
    {
        self.status = Some(message);
    }

    /// What `move_down` does.
    pub open spec fn move_down_post(o: App, f: App) -> bool {
        if o.cursor + 1 < o.view_len_spec() {
            let moved = App { cursor: (o.cursor + 1) as usize, ..o };
            &&& moved.scrolled_to_cursor(f.scroll as int)
            &&& f == (App { scroll: f.scroll, ..moved })
        } else {
            f == o
        }
    }

    /// What `move_up` does.
    pub open spec fn move_up_post(o: App, f: App) -> bool {
        if o.cursor > 0 {
            let moved = App { cursor: (o.cursor - 1) as usize, ..o };
            &&& moved.scrolled_to_cursor(f.scroll as int)
            &&& f == (App { scroll: f.scroll, ..moved })
        } else {
            f == o
        }
    }

    /// What `move_bottom` does.
    pub open spec fn move_bottom_post(o: App, f: App) -> bool {
        let last = if o.view_len_spec() > 0 {
            (o.view_len_spec() - 1) as usize
        } else {
            0usize
        };
        let moved = App { cursor: last, ..o };
        &&& moved.scrolled_to_cursor(f.scroll as int)
        &&& f == (App { scroll: f.scroll, ..moved })
    }

    /// What `start_comment` does.
    pub open spec fn start_comment_post(o: App, f: App) -> bool {
        match o.source_line_spec() {
            None => f == (App { status: f.status, ..o }) && (f.status matches Some(s)
                && s@ == "Comments not available in compiled view"@),
            Some(l) => {
                &&& f == (App { editing_line: l, input: f.input, mode: Mode::EditComment, ..o })
                &&& f.input@ == (if o.comments@.contains_key(l) {
                    o.comments@[l]@
                } else {
                    Seq::empty()
                })
            },
        }
    }

    /// What `confirm_comment` does.
    pub open spec fn confirm_comment_post(o: App, f: App, r: CommentChange) -> bool {
        let t = trimmed(o.input@);
        &&& f == (App { comments: f.comments, input: f.input, mode: Mode::Normal, ..o })
        &&& f.input@ == Seq::<char>::empty()
        &&& if t.len() == 0 {
            &&& f.comments@ == o.comments@.remove(o.editing_line)
            &&& r == CommentChange::Delete { line: o.editing_line }
        } else {
            &&& f.comments@.dom() == o.comments@.dom().insert(o.editing_line)
            &&& f.comments@[o.editing_line]@ == t
            &&& forall|l: usize| l != o.editing_line && #[trigger] o.comments@.contains_key(l)
                ==> f.comments@[l] == o.comments@[l]
            &&& r matches CommentChange::Save { line, text } && line == o.editing_line
                && text@ == t
        }
    }

    /// What `delete_comment` does.
    pub open spec fn delete_comment_post(o: App, f: App, r: Option<usize>) -> bool {
        match o.source_line_spec() {
            None => r is None && f == (App { status: f.status, ..o }) && (
            f.status matches Some(s) && s@ == "Comments not available in compiled view"@),
            Some(l) => if o.comments@.contains_key(l) {
                &&& r == Some(l)
                &&& f == (App { comments: f.comments, status: f.status, ..o })
                &&& f.comments@ == o.comments@.remove(l)
                &&& f.status matches Some(s) && s@ == "Comment deleted"@
            } else {
                r is None && f == o
            },
        }
    }

    /// What `delete_all_comments` does.
    pub open spec fn delete_all_comments_post(o: App, f: App, r: bool) -> bool {
        let n = o.comments@.dom().len();
        if n == 0 {
            &&& !r
            &&& f == (App { status: f.status, ..o })
            &&& f.status matches Some(s) && s@ == "No comments to delete"@
        } else {
            &&& r
            &&& f == (App { comments: f.comments, status: f.status, ..o })
            &&& f.comments@ == Map::<usize, String>::empty()
            &&& f.status matches Some(s) && s@ == "Deleted "@ + decimal(n) + " comment(s)"@
        }
    }

    /// What `yank_all_comments` does.
    pub open spec fn yank_all_comments_post(o: App, f: App, r: Option<Clip>) -> bool {
        let n = o.comments@.dom().len();
        if n == 0 {
            &&& r is None
            &&& f == (App { status: f.status, ..o })
            &&& f.status matches Some(s) && s@ == "No comments to yank"@
        } else {
            &&& f == o
            &&& r matches Some(c) && c.text@ == file_prompt(
                o.file_path@,
                key_order(o.comments@.dom()),
                views(o.lines@),
                o.comment_texts(),
            ) && c.status@ == "Yanked "@ + decimal(n) + " comment(s) to clipboard"@
        }
    }

    /// What `next_match` does.
    pub open spec fn next_match_post(o: App, f: App) -> bool {
        let n = o.search_matches@.len();
        if n == 0 {
            if o.search_query@.len() > 0 {
                f == (App { status: f.status, ..o }) && (f.status matches Some(s) && s@
                    == "No matches"@)
            } else {
                f == o
            }
        } else {
            let k = ((o.search_match_idx + 1) % (n as int)) as usize;
            let moved = App { search_match_idx: k, cursor: o.search_matches@[k as int], ..o };
            &&& moved.scrolled_to_cursor(f.scroll as int)
            &&& f == (App { scroll: f.scroll, ..moved })
        }
    }

    /// What `prev_match` does.
    pub open spec fn prev_match_post(o: App, f: App) -> bool {
        let n = o.search_matches@.len();
        if n == 0 {
            if o.search_query@.len() > 0 {
                f == (App { status: f.status, ..o }) && (f.status matches Some(s) && s@
                    == "No matches"@)
            } else {
                f == o
            }
        } else {
            let k = (if o.search_match_idx == 0 {
                n - 1
            } else {
                o.search_match_idx - 1
            }) as usize;
            let moved = App { search_match_idx: k, cursor: o.search_matches@[k as int], ..o };
            &&& moved.scrolled_to_cursor(f.scroll as int)
            &&& f == (App { scroll: f.scroll, ..moved })
        }
    }

    /// What `confirm_search` does.
    pub open spec fn confirm_search_post(o: App, f: App) -> bool {
        let q = trimmed(o.search_input@);
        let base = App {
            search_query: f.search_query,
            mode: Mode::Normal,
            search_matches: f.search_matches,
            ..o
        };
        &&& f.search_query@ == q
        &&& if q.len() == 0 {
            &&& f.search_matches@.len() == 0
            &&& f == base
        } else {
            let ms = matching_lines(views(o.lines@), lowercase(q), o.lines@.len() as int);
            &&& f.search_matches@ == ms
            &&& if ms.len() > 0 {
                let target = match first_at_least(ms, o.cursor, 0) {
                    Some(j) => ms[j],
                    None => ms[0],
                };
                let k = match first_index_of(ms, target, 0) {
                    Some(j) => j as usize,
                    None => 0usize,
                };
                let moved = App { search_match_idx: k, cursor: target, ..base };
                &&& moved.scrolled_to_cursor(f.scroll as int)
                &&& f == (App { scroll: f.scroll, ..moved })
            } else {
                &&& f == (App { search_match_idx: 0, status: f.status, ..base })
                &&& f.status matches Some(s) && s@ == "No matches for \""@ + q + "\""@
            }
        }
    }

    /// What `yank` gives.
    pub open spec fn yank_post(a: App, r: Option<Clip>) -> bool {
        match r {
            None => a.cursor >= a.lines@.len(),
            Some(c) => {
                &&& a.cursor < a.lines@.len()
                &&& c.text@ == yank_text(
                    a.cursor as nat,
                    a.lines@[a.cursor as int]@,
                    if a.comments@.contains_key(a.cursor) {
                        Some(a.comments@[a.cursor]@)
                    } else {
                        None
                    },
                )
                &&& c.status@ == "Yanked to clipboard"@
            },
        }
    }

    /// Rows of the comment editor below the panels: none unless a comment is edited.
    pub open spec fn editor_height(&self, width: u16) -> u16 {
        if self.mode == Mode::EditComment {
            editor_rows(self.input@.len(), width)
        } else {
            0
        }
    }

    /// Fits the layout to a terminal `width` by `height`: the file view gets
    /// the height left by the comment editor, the borders and the status
    /// line, and the width left by the tree panel; the tree keeps its
    /// selection in view.
    pub fn resize(&mut self, width: u16, height: u16)
        requires
            old(self).wf(),
            old(self).editor_height(width) + 3 <= u16::MAX,
        ensures
            final(self).wf(),
            ({
                let o = *old(self);
                let vh = (if height >= o.editor_height(width) + 3 {
                    height - o.editor_height(width) - 3
                } else {
                    0
                }) as usize;
                *final(self) == (App {
                    view_height: vh,
                    view_width: file_width(width, o.tree_width_pct),
                    tree: FileTree { scroll: o.tree.scrolled_to(vh), ..o.tree },
                    ..o
                })
            }),
    {
        let edit_h: u16 = if self.mode == Mode::EditComment {
            comment_editor_height(self.input.as_str(), width)
        } else {
            0
        };
        let reserved = edit_h + 3;
        self.view_height = if height >= reserved {
            (height - reserved) as usize
        } else {
            0
        };
        self.view_width = file_area_width(width, self.tree_width_pct);
        self.tree.scroll_to_cursor(self.view_height);
    }
}

} // verus!
