//! What the screen shows: the text of each panel as lines of coloured
//! parts, which the terminal front end only has to draw.
use vstd::prelude::*;
use crate::diff::{row_view as diff_row_view, rows_view as diff_rows_view, side_view, DiffRow, DiffRowKind, RowV as DiffRowV, SideV};
use crate::editor::{App, Focus, Mode, ViewMode};
use crate::path::{file_name, name_of};
use crate::editor::StyledText;
use crate::layout::{chunk_text, chunks, comment_text_width, comment_top_border, comment_width, pieces_view, rows_of_pieces, top_border, wrap_pieces, wrap_styled, wrap_text, wrapped, PieceV};
use crate::text::{decimal, push_chars, push_decimal, push_str, string_from_chars, views};
use crate::tree::TreeEntry;

verus! {

/// A terminal colour.
#[derive(Clone, Copy, PartialEq, Eq, Structural, Debug)]
pub enum Colour {
    Reset,
    Black,
    Red,
    Green,
    Yellow,
    Blue,
    Magenta,
    Cyan,
    DarkGray,
    White,
    Rgb(u8, u8, u8),
}

/// How a part is drawn: foreground and background colours (the terminal's
/// own where unset), bold, underlined.
#[derive(Clone, Copy, PartialEq, Eq, Structural, Debug)]
pub struct Look {
    pub fg: Option<Colour>,
    pub bg: Option<Colour>,
    pub bold: bool,
    pub underlined: bool,
}

/// A piece of a screen line: its text and how it is drawn.
pub struct Part {
    pub text: String,
    pub look: Look,
}

/// The abstract form of a part.
pub type PartV = (Seq<char>, Look);

pub open spec fn part_view(p: Part) -> PartV {
    (p.text@, p.look)
}

pub open spec fn line_view(l: Seq<Part>) -> Seq<PartV> {
    l.map_values(|p: Part| part_view(p))
}

pub open spec fn lines_view(ls: Seq<Vec<Part>>) -> Seq<Seq<PartV>> {
    ls.map_values(|l: Vec<Part>| line_view(l@))
}

/// The terminal's own colours, neither bold nor underlined.
pub open spec fn plain() -> Look {
    Look { fg: None, bg: None, bold: false, underlined: false }
}

/// Foreground `c` only.
pub open spec fn fg(c: Colour) -> Look {
    Look { fg: Some(c), ..plain() }
}

/// Background `b` only.
pub open spec fn bg(b: Colour) -> Look {
    Look { bg: Some(b), ..plain() }
}

/// Foreground `c` on background `b`.
pub open spec fn fg_bg(c: Colour, b: Colour) -> Look {
    Look { fg: Some(c), bg: Some(b), ..plain() }
}

/// Foreground `c` on background `b`, bold.
pub open spec fn badge(c: Colour, b: Colour) -> Look {
    Look { fg: Some(c), bg: Some(b), bold: true, underlined: false }
}

fn plain_look() -> (r: Look)
    ensures
        r == plain(),
{
    Look { fg: None, bg: None, bold: false, underlined: false }
}

fn fg_look(c: Colour) -> (r: Look)
    ensures
        r == fg(c),
{
    Look { fg: Some(c), bg: None, bold: false, underlined: false }
}

fn bg_look(b: Colour) -> (r: Look)
    ensures
        r == bg(b),
{
    Look { fg: None, bg: Some(b), bold: false, underlined: false }
}

fn fg_bg_look(c: Colour, b: Colour) -> (r: Look)
    ensures
        r == fg_bg(c, b),
{
    Look { fg: Some(c), bg: Some(b), bold: false, underlined: false }
}

/// `n` spaces.
pub open spec fn spaces(n: nat) -> Seq<char> {
    Seq::new(n, |i: int| ' ')
}

/// A horizontal rule `n` columns long.
pub open spec fn rule(n: nat) -> Seq<char> {
    Seq::new(n, |i: int| '─')
}

/// `n` right-aligned in four columns, then a space (as `{:4} ` writes it).
pub open spec fn num4(n: nat) -> Seq<char> {
    let d = decimal(n);
    spaces(if d.len() < 4 {
        (4 - d.len()) as nat
    } else {
        0
    }) + d + seq![' ']
}

/// `s` padded with spaces on the right to `w` columns (as `{:<w}` writes it).
pub open spec fn pad_right(s: Seq<char>, w: nat) -> Seq<char> {
    s + spaces(if s.len() < w {
        (w - s.len()) as nat
    } else {
        0
    })
}

fn push_repeat(out: &mut Vec<char>, c: char, n: usize)
    ensures
        final(out)@ == old(out)@ + Seq::new(n as nat, |i: int| c),
{
    let mut k: usize = 0;
    while k < n
        invariant
            k <= n,
            out@ == old(out)@ + Seq::new(k as nat, |i: int| c),
        decreases n - k,
    {
        out.push(c);
        k += 1;
        assert(out@ =~= old(out)@ + Seq::new(k as nat, |i: int| c));
    }
}

fn push_spaces(out: &mut Vec<char>, n: usize)
    ensures
        final(out)@ == old(out)@ + spaces(n as nat),
{
    push_repeat(out, ' ', n);
}

fn push_rule(out: &mut Vec<char>, n: usize)
    ensures
        final(out)@ == old(out)@ + rule(n as nat),
{
    push_repeat(out, '─', n);
}

fn push_num4(out: &mut Vec<char>, n: usize)
    ensures
        final(out)@ == old(out)@ + num4(n as nat),
{
    let mut d: Vec<char> = Vec::new();
    push_decimal(&mut d, n);
    assert(d@ =~= decimal(n as nat));
    let pad = if d.len() < 4 {
        4 - d.len()
    } else {
        0
    };
    push_spaces(out, pad);
    push_chars(out, d.as_slice());
    out.push(' ');
    assert(final(out)@ =~= old(out)@ + num4(n as nat));
}

fn part_of(cs: &Vec<char>, look: Look) -> (r: Part)
    ensures
        part_view(r) == (cs@, look),
{
    Part { text: string_from_chars(cs.as_slice()), look }
}

fn part_str(s: &str, look: Look) -> (r: Part)
    ensures
        part_view(r) == (s@, look),
{
    let mut cs: Vec<char> = Vec::new();
    push_str(&mut cs, s);
    assert(cs@ =~= s@);
    part_of(&cs, look)
}

fn push_part(line: &mut Vec<Part>, p: Part)
    ensures
        line_view(final(line)@) == line_view(old(line)@).push(part_view(p)),
{
    let ghost before = line@;
    line.push(p);
    assert(line_view(line@) =~= line_view(before).push(part_view(p)));
}

/// Number of rows shown from `scroll` on, out of `len`, in a view `height` rows high.
pub open spec fn shown(len: nat, scroll: nat, height: nat) -> nat {
    if scroll >= len {
        0
    } else if len - scroll <= height {
        (len - scroll) as nat
    } else {
        height
    }
}

// ---------------------------------------------------------------------------
// Tree panel
// ---------------------------------------------------------------------------
/// The text of a tree row: indented two columns per level, a marker for
/// directories (open or closed), the file name, and `/` after directories.
pub open spec fn tree_row_text(e: TreeEntry) -> Seq<char> {
    let prefix = if e.is_dir {
        if e.is_expanded {
            "▼ "@
        } else {
            "▶ "@
        }
    } else {
        "  "@
    };
    spaces(2 * e.depth as nat) + prefix + name_of(e.path@) + (if e.is_dir {
        "/"@
    } else {
        ""@
    })
}

/// How tree row `i` is drawn: the selected row highlighted (underlined when
/// the tree has no focus), the open file in cyan, directories in blue.
pub open spec fn tree_row_look(app: App, i: int) -> Look {
    let e = app.tree.entries@[i];
    if i == app.tree.cursor && app.focus == Focus::Tree {
        fg_bg(Colour::White, Colour::DarkGray)
    } else if i == app.tree.cursor {
        Look { underlined: true, ..plain() }
    } else if e.path@ == app.file_path@ {
        fg(Colour::Cyan)
    } else if e.is_dir {
        fg(Colour::Blue)
    } else {
        plain()
    }
}

fn tree_row(app: &App, i: usize) -> (r: Part)
    requires
        i < app.tree.entries@.len(),
    ensures
        part_view(r) == (tree_row_text(app.tree.entries@[i as int]), tree_row_look(*app, i as int)),
{
    let e = &app.tree.entries[i];
    let mut cs: Vec<char> = Vec::new();
    let mut k: usize = 0;
    while k < e.depth
        invariant
            k <= e.depth,
            cs@ == spaces(2 * k as nat),
        decreases e.depth - k,
    {
        cs.push(' ');
        cs.push(' ');
        k += 1;
        assert(cs@ =~= spaces(2 * k as nat));
    }
    if e.is_dir {
        if e.is_expanded {
            push_str(&mut cs, "▼ ");
        } else {
            push_str(&mut cs, "▶ ");
        }
    } else {
        push_str(&mut cs, "  ");
    }
    let name = file_name(e.path.as_str());
    push_chars(&mut cs, name.as_slice());
    if e.is_dir {
        push_str(&mut cs, "/");
    } else {
        push_str(&mut cs, "");
    }
    assert(cs@ =~= tree_row_text(*e));
    let look = if i == app.tree.cursor && app.focus == Focus::Tree {
        fg_bg_look(Colour::White, Colour::DarkGray)
    } else if i == app.tree.cursor {
        Look { fg: None, bg: None, bold: false, underlined: true }
    } else if e.path == app.file_path {
        fg_look(Colour::Cyan)
    } else if e.is_dir {
        fg_look(Colour::Blue)
    } else {
        plain_look()
    };
    part_of(&cs, look)
}

/// The rows of the tree panel, `inner_height` rows high, from its first
/// shown row on: one part per row.
pub fn tree_lines(app: &App, inner_height: usize) -> (r: Vec<Part>)
    ensures
        r@.len() == shown(app.tree.entries@.len(), app.tree.scroll as nat, inner_height as nat),
        forall|k: int|
            0 <= k < r@.len() ==> part_view(#[trigger] r@[k]) == (
                tree_row_text(app.tree.entries@[app.tree.scroll + k]),
                tree_row_look(*app, app.tree.scroll + k),
            ),
{
    let n = app.tree.entries.len();
    let s = app.tree.scroll;
    let count = if s >= n {
        0
    } else if n - s <= inner_height {
        n - s
    } else {
        inner_height
    };
    let mut r: Vec<Part> = Vec::new();
    let mut k: usize = 0;
    while k < count
        invariant
            k <= count,
            n == app.tree.entries@.len(),
            s == app.tree.scroll,
            count == shown(n as nat, s as nat, inner_height as nat),
            r@.len() == k,
            forall|q: int|
                0 <= q < k ==> part_view(#[trigger] r@[q]) == (
                    tree_row_text(app.tree.entries@[s + q]),
                    tree_row_look(*app, s + q),
                ),
        decreases count - k,
    {
        let p = tree_row(app, s + k);
        r.push(p);
        k += 1;
    }
    r
}

/// The border colour of a panel: yellow when it has the focus.
pub open spec fn border_look(focused: bool) -> Look {
    if focused {
        fg(Colour::Yellow)
    } else {
        plain()
    }
}

pub fn panel_border(focused: bool) -> (r: Look)
    ensures
        r == border_look(focused),
{
    if focused {
        fg_look(Colour::Yellow)
    } else {
        plain_look()
    }
}

// ---------------------------------------------------------------------------
// Status line, titles, comment editor
// ---------------------------------------------------------------------------
/// Help shown in the status line while the tree has the focus.
pub open spec fn tree_help() -> Seq<char> {
    "  j/k/scroll:nav  Enter/l:open  Space/h:expand  Tab:switch  E:global-export  </>:resize  q:quit"@
}

/// Help shown in the status line while the file has the focus.
pub open spec fn file_help() -> Seq<char> {
    "  j/k/scroll:nav  /:search  n/N:next/prev  c:comment  d:del  D:del-all  y:yank  Y:yank-issues  v:mode  E:global-export  </>:resize  g/G:top/bot  Tab:switch  q:quit"@
}

/// The status line: the status message when there is one, else the mode
/// badge with its help (and the search being typed).
pub open spec fn status_parts(app: App) -> Seq<PartV> {
    match app.status {
        Some(msg) => seq![(" "@, plain()), (msg@, fg(Colour::Green))],
        None => if app.mode == Mode::EditComment {
            seq![
                (" INSERT "@, badge(Colour::Black, Colour::Green)),
                ("  Enter:confirm  Esc:cancel"@, plain()),
            ]
        } else if app.mode == Mode::Search {
            seq![
                (" SEARCH "@, badge(Colour::Black, Colour::Magenta)),
                ("  /"@, plain()),
                (app.search_input@, fg(Colour::White)),
                ("_"@, fg(Colour::DarkGray)),
                ("  Enter:confirm  Esc:cancel"@, plain()),
            ]
        } else if app.focus == Focus::Tree {
            seq![(" TREE "@, badge(Colour::Black, Colour::Cyan)), (tree_help(), plain())]
        } else {
            seq![(" NORMAL "@, badge(Colour::White, Colour::Blue)), (file_help(), plain())]
        },
    }
}

/// The parts of the status line (see `status_parts`).
pub fn status_line(app: &App) -> (r: Vec<Part>)
    ensures
        line_view(r@) == status_parts(*app),
{
    let mut r: Vec<Part> = Vec::new();
    match &app.status {
        Some(msg) => {
            push_part(&mut r, part_str(" ", plain_look()));
            push_part(&mut r, part_str(msg.as_str(), fg_look(Colour::Green)));
        },
        None => {
            if app.mode == Mode::EditComment {
                push_part(
                    &mut r,
                    part_str(" INSERT ", Look { fg: Some(Colour::Black), bg: Some(Colour::Green), bold: true, underlined: false }),
                );
                push_part(&mut r, part_str("  Enter:confirm  Esc:cancel", plain_look()));
            } else if app.mode == Mode::Search {
                push_part(
                    &mut r,
                    part_str(" SEARCH ", Look { fg: Some(Colour::Black), bg: Some(Colour::Magenta), bold: true, underlined: false }),
                );
                push_part(&mut r, part_str("  /", plain_look()));
                push_part(&mut r, part_str(app.search_input.as_str(), fg_look(Colour::White)));
                push_part(&mut r, part_str("_", fg_look(Colour::DarkGray)));
                push_part(&mut r, part_str("  Enter:confirm  Esc:cancel", plain_look()));
            } else if app.focus == Focus::Tree {
                push_part(
                    &mut r,
                    part_str(" TREE ", Look { fg: Some(Colour::Black), bg: Some(Colour::Cyan), bold: true, underlined: false }),
                );
                push_part(
                    &mut r,
                    part_str("  j/k/scroll:nav  Enter/l:open  Space/h:expand  Tab:switch  E:global-export  </>:resize  q:quit", plain_look()),
                );
            } else {
                push_part(
                    &mut r,
                    part_str(" NORMAL ", Look { fg: Some(Colour::White), bg: Some(Colour::Blue), bold: true, underlined: false }),
                );
                push_part(
                    &mut r,
                    part_str("  j/k/scroll:nav  /:search  n/N:next/prev  c:comment  d:del  D:del-all  y:yank  Y:yank-issues  v:mode  E:global-export  </>:resize  g/G:top/bot  Tab:switch  q:quit", plain_look()),
                );
            }
        },
    }
    assert(line_view(r@) =~= status_parts(*app));
    r
}

/// The tag of the view mode in the file panel's title.
pub open spec fn mode_tag(m: ViewMode) -> Seq<char> {
    match m {
        ViewMode::Source => "[src]"@,
        ViewMode::LatexCompiled => "[tex]"@,
        ViewMode::GitDiff => "[diff]"@,
    }
}

/// The title of the file panel: the open file and the view mode.
pub fn file_title(app: &App) -> (r: String)
    ensures
        r@ == " "@ + app.file_path@ + " "@ + mode_tag(app.view_mode) + " "@,
{
    let mut cs: Vec<char> = Vec::new();
    push_str(&mut cs, " ");
    push_str(&mut cs, app.file_path.as_str());
    push_str(&mut cs, " ");
    match app.view_mode {
        ViewMode::Source => push_str(&mut cs, "[src]"),
        ViewMode::LatexCompiled => push_str(&mut cs, "[tex]"),
        ViewMode::GitDiff => push_str(&mut cs, "[diff]"),
    }
    push_str(&mut cs, " ");
    assert(cs@ =~= " "@ + app.file_path@ + " "@ + mode_tag(app.view_mode) + " "@);
    string_from_chars(cs.as_slice())
}

/// The title of the comment editor: the line under the cursor, from 1.
pub fn editor_title(app: &App) -> (r: String)
    requires
        app.wf(),
    ensures
        r@ == " Comment (line "@ + decimal((app.cursor + 1) as nat) + ") "@,
{
    let mut cs: Vec<char> = Vec::new();
    push_str(&mut cs, " Comment (line ");
    push_decimal(&mut cs, app.cursor + 1);
    push_str(&mut cs, ") ");
    assert(cs@ =~= " Comment (line "@ + decimal((app.cursor + 1) as nat) + ") "@);
    string_from_chars(cs.as_slice())
}

/// The text of the comment editor: the input and a cursor mark.
pub fn editor_text(app: &App) -> (r: String)
    ensures
        r@ == app.input@ + "_"@,
{
    let mut cs: Vec<char> = Vec::new();
    push_str(&mut cs, app.input.as_str());
    push_str(&mut cs, "_");
    string_from_chars(cs.as_slice())
}

// ---------------------------------------------------------------------------
// Compiled view
// ---------------------------------------------------------------------------
/// Columns for text in a file view `area_width` wide, after borders and gutter.
pub open spec fn text_columns(area_width: u16) -> nat {
    if area_width as int > 11 {
        (area_width - 11) as nat
    } else {
        1
    }
}

/// Rows inside a panel `area_height` high, without its borders.
pub open spec fn inner_rows(area_height: u16) -> nat {
    if area_height >= 2 {
        (area_height - 2) as nat
    } else {
        0
    }
}

fn text_columns_of(area_width: u16) -> (r: usize)
    ensures
        r == text_columns(area_width),
        r >= 1,
{
    let w = area_width as usize;
    if w > 11 {
        w - 11
    } else {
        1
    }
}

fn inner_rows_of(area_height: u16) -> (r: usize)
    ensures
        r == inner_rows(area_height),
{
    if area_height >= 2 {
        (area_height - 2) as usize
    } else {
        0
    }
}

/// Row `j` of compiled line `i`, showing `chunk`: the line number on its
/// first row, a blank gutter on the others.
pub open spec fn compiled_row(i: nat, j: int, chunk: Seq<char>) -> Seq<PartV> {
    if j == 0 {
        seq![
            ("  "@, fg(Colour::DarkGray)),
            (num4(i + 1), fg(Colour::DarkGray)),
            ("  "@, plain()),
            (chunk, plain()),
        ]
    } else {
        seq![(spaces(9), plain()), (chunk, plain())]
    }
}

/// The rows of compiled lines `i` on, `rows` rows being already shown, in a
/// view `height` rows high whose text is `width` columns wide.
pub open spec fn compiled_from(ls: Seq<Seq<char>>, i: int, rows: nat, width: nat, height: nat) -> Seq<
    Seq<PartV>,
>
    decreases ls.len() - i,
{
    if i < 0 || i >= ls.len() || rows >= height {
        seq![]
    } else {
        let cs = chunks(ls[i], width);
        let k: nat = if cs.len() <= height - rows {
            cs.len()
        } else {
            (height - rows) as nat
        };
        Seq::new(k, |j: int| compiled_row(i as nat, j, cs[j])) + compiled_from(
            ls,
            i + 1,
            rows + k,
            width,
            height,
        )
    }
}

/// What the compiled view shows: the compiled lines from the first shown
/// one, each cut to the text width; a loading note while there are none.
pub open spec fn compiled_view(app: App, area_width: u16, area_height: u16) -> Seq<Seq<PartV>> {
    let ls = match app.compiled_lines {
        Some(v) => views(v@),
        None => seq![],
    };
    compiled_from(ls, app.scroll as int, 0, text_columns(area_width), inner_rows(area_height)) + (
    if ls.len() == 0 {
        seq![seq![("  Loading..."@, fg(Colour::DarkGray))]]
    } else {
        seq![]
    })
}

fn push_line(lines: &mut Vec<Vec<Part>>, l: Vec<Part>)
    ensures
        lines_view(final(lines)@) == lines_view(old(lines)@).push(line_view(l@)),
{
    let ghost before = lines@;
    lines.push(l);
    assert(lines_view(lines@) =~= lines_view(before).push(line_view(l@)));
}

fn compiled_row_parts(i: usize, j: usize, chunk: &String) -> (r: Vec<Part>)
    requires
        i < usize::MAX,
    ensures
        line_view(r@) == compiled_row(i as nat, j as int, chunk@),
{
    let mut r: Vec<Part> = Vec::new();
    if j == 0 {
        push_part(&mut r, part_str("  ", fg_look(Colour::DarkGray)));
        let mut n: Vec<char> = Vec::new();
        push_num4(&mut n, i + 1);
        assert(n@ =~= num4((i + 1) as nat));
        push_part(&mut r, part_of(&n, fg_look(Colour::DarkGray)));
        push_part(&mut r, part_str("  ", plain_look()));
    } else {
        let mut g: Vec<char> = Vec::new();
        push_spaces(&mut g, 9);
        assert(g@ =~= spaces(9));
        push_part(&mut r, part_of(&g, plain_look()));
    }
    push_part(&mut r, part_str(chunk.as_str(), plain_look()));
    assert(line_view(r@) =~= compiled_row(i as nat, j as int, chunk@));
    r
}

/// The lines of the compiled view (see `compiled_view`).
pub fn compiled_lines(app: &App, area_width: u16, area_height: u16) -> (r: Vec<Vec<Part>>)
    ensures
        lines_view(r@) == compiled_view(*app, area_width, area_height),
{
    let width = text_columns_of(area_width);
    let height = inner_rows_of(area_height);
    let empty: Vec<String> = Vec::new();
    let ls: &Vec<String> = match &app.compiled_lines {
        Some(v) => v,
        None => &empty,
    };
    let ghost lv = views(ls@);
    assert(lv == match app.compiled_lines {
        Some(v) => views(v@),
        None => seq![],
    }) by {
        if app.compiled_lines is None {
            assert(views(empty@) =~= Seq::<Seq<char>>::empty());
        }
    }
    let mut out: Vec<Vec<Part>> = Vec::new();
    let mut rows: usize = 0;
    let mut i = app.scroll;
    assert(lines_view(out@) + compiled_from(lv, i as int, rows as nat, width as nat, height as nat)
        =~= compiled_from(lv, app.scroll as int, 0, width as nat, height as nat));
    let n = ls.len();
    while i < n && rows < height
        invariant
            n == ls@.len(),
            lv == views(ls@),
            width == text_columns(area_width),
            width >= 1,
            height == inner_rows(area_height),
            rows <= height,
            lines_view(out@) + compiled_from(lv, i as int, rows as nat, width as nat, height as nat)
                == compiled_from(lv, app.scroll as int, 0, width as nat, height as nat),
        decreases ls@.len() - i,
    {
        let cs = chunk_text(ls[i].as_str(), width);
        assert(lv[i as int] == ls@[i as int]@);
        let ghost cv = views(cs@);
        let k: usize = if cs.len() <= height - rows {
            cs.len()
        } else {
            height - rows
        };
        let ghost before = lines_view(out@);
        let mut j: usize = 0;
        while j < k
            invariant
                j <= k,
                k <= cs@.len(),
                i < n,
                n == ls@.len(),
                cv == views(cs@),
                lines_view(out@) == before + Seq::new(j as nat, |q: int| compiled_row(i as nat, q, cv[q])),
            decreases k - j,
        {
            let l = compiled_row_parts(i, j, &cs[j]);
            push_line(&mut out, l);
            j += 1;
            assert(lines_view(out@) =~= before + Seq::new(j as nat, |q: int| compiled_row(i as nat, q, cv[q])));
        }
        assert(compiled_from(lv, i as int, rows as nat, width as nat, height as nat) =~= Seq::new(
            k as nat,
            |q: int| compiled_row(i as nat, q, cv[q]),
        ) + compiled_from(lv, i + 1, (rows + k) as nat, width as nat, height as nat));
        rows = rows + k;
        i += 1;
    }
    assert(compiled_from(lv, i as int, rows as nat, width as nat, height as nat) =~= Seq::<Seq<PartV>>::empty());
    assert(lines_view(out@) =~= compiled_from(lv, app.scroll as int, 0, width as nat, height as nat));
    if n == 0 {
        let mut l: Vec<Part> = Vec::new();
        push_part(&mut l, part_str("  Loading...", fg_look(Colour::DarkGray)));
        assert(line_view(l@) =~= seq![("  Loading..."@, fg(Colour::DarkGray))]);
        push_line(&mut out, l);
    }
    assert(lines_view(out@) =~= compiled_view(*app, area_width, area_height));
    out
}

// ---------------------------------------------------------------------------
// Diff view
// ---------------------------------------------------------------------------
/// Columns of each side of the diff view inside a panel `inner_width` wide,
/// one column being kept for the separator.
pub open spec fn diff_half(inner_width: u16) -> u16 {
    ((if inner_width >= 1 {
        inner_width - 1
    } else {
        0
    }) / 2) as u16
}

pub fn diff_side_width(inner_width: u16) -> (r: u16)
    ensures
        r == diff_half(inner_width),
{
    (if inner_width >= 1 {
        inner_width - 1
    } else {
        0
    }) / 2
}

/// Columns for text on a diff side `half` wide, after its line number.
pub open spec fn diff_text_width(half: u16) -> nat {
    if half > 6 {
        (half - 6) as nat
    } else {
        1
    }
}

/// `t` cut or padded with spaces to exactly `w` columns.
pub open spec fn clip(t: Seq<char>, w: nat) -> Seq<char> {
    pad_right(t.take(if t.len() <= w { t.len() as int } else { w as int }), w)
}

/// One side of a diff row on background `b`: its line number, when the
/// side has a line, and its text cut to `w` columns.
pub open spec fn side_parts(side: SideV, b: Colour, w: nat) -> Seq<PartV> {
    match side {
        Some(p) => seq![(" "@, bg(b)), (num4(p.0 as nat), fg_bg(Colour::DarkGray, b)), (clip(p.1, w), bg(b))],
        None => seq![(" "@, bg(b)), (spaces(5), bg(b)), (clip(seq![], w), bg(b))],
    }
}

/// Backgrounds of the two sides of a row: red for a removed line, green
/// for an added one, none for context.
pub open spec fn side_colours(r: DiffRowV) -> (Colour, Colour) {
    match r.2 {
        DiffRowKind::Context => (Colour::Reset, Colour::Reset),
        DiffRowKind::Changed => (
            if r.0 is Some { Colour::Red } else { Colour::Reset },
            if r.1 is Some { Colour::Green } else { Colour::Reset },
        ),
    }
}

/// The diff rows shown, of `rows`, in a view `height` rows high with one
/// header row.
pub open spec fn diff_shown(rows: Seq<DiffRowV>, scroll: nat, height: nat) -> nat {
    if height <= 1 {
        0
    } else {
        shown(rows.len(), scroll, (height - 1) as nat)
    }
}

/// What the diff view shows on its left (committed) and right (working)
/// sides, each `half` columns wide and `height` rows high: a note when
/// nothing changed, else a header and the rows from the first shown one.
pub open spec fn diff_view(app: App, half: u16, height: u16) -> (Seq<Seq<PartV>>, Seq<Seq<PartV>>) {
    let rows = match app.diff_rows {
        Some(r) => diff_rows_view(r@),
        None => seq![],
    };
    if rows.len() == 0 {
        let note = seq![("  No changes vs HEAD"@, fg(Colour::DarkGray))];
        (seq![note], seq![note])
    } else {
        let w = diff_text_width(half);
        let n = diff_shown(rows, app.scroll as nat, height as nat);
        let s = app.scroll as int;
        (
            seq![seq![(" HEAD"@, Look { bold: true, ..fg(Colour::Red) })]] + Seq::new(
                n,
                |k: int| side_parts(rows[s + k].0, side_colours(rows[s + k]).0, w),
            ),
            seq![seq![(" Working Tree"@, Look { bold: true, ..fg(Colour::Green) })]] + Seq::new(
                n,
                |k: int| side_parts(rows[s + k].1, side_colours(rows[s + k]).1, w),
            ),
        )
    }
}

fn clip_chars(t: &String, w: usize) -> (r: Vec<char>)
    ensures
        r@ == clip(t@, w as nat),
{
    let cs = crate::text::chars_of(t.as_str());
    let n = if cs.len() <= w {
        cs.len()
    } else {
        w
    };
    let mut r: Vec<char> = Vec::new();
    let mut k: usize = 0;
    while k < n
        invariant
            k <= n,
            n <= cs@.len(),
            cs@ == t@,
            r@ == cs@.take(k as int),
        decreases n - k,
    {
        r.push(cs[k]);
        k += 1;
        assert(r@ =~= cs@.take(k as int));
    }
    push_spaces(&mut r, w - n);
    assert(r@ =~= clip(t@, w as nat));
    r
}

fn side_line(side: &Option<(usize, String)>, b: Colour, w: usize) -> (r: Vec<Part>)
    ensures
        line_view(r@) == side_parts(side_view(*side), b, w as nat),
{
    let mut r: Vec<Part> = Vec::new();
    push_part(&mut r, part_str(" ", bg_look(b)));
    match side {
        Some((n, t)) => {
            let mut num: Vec<char> = Vec::new();
            push_num4(&mut num, *n);
            assert(num@ =~= num4(*n as nat));
            push_part(&mut r, part_of(&num, fg_bg_look(Colour::DarkGray, b)));
            let c = clip_chars(t, w);
            push_part(&mut r, part_of(&c, bg_look(b)));
        },
        None => {
            let mut g: Vec<char> = Vec::new();
            push_spaces(&mut g, 5);
            push_part(&mut r, part_of(&g, bg_look(b)));
            let e = String::new();
            let c = clip_chars(&e, w);
            push_part(&mut r, part_of(&c, bg_look(b)));
        },
    }
    assert(line_view(r@) =~= side_parts(side_view(*side), b, w as nat));
    r
}

fn colours_of(r: &DiffRow) -> (c: (Colour, Colour))
    ensures
        c == side_colours(diff_row_view(*r)),
{
    match r.kind {
        DiffRowKind::Context => (Colour::Reset, Colour::Reset),
        DiffRowKind::Changed => (
            if r.old.is_some() { Colour::Red } else { Colour::Reset },
            if r.new.is_some() { Colour::Green } else { Colour::Reset },
        ),
    }
}

/// The two sides of the diff view (see `diff_view`).
pub fn diff_lines(app: &App, half: u16, height: u16) -> (r: (Vec<Vec<Part>>, Vec<Vec<Part>>))
    ensures
        (lines_view(r.0@), lines_view(r.1@)) == diff_view(*app, half, height),
{
    let empty: Vec<DiffRow> = Vec::new();
    let rows: &Vec<DiffRow> = match &app.diff_rows {
        Some(v) => v,
        None => &empty,
    };
    let ghost rv = diff_rows_view(rows@);
    assert(rv == match app.diff_rows {
        Some(r) => diff_rows_view(r@),
        None => seq![],
    }) by {
        if app.diff_rows is None {
            assert(diff_rows_view(empty@) =~= Seq::<DiffRowV>::empty());
        }
    }
    let mut left: Vec<Vec<Part>> = Vec::new();
    let mut right: Vec<Vec<Part>> = Vec::new();
    let n = rows.len();
    if n == 0 {
        let mut a: Vec<Part> = Vec::new();
        push_part(&mut a, part_str("  No changes vs HEAD", fg_look(Colour::DarkGray)));
        let mut b: Vec<Part> = Vec::new();
        push_part(&mut b, part_str("  No changes vs HEAD", fg_look(Colour::DarkGray)));
        let ghost note = seq![("  No changes vs HEAD"@, fg(Colour::DarkGray))];
        assert(line_view(a@) =~= note);
        assert(line_view(b@) =~= note);
        assert(rv.len() == 0);
        push_line(&mut left, a);
        push_line(&mut right, b);
        assert(lines_view(left@) =~= diff_view(*app, half, height).0);
        assert(lines_view(right@) =~= diff_view(*app, half, height).1);
        return (left, right);
    }
    let w: usize = if half > 6 {
        (half - 6) as usize
    } else {
        1
    };
    let mut hl: Vec<Part> = Vec::new();
    push_part(&mut hl, part_str(" HEAD", Look { fg: Some(Colour::Red), bg: None, bold: true, underlined: false }));
    assert(line_view(hl@) =~= seq![(" HEAD"@, Look { bold: true, ..fg(Colour::Red) })]);
    push_line(&mut left, hl);
    let mut hr: Vec<Part> = Vec::new();
    push_part(&mut hr, part_str(" Working Tree", Look { fg: Some(Colour::Green), bg: None, bold: true, underlined: false }));
    assert(line_view(hr@) =~= seq![(" Working Tree"@, Look { bold: true, ..fg(Colour::Green) })]);
    push_line(&mut right, hr);
    let s = app.scroll;
    let h = height as usize;
    let count: usize = if h <= 1 {
        0
    } else if s >= n {
        0
    } else if n - s <= h - 1 {
        n - s
    } else {
        h - 1
    };
    assert(count == diff_shown(rv, s as nat, height as nat));
    let ghost hl0 = lines_view(left@);
    let ghost hr0 = lines_view(right@);
    assert(hl0 =~= seq![seq![(" HEAD"@, Look { bold: true, ..fg(Colour::Red) })]]);
    assert(hr0 =~= seq![seq![(" Working Tree"@, Look { bold: true, ..fg(Colour::Green) })]]);
    assert(rv.len() == n);
    let mut k: usize = 0;
    while k < count
        invariant
            k <= count,
            n == rows@.len(),
            rv == diff_rows_view(rows@),
            s == app.scroll,
            count <= n,
            count == 0 || s + count <= n,
            w == diff_text_width(half),
            lines_view(left@) == hl0 + Seq::new(
                k as nat,
                |q: int| side_parts(rv[s + q].0, side_colours(rv[s + q]).0, w as nat),
            ),
            lines_view(right@) == hr0 + Seq::new(
                k as nat,
                |q: int| side_parts(rv[s + q].1, side_colours(rv[s + q]).1, w as nat),
            ),
        decreases count - k,
    {
        let row = &rows[s + k];
        assert(rv[s + k] == diff_row_view(*row));
        let (cl, cr) = colours_of(row);
        let a = side_line(&row.old, cl, w);
        let b = side_line(&row.new, cr, w);
        push_line(&mut left, a);
        push_line(&mut right, b);
        k += 1;
        assert(lines_view(left@) =~= hl0 + Seq::new(
            k as nat,
            |q: int| side_parts(rv[s + q].0, side_colours(rv[s + q]).0, w as nat),
        ));
        assert(lines_view(right@) =~= hr0 + Seq::new(
            k as nat,
            |q: int| side_parts(rv[s + q].1, side_colours(rv[s + q]).1, w as nat),
        ));
    }
    assert(lines_view(left@) =~= diff_view(*app, half, height).0);
    assert(lines_view(right@) =~= diff_view(*app, half, height).1);
    (left, right)
}

// ---------------------------------------------------------------------------
// Source view
// ---------------------------------------------------------------------------
/// The background of source line `i`: grey under the cursor.
pub open spec fn line_bg(app: App, i: int) -> Colour {
    if i == app.cursor {
        Colour::DarkGray
    } else {
        Colour::Reset
    }
}

/// Source line `i` is a match of the current search.
pub open spec fn is_match_line(app: App, i: int) -> bool {
    app.search_query@.len() > 0 && app.search_matches@.contains(i as usize)
}

/// The gutter of row `row` of source line `i`: on its first row the cursor
/// or match marker, the line number and a dot for a commented line; blank
/// on the others.
pub open spec fn gutter(app: App, i: int, row: int) -> Seq<PartV> {
    let b = line_bg(app, i);
    if row == 0 {
        seq![
            (if i == app.cursor {
                "▶ "@
            } else if is_match_line(app, i) {
                "◆ "@
            } else {
                "  "@
            }, fg_bg(Colour::Yellow, b)),
            (num4((i + 1) as nat), fg_bg(Colour::DarkGray, b)),
            (if app.comments@.contains_key(i as usize) {
                "● "@
            } else {
                "  "@
            }, fg_bg(Colour::Cyan, b)),
        ]
    } else {
        seq![(spaces(9), bg(b))]
    }
}

/// The highlighted pieces of a row, in their colours on background `b`.
pub open spec fn piece_parts(row: Seq<PieceV>, b: Colour) -> Seq<PartV> {
    row.map_values(|p: PieceV| (p.1, fg_bg(Colour::Rgb(p.0.0, p.0.1, p.0.2), b)))
}

/// The highlighted pieces of source line `i`, none when it has none.
pub open spec fn line_pieces(app: App, i: int) -> Seq<PieceV> {
    if 0 <= i < app.highlighted_lines@.len() {
        pieces_view(app.highlighted_lines@[i]@)
    } else {
        seq![]
    }
}

/// The screen rows of source line `i`: its highlighted pieces wrapped at
/// `width` columns, behind the gutter.
pub open spec fn source_line_rows(app: App, i: int, width: nat) -> Seq<Seq<PartV>> {
    let rows = wrap_pieces(line_pieces(app, i), width).0;
    Seq::new(rows.len(), |k: int| gutter(app, i, k) + piece_parts(rows[k], line_bg(app, i)))
}

/// The box of a comment `text` shown below its line in a view `area_width`
/// wide: a titled top border, the wrapped text padded to the box, a bottom
/// border.
pub open spec fn comment_box_lines(text: Seq<char>, area_width: u16) -> Seq<Seq<PartV>> {
    let w = comment_width(area_width);
    let dim = fg(Colour::DarkGray);
    let body = wrapped(text, w);
    seq![seq![(spaces(9) + "┌"@ + top_border(w + 2) + "┐"@, dim)]] + Seq::new(
        body.len(),
        |k: int|
            seq![
                (spaces(9) + "│ "@, dim),
                (pad_right(body[k], w), fg(Colour::Yellow)),
                (" │"@, dim),
            ],
    ) + seq![seq![(spaces(9) + "└"@ + rule(w + 2) + "┘"@, dim)]]
}

/// The rows of source lines `i` on, `rows` rows being already shown, in a
/// view `height` rows high: each line's rows, then as much of its comment
/// box as fits.
pub open spec fn source_from(
    app: App,
    i: int,
    rows: nat,
    width: nat,
    area_width: u16,
    height: nat,
) -> Seq<Seq<PartV>>
    decreases app.lines@.len() - i,
{
    if i < 0 || i >= app.lines@.len() || rows >= height {
        seq![]
    } else {
        let fl = source_line_rows(app, i, width);
        let r1: nat = if rows + fl.len() >= height {
            height
        } else {
            rows + fl.len()
        };
        let bx = if app.comments@.contains_key(i as usize) {
            comment_box_lines(app.comments@[i as usize]@, area_width)
        } else {
            seq![]
        };
        let kept: nat = if bx.len() <= height - r1 {
            bx.len()
        } else {
            (height - r1) as nat
        };
        fl + bx.take(kept as int) + source_from(app, i + 1, r1 + kept, width, area_width, height)
    }
}

/// What the source view of a file panel `area_width` by `area_height` shows.
pub open spec fn source_view(app: App, area_width: u16, area_height: u16) -> Seq<Seq<PartV>> {
    source_from(app, app.scroll as int, 0, text_columns(area_width), area_width, inner_rows(area_height))
}

fn contains_line(v: &Vec<usize>, x: usize) -> (r: bool)
    ensures
        r == v@.contains(x),
{
    let n = v.len();
    let mut k: usize = 0;
    while k < n
        invariant
            k <= n,
            n == v@.len(),
            forall|q: int| 0 <= q < k ==> v@[q] != x,
        decreases n - k,
    {
        if v[k] == x {
            assert(v@[k as int] == x);
            return true;
        }
        k += 1;
    }
    false
}

fn gutter_parts(app: &App, i: usize, row: usize) -> (r: Vec<Part>)
    requires
        app.wf(),
        i < app.lines@.len(),
    ensures
        line_view(r@) == gutter(*app, i as int, row as int),
{
    let b = if i == app.cursor {
        Colour::DarkGray
    } else {
        Colour::Reset
    };
    let mut r: Vec<Part> = Vec::new();
    if row == 0 {
        let matched = !app.search_query.as_str().is_empty() && contains_line(&app.search_matches, i);
        let marker = if i == app.cursor {
            "▶ "
        } else if matched {
            "◆ "
        } else {
            "  "
        };
        push_part(&mut r, part_str(marker, fg_bg_look(Colour::Yellow, b)));
        assert(app.lines.len() == app.lines@.len());
        let mut num: Vec<char> = Vec::new();
        push_num4(&mut num, i + 1);
        assert(num@ =~= num4((i + 1) as nat));
        push_part(&mut r, part_of(&num, fg_bg_look(Colour::DarkGray, b)));
        let dot = if app.comments.contains_key(&i) {
            "● "
        } else {
            "  "
        };
        push_part(&mut r, part_str(dot, fg_bg_look(Colour::Cyan, b)));
    } else {
        let mut g: Vec<char> = Vec::new();
        push_spaces(&mut g, 9);
        push_part(&mut r, part_of(&g, bg_look(b)));
    }
    assert(line_view(r@) =~= gutter(*app, i as int, row as int));
    r
}

fn row_parts(mut line: Vec<Part>, row: &Vec<StyledText>, b: Colour) -> (r: Vec<Part>)
    ensures
        line_view(r@) == line_view(line@) + piece_parts(pieces_view(row@), b),
{
    let ghost start = line_view(line@);
    let n = row.len();
    let mut k: usize = 0;
    while k < n
        invariant
            k <= n,
            n == row@.len(),
            line_view(line@) == start + piece_parts(pieces_view(row@), b).take(k as int),
        decreases n - k,
    {
        let p = &row[k];
        let (cr, cg, cb) = p.fg;
        let part = Part { text: p.text.clone(), look: fg_bg_look(Colour::Rgb(cr, cg, cb), b) };
        push_part(&mut line, part);
        k += 1;
        assert(line_view(line@) =~= start + piece_parts(pieces_view(row@), b).take(k as int));
    }
    assert(piece_parts(pieces_view(row@), b).take(n as int) =~= piece_parts(pieces_view(row@), b));
    line
}

fn line_rows(app: &App, i: usize, width: usize) -> (r: Vec<Vec<Part>>)
    requires
        app.wf(),
        i < app.lines@.len(),
        width >= 1,
    ensures
        lines_view(r@) == source_line_rows(*app, i as int, width as nat),
{
    let empty: Vec<StyledText> = Vec::new();
    let pieces: &Vec<StyledText> = if i < app.highlighted_lines.len() {
        &app.highlighted_lines[i]
    } else {
        &empty
    };
    assert(pieces_view(pieces@) == line_pieces(*app, i as int)) by {
        if i >= app.highlighted_lines@.len() {
            assert(pieces_view(empty@) =~= Seq::<PieceV>::empty());
        }
    }
    let wrapped_rows = wrap_styled(pieces, width);
    let ghost wr = wrap_pieces(line_pieces(*app, i as int), width as nat).0;
    let b = if i == app.cursor {
        Colour::DarkGray
    } else {
        Colour::Reset
    };
    let mut out: Vec<Vec<Part>> = Vec::new();
    let n = wrapped_rows.len();
    let mut k: usize = 0;
    while k < n
        invariant
            app.wf(),
            i < app.lines@.len(),
            k <= n,
            n == wrapped_rows@.len(),
            rows_of_pieces(wrapped_rows@) == wr,
            b == line_bg(*app, i as int),
            lines_view(out@) == Seq::new(
                k as nat,
                |q: int| gutter(*app, i as int, q) + piece_parts(wr[q], line_bg(*app, i as int)),
            ),
        decreases n - k,
    {
        let g = gutter_parts(app, i, k);
        assert(wr[k as int] == pieces_view(wrapped_rows@[k as int]@));
        let l = row_parts(g, &wrapped_rows[k], b);
        push_line(&mut out, l);
        k += 1;
        assert(lines_view(out@) =~= Seq::new(
            k as nat,
            |q: int| gutter(*app, i as int, q) + piece_parts(wr[q], line_bg(*app, i as int)),
        ));
    }
    assert(lines_view(out@) =~= source_line_rows(*app, i as int, width as nat));
    out
}

fn comment_box(text: &String, area_width: u16) -> (r: Vec<Vec<Part>>)
    ensures
        lines_view(r@) == comment_box_lines(text@, area_width),
{
    let w = comment_text_width(area_width);
    let dim = fg_look(Colour::DarkGray);
    let mut out: Vec<Vec<Part>> = Vec::new();
    let mut top: Vec<char> = Vec::new();
    push_spaces(&mut top, 9);
    push_str(&mut top, "┌");
    let border = comment_top_border(w + 2);
    push_str(&mut top, border.as_str());
    push_str(&mut top, "┐");
    assert(top@ =~= spaces(9) + "┌"@ + top_border((w + 2) as nat) + "┐"@);
    let mut l: Vec<Part> = Vec::new();
    push_part(&mut l, part_of(&top, dim));
    assert(line_view(l@) =~= seq![(spaces(9) + "┌"@ + top_border((w + 2) as nat) + "┐"@, fg(Colour::DarkGray))]);
    push_line(&mut out, l);
    let body = wrap_text(text.as_str(), w);
    let ghost bv = wrapped(text@, w as nat);
    let ghost first = lines_view(out@);
    let n = body.len();
    let mut k: usize = 0;
    while k < n
        invariant
            k <= n,
            n == body@.len(),
            views(body@) == bv,
            w == comment_width(area_width),
            dim == fg(Colour::DarkGray),
            lines_view(out@) == first + Seq::new(
                k as nat,
                |q: int|
                    seq![
                        (spaces(9) + "│ "@, fg(Colour::DarkGray)),
                        (pad_right(bv[q], w as nat), fg(Colour::Yellow)),
                        (" │"@, fg(Colour::DarkGray)),
                    ],
            ),
        decreases n - k,
    {
        let mut left: Vec<char> = Vec::new();
        push_spaces(&mut left, 9);
        push_str(&mut left, "│ ");
        let mut mid = crate::text::chars_of(body[k].as_str());
        assert(bv[k as int] == body@[k as int]@);
        let len = mid.len();
        if len < w {
            push_spaces(&mut mid, w - len);
        }
        assert(mid@ =~= pad_right(bv[k as int], w as nat));
        let mut l: Vec<Part> = Vec::new();
        push_part(&mut l, part_of(&left, dim));
        push_part(&mut l, part_of(&mid, fg_look(Colour::Yellow)));
        push_part(&mut l, part_str(" │", dim));
        assert(left@ =~= spaces(9) + "│ "@);
        assert(line_view(l@) =~= seq![
            (spaces(9) + "│ "@, fg(Colour::DarkGray)),
            (pad_right(bv[k as int], w as nat), fg(Colour::Yellow)),
            (" │"@, fg(Colour::DarkGray)),
        ]);
        push_line(&mut out, l);
        k += 1;
        assert(lines_view(out@) =~= first + Seq::new(
            k as nat,
            |q: int|
                seq![
                    (spaces(9) + "│ "@, fg(Colour::DarkGray)),
                    (pad_right(bv[q], w as nat), fg(Colour::Yellow)),
                    (" │"@, fg(Colour::DarkGray)),
                ],
        ));
    }
    let mut bottom: Vec<char> = Vec::new();
    push_spaces(&mut bottom, 9);
    push_str(&mut bottom, "└");
    push_rule(&mut bottom, w + 2);
    push_str(&mut bottom, "┘");
    assert(bottom@ =~= spaces(9) + "└"@ + rule((w + 2) as nat) + "┘"@);
    let mut l: Vec<Part> = Vec::new();
    push_part(&mut l, part_of(&bottom, dim));
    assert(line_view(l@) =~= seq![(spaces(9) + "└"@ + rule((w + 2) as nat) + "┘"@, fg(Colour::DarkGray))]);
    push_line(&mut out, l);
    assert(lines_view(out@) =~= comment_box_lines(text@, area_width));
    out
}

/// The lines of the source view (see `source_view`).
pub fn source_lines(app: &App, area_width: u16, area_height: u16) -> (r: Vec<Vec<Part>>)
    requires
        app.wf(),
    ensures
        lines_view(r@) == source_view(*app, area_width, area_height),
{
    let width = text_columns_of(area_width);
    let height = inner_rows_of(area_height);
    let mut out: Vec<Vec<Part>> = Vec::new();
    let mut rows: usize = 0;
    let mut i = app.scroll;
    let n = app.lines.len();
    assert(lines_view(out@) + source_from(*app, i as int, rows as nat, width as nat, area_width, height as nat)
        =~= source_view(*app, area_width, area_height));
    while i < n && rows < height
        invariant
            app.wf(),
            n == app.lines@.len(),
            width == text_columns(area_width),
            width >= 1,
            height == inner_rows(area_height),
            rows <= height,
            lines_view(out@) + source_from(*app, i as int, rows as nat, width as nat, area_width, height as nat)
                == source_view(*app, area_width, area_height),
        decreases n - i,
    {
        let ghost before = lines_view(out@);
        let fl = line_rows(app, i, width);
        let ghost flv = lines_view(fl@);
        let m = fl.len();
        let mut k: usize = 0;
        while k < m
            invariant
                k <= m,
                m == fl@.len(),
                flv == lines_view(fl@),
                lines_view(out@) == before + flv.take(k as int),
            decreases m - k,
        {
            let mut l: Vec<Part> = Vec::new();
            let row = &fl[k];
            let c = row.len();
            let mut q: usize = 0;
            while q < c
                invariant
                    q <= c,
                    c == row@.len(),
                    line_view(l@) == line_view(row@).take(q as int),
                decreases c - q,
            {
                let p = Part { text: row[q].text.clone(), look: row[q].look };
                push_part(&mut l, p);
                q += 1;
                assert(line_view(l@) =~= line_view(row@).take(q as int));
            }
            assert(line_view(row@).take(c as int) =~= line_view(row@));
            assert(flv[k as int] == line_view(row@));
            push_line(&mut out, l);
            k += 1;
            assert(lines_view(out@) =~= before + flv.take(k as int));
        }
        assert(flv.take(m as int) =~= flv);
        let r1: usize = if m >= height - rows {
            height
        } else {
            rows + m
        };
        let ghost bx = if app.comments@.contains_key(i) {
            comment_box_lines(app.comments@[i]@, area_width)
        } else {
            seq![]
        };
        let ghost mid = lines_view(out@);
        let mut kept: usize = 0;
        match app.comments.get(&i) {
            Some(c) => {
                let bl = comment_box(c, area_width);
                let ghost blv = lines_view(bl@);
                assert(blv == bx);
                let total = bl.len();
                let limit = if total <= height - r1 {
                    total
                } else {
                    height - r1
                };
                while kept < limit
                    invariant
                        kept <= limit,
                        limit <= total,
                        total == bl@.len(),
                        blv == lines_view(bl@),
                        lines_view(out@) == mid + blv.take(kept as int),
                    decreases limit - kept,
                {
                    let row = &bl[kept];
                    let mut l: Vec<Part> = Vec::new();
                    let c2 = row.len();
                    let mut q: usize = 0;
                    while q < c2
                        invariant
                            q <= c2,
                            c2 == row@.len(),
                            line_view(l@) == line_view(row@).take(q as int),
                        decreases c2 - q,
                    {
                        let p = Part { text: row[q].text.clone(), look: row[q].look };
                        push_part(&mut l, p);
                        q += 1;
                        assert(line_view(l@) =~= line_view(row@).take(q as int));
                    }
                    assert(line_view(row@).take(c2 as int) =~= line_view(row@));
                    assert(blv[kept as int] == line_view(row@));
                    push_line(&mut out, l);
                    kept += 1;
                    assert(lines_view(out@) =~= mid + blv.take(kept as int));
                }
            },
            None => {
                assert(bx =~= Seq::<Seq<PartV>>::empty());
            },
        }
        assert(lines_view(out@) =~= before + flv + bx.take(kept as int));
        assert(source_from(*app, i as int, rows as nat, width as nat, area_width, height as nat) =~= flv
            + bx.take(kept as int) + source_from(*app, i + 1, (r1 + kept) as nat, width as nat, area_width, height as nat));
        rows = r1 + kept;
        i += 1;
    }
    assert(source_from(*app, i as int, rows as nat, width as nat, area_width, height as nat) =~= Seq::<
        Seq<PartV>,
    >::empty());
    out
}

} // verus!
