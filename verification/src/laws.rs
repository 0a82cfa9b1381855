//! Properties that hold across operations of the viewer.
use vstd::prelude::*;
use crate::keys::{Effect, Key};
use crate::editor::{line_at, Focus, Mode, ViewMode, first_at_least, first_index_of, increasing, matching_lines, App, CommentChange};
use crate::tree::{
    TreeEntry,
    children, entry_le, first_row_from, first_row_of, insert_sorted, listings_view, row_view, rows_view,
    sorted_entries, toggled, tree_of, tree_rows, DirListing, EntryV, FileTree, ListingV, RowV,
};
use crate::layout::{lemma_wrap_pieces, wrap_pieces, coloured, comment_box_rows, comment_width, display_rows, lemma_wrap_rows_count, lemma_wrapped_fits, source_text_width, wrapped};
use crate::screen::{gutter, inner_rows, line_bg, num4, piece_parts, source_from, source_view, spaces, tree_row_text, comment_box_lines, line_pieces, source_line_rows, text_columns};
use crate::diff::{contexts, deletes, idx0, inserts, op_rows, trim_newlines, ChangeKind, ChangeV, DiffRowKind};
use crate::prompt::{annotation_entries, annotation_entry, code_at, AnnotationV, SourceV};
use crate::text::{has_infix, lowercase, trim_start, trimmed, views};

verus! {

/// Going to the next match and then to the previous one comes back to the
/// match one started from.
pub proof fn law_next_then_prev(o: App, f1: App, f2: App)
    requires
        o.wf(),
        o.search_matches@.len() > 0,
        App::next_match_post(o, f1),
        App::prev_match_post(f1, f2),
    ensures
        f2.search_match_idx == o.search_match_idx,
        f2.cursor == o.search_matches@[o.search_match_idx as int],
        f2.search_matches == o.search_matches,
{
    let n = o.search_matches@.len() as int;
    let i = o.search_match_idx as int;
    let k = if i + 1 < n {
        i + 1
    } else {
        0
    };
    if i + 1 < n {
        assert((i + 1) % n == i + 1) by (nonlinear_arith)
            requires
                0 <= i + 1 < n,
        ;
    } else {
        assert((i + 1) % n == 0) by (nonlinear_arith)
            requires
                i + 1 == n,
                n > 0,
        ;
    }
    assert(n <= usize::MAX) by {
        assert(o.search_matches.len() == n);
    }
    assert(((i + 1) % n) as usize == k);
    let moved = App { search_match_idx: k as usize, cursor: o.search_matches@[k], ..o };
    assert(f1 == (App { scroll: f1.scroll, ..moved }));
    assert(f1.search_matches == o.search_matches);
    assert(f1.search_match_idx as int == k);
    assert(f2.search_matches == o.search_matches);
}

/// Going to the previous match and then to the next one comes back to the
/// match one started from.
pub proof fn law_prev_then_next(o: App, f1: App, f2: App)
    requires
        o.wf(),
        o.search_matches@.len() > 0,
        App::prev_match_post(o, f1),
        App::next_match_post(f1, f2),
    ensures
        f2.search_match_idx == o.search_match_idx,
        f2.cursor == o.search_matches@[o.search_match_idx as int],
        f2.search_matches == o.search_matches,
{
    let n = o.search_matches@.len() as int;
    let i = o.search_match_idx as int;
    let k = if i == 0 {
        n - 1
    } else {
        i - 1
    };
    if k + 1 < n {
        assert((k + 1) % n == k + 1) by (nonlinear_arith)
            requires
                0 <= k + 1 < n,
        ;
    } else {
        assert((k + 1) % n == 0) by (nonlinear_arith)
            requires
                k + 1 == n,
                n > 0,
        ;
    }
    assert(n <= usize::MAX) by {
        assert(o.search_matches.len() == n);
    }
    let moved = App { search_match_idx: k as usize, cursor: o.search_matches@[k], ..o };
    assert(f1 == (App { scroll: f1.scroll, ..moved }));
    assert(f1.search_match_idx as int == k);
    assert(f1.search_matches == o.search_matches);
    assert(f2.search_matches == o.search_matches);
}

/// Moving down and then up comes back to the starting row, when there was
/// a row below it.
pub proof fn law_down_then_up(o: App, f1: App, f2: App)
    requires
        o.wf(),
        o.cursor + 1 < o.view_len_spec(),
        App::move_down_post(o, f1),
        App::move_up_post(f1, f2),
    ensures
        f2.cursor == o.cursor,
{
}

/// Moving the cursor keeps it on a row of the view when it was on one.
pub proof fn law_moves_stay_in_view(o: App, f: App)
    requires
        o.wf(),
        o.cursor < o.view_len_spec(),
        App::move_down_post(o, f) || App::move_up_post(o, f) || App::move_bottom_post(o, f),
    ensures
        f.cursor < f.view_len_spec(),
{
}

/// In the compiled view every row takes one terminal row.
proof fn lemma_rows_between_compiled(o: App, s: int, e: int)
    requires
        o.view_mode == crate::editor::ViewMode::LatexCompiled,
        s <= e,
    ensures
        o.rows_between(s, e) == e - s,
    decreases e - s,
{
    if s < e {
        lemma_rows_between_compiled(o, s, e - 1);
    }
}

/// Once scrolled, the cursor is shown: the view starts at or above it; when
/// its row fits in the view, the rows from the top of the view down to it
/// fit; when it does not, the view starts at the cursor; in the compiled
/// view it lies among the rows shown.
pub proof fn law_scroll_shows_cursor(o: App, s: int)
    requires
        o.wf(),
        o.view_height > 0,
        o.scrolled_to_cursor(s),
    ensures
        s <= o.cursor,
        o.row_height(o.cursor as int) <= o.view_height ==> o.fits_from(s),
        o.view_mode != crate::editor::ViewMode::LatexCompiled && !o.fits_from(o.cursor as int) ==> s
            == o.cursor,
        o.view_mode == crate::editor::ViewMode::LatexCompiled ==> s <= o.cursor < s + o.view_height,
{
    assert(o.rows_between(o.cursor as int, o.cursor + 1) == o.rows_between(
        o.cursor as int,
        o.cursor as int,
    ) + o.row_height(o.cursor as int));
    if o.view_mode == crate::editor::ViewMode::LatexCompiled {
        if s <= o.cursor {
            lemma_rows_between_compiled(o, s, o.cursor + 1);
        }
    } else if o.cursor >= o.scroll {
        if !o.fits_from(o.cursor as int) && s < o.cursor {
            assert(o.fits_from(s));
            o.lemma_rows_between_split(s, o.cursor as int, o.cursor + 1);
        }
    }
}

/// A comment box is as high as the rows drawn for it: the wrapped comment
/// and two borders, so at least three rows (when that count fits a `usize`;
/// the height saturates beyond).
pub proof fn law_comment_box_height(text: Seq<char>, area_width: u16)
    requires
        wrapped(text, comment_width(area_width)).len() + 2 <= usize::MAX,
    ensures
        comment_box_rows(text, area_width) == comment_box_lines(text, area_width).len(),
        comment_box_rows(text, area_width) == wrapped(text, comment_width(area_width)).len() + 2,
        comment_box_rows(text, area_width) >= 3,
{
    lemma_wrapped_fits(text, comment_width(area_width));
}

/// In the source view, a line takes as many terminal rows when drawn as
/// scrolling counts for it: its wrapped rows (one for an empty line, else
/// its length over the text width, rounded up) and its comment box. This
/// holds when its highlighted pieces hold its text, and when the comment box
/// height fits a `usize`.
pub proof fn law_drawn_rows_match_count(app: App, i: int)
    requires
        0 <= i < app.lines@.len(),
        app.view_mode == ViewMode::Source,
        coloured(line_pieces(app, i)).map_values(|x: ((u8, u8, u8), char)| x.1) == app.lines@[i]@,
        app.comments@.contains_key(i as usize) ==> wrapped(
            app.comments@[i as usize]@,
            comment_width(app.view_width),
        ).len() + 2 <= usize::MAX,
    ensures
        source_line_rows(app, i, text_columns(app.view_width)).len() == display_rows(
            app.lines@[i]@.len(),
            app.view_width,
        ),
        source_line_rows(app, i, text_columns(app.view_width)).len() + (if app.comments@.contains_key(
            i as usize,
        ) {
            comment_box_lines(app.comments@[i as usize]@, app.view_width).len()
        } else {
            0
        }) == app.row_height(i),
{
    let w = text_columns(app.view_width);
    assert(w == source_text_width(app.view_width));
    lemma_wrap_rows_count(line_pieces(app, i), w);
    assert(coloured(line_pieces(app, i)).len() == app.lines@[i]@.len());
    assert(line_at(app.lines@, i) == app.lines@[i]@);
    assert(app.lines.len() == app.lines@.len());
    assert((i as usize) as int == i);
    if app.comments@.contains_key(i as usize) {
        law_comment_box_height(app.comments@[i as usize]@, app.view_width);
    }
}

/// The comment change handed to the comment store matches the comments
/// shown: a saved text is the comment now on that line, a deletion leaves
/// the line without comment.
pub proof fn law_recorded_is_shown(o: App, f: App, r: CommentChange)
    requires
        o.wf(),
        App::confirm_comment_post(o, f, r),
    ensures
        match r {
            CommentChange::Save { line, text } => f.comments@.contains_key(line) && f.comments@[line]@
                == text@,
            CommentChange::Delete { line } => !f.comments@.contains_key(line),
        },
{
    let t = trimmed(o.input@);
    if t.len() != 0 {
        assert(f.comments@.dom().contains(o.editing_line));
    }
}

/// Opening the comment editor and confirming without typing leaves the
/// comments as they were, when the comment under the cursor, if any, is
/// already trimmed and not empty (as every comment that the editor stores
/// is).
pub proof fn law_edit_without_change(o: App, f1: App, f2: App, r: CommentChange)
    requires
        o.wf(),
        o.source_line_spec() is Some,
        o.comments@.contains_key(o.source_line_spec()->0) ==> {
            let c = o.comments@[o.source_line_spec()->0]@;
            trimmed(c) == c && c.len() > 0
        },
        App::start_comment_post(o, f1),
        App::confirm_comment_post(f1, f2, r),
    ensures
        f2.comment_texts() == o.comment_texts(),
        f2.mode == crate::editor::Mode::Normal,
{
    let l = o.source_line_spec()->0;
    assert(f1.comments == o.comments);
    assert(f1.editing_line == l);
    if o.comments@.contains_key(l) {
        assert(f2.comments@.dom() =~= o.comments@.dom());
        assert(f2.comment_texts() =~= o.comment_texts());
    } else {
        assert(f1.input@ =~= Seq::<char>::empty());
        assert(trim_start(f1.input@) =~= Seq::<char>::empty());
        assert(trimmed(f1.input@) =~= Seq::<char>::empty());
        assert(f2.comments@ =~= o.comments@);
    }
}

/// The lines that `matching_lines` lists are in increasing order, below
/// `n`, each holding `q`, and every such line below `n` is listed.
proof fn lemma_matching_lines(lines: Seq<Seq<char>>, q: Seq<char>, n: int)
    requires
        0 <= n <= lines.len(),
        lines.len() <= usize::MAX,
    ensures
        increasing(matching_lines(lines, q, n)),
        forall|k: int|
            0 <= k < matching_lines(lines, q, n).len() ==> {
                let i = #[trigger] matching_lines(lines, q, n)[k];
                &&& i < n
                &&& has_infix(lowercase(lines[i as int]), q)
            },
        forall|i: int|
            0 <= i < n && has_infix(lowercase(lines[i]), q) ==> matching_lines(lines, q, n).contains(
                i as usize,
            ),
    decreases n,
{
    if n > 0 {
        lemma_matching_lines(lines, q, n - 1);
        let prev = matching_lines(lines, q, n - 1);
        if has_infix(lowercase(lines[n - 1]), q) {
            let cur = prev.push((n - 1) as usize);
            assert forall|i: int|
                0 <= i < n && has_infix(lowercase(lines[i]), q) implies cur.contains(i as usize) by {
                if i < n - 1 {
                    let k = choose|k: int| 0 <= k < prev.len() && prev[k] == i as usize;
                    assert(cur[k] == i as usize);
                } else {
                    assert(cur[prev.len() as int] == i as usize);
                }
            }
        }
    }
}

/// What `first_at_least` finds.
proof fn lemma_first_at_least(s: Seq<usize>, c: usize, j: int)
    requires
        0 <= j,
    ensures
        match first_at_least(s, c, j) {
            Some(k) => j <= k < s.len() && s[k] >= c && forall|m: int| j <= m < k ==> s[m] < c,
            None => forall|m: int| j <= m < s.len() ==> s[m] < c,
        },
    decreases s.len() - j,
{
    if j < s.len() && s[j] < c {
        lemma_first_at_least(s, c, j + 1);
    }
}

/// What `first_index_of` finds.
proof fn lemma_first_index_of(s: Seq<usize>, v: usize, j: int)
    requires
        0 <= j,
    ensures
        match first_index_of(s, v, j) {
            Some(k) => j <= k < s.len() && s[k] == v,
            None => forall|m: int| j <= m < s.len() ==> s[m] != v,
        },
    decreases s.len() - j,
{
    if j < s.len() && s[j] != v {
        lemma_first_index_of(s, v, j + 1);
    }
}

/// A search that finds matches puts the cursor on a line holding the query
/// (case ignored), which becomes the current match: the first match at or
/// below the cursor, or the first match when there is none below.
pub proof fn law_search_lands_on_match(o: App, f: App)
    requires
        o.wf(),
        App::confirm_search_post(o, f),
        f.search_matches@.len() > 0,
    ensures
        f.search_match_idx < f.search_matches@.len(),
        f.search_matches@[f.search_match_idx as int] == f.cursor,
        f.cursor < f.lines@.len(),
        has_infix(lowercase(f.lines@[f.cursor as int]@), lowercase(f.search_query@)),
        forall|k: int|
            0 <= k < f.search_matches@.len() && #[trigger] f.search_matches@[k] >= o.cursor
                ==> o.cursor <= f.cursor <= f.search_matches@[k],
        (forall|k: int| 0 <= k < f.search_matches@.len() ==> #[trigger] f.search_matches@[k] < o.cursor)
            ==> f.cursor == f.search_matches@[0],
{
    let q = trimmed(o.search_input@);
    let ls = views(o.lines@);
    let ms = matching_lines(ls, lowercase(q), o.lines@.len() as int);
    assert(o.lines@.len() <= usize::MAX) by {
        assert(o.lines.len() == o.lines@.len());
    }
    lemma_matching_lines(ls, lowercase(q), o.lines@.len() as int);
    lemma_first_at_least(ms, o.cursor, 0);
    let target = match first_at_least(ms, o.cursor, 0) {
        Some(j) => ms[j],
        None => ms[0],
    };
    lemma_first_index_of(ms, target, 0);
    let j0 = match first_at_least(ms, o.cursor, 0) {
        Some(j) => j,
        None => 0,
    };
    assert(ms[j0] == target);
    let base = App {
        search_query: f.search_query,
        mode: crate::editor::Mode::Normal,
        search_matches: f.search_matches,
        ..o
    };
    let k = match first_index_of(ms, target, 0) {
        Some(j) => j as usize,
        None => 0usize,
    };
    assert(first_index_of(ms, target, 0) is Some);
    assert(ms.len() <= usize::MAX) by {
        assert(f.search_matches.len() == ms.len());
    }
    let moved = App { search_match_idx: k, cursor: target, ..base };
    assert(f == (App { scroll: f.scroll, ..moved }));
    assert(f.lines == o.lines);
    assert(ls[target as int] == f.lines@[target as int]@);
    assert forall|m: int|
        0 <= m < f.search_matches@.len() && #[trigger] f.search_matches@[m] >= o.cursor
            implies o.cursor <= f.cursor <= f.search_matches@[m] by {
        if m < j0 {
            assert(ms[m] < o.cursor);
        } else if m > j0 {
            assert(ms[j0] < ms[m]);
        }
    }
}

/// Within a directory, the tree lists directories before files, and
/// entries of the same kind by name: every entry may stand before every
/// later one, and no entry is lost or added.
pub proof fn law_sorted_order(es: Seq<EntryV>)
    ensures
        forall|i: int, j: int|
            0 <= i < j < sorted_entries(es).len() ==> entry_le(
                #[trigger] sorted_entries(es)[i],
                #[trigger] sorted_entries(es)[j],
            ),
        sorted_entries(es).len() == es.len(),
        sorted_entries(es).to_multiset() == es.to_multiset(),
{
    lemma_sorted_adjacent(es);
    lemma_adjacent_to_all(sorted_entries(es));
}

/// Each entry of `sorted_entries(es)` may stand before the next one, and
/// the entries are those of `es`.
proof fn lemma_sorted_adjacent(es: Seq<EntryV>)
    ensures
        forall|i: int|
            0 <= i < sorted_entries(es).len() - 1 ==> entry_le(
                #[trigger] sorted_entries(es)[i],
                sorted_entries(es)[i + 1],
            ),
        sorted_entries(es).len() == es.len(),
        sorted_entries(es).to_multiset() == es.to_multiset(),
    decreases es.len(),
{
    if es.len() > 0 {
        lemma_sorted_adjacent(es.drop_last());
        lemma_insert_sorted(sorted_entries(es.drop_last()), es.last());
        vstd::seq_lib::to_multiset_build(es.drop_last(), es.last());
        assert(es.drop_last().push(es.last()) =~= es);
        assert(es.to_multiset() == es.drop_last().to_multiset().insert(es.last()));
        assert(sorted_entries(es) == insert_sorted(sorted_entries(es.drop_last()), es.last()));
    } else {
        assert(sorted_entries(es) =~= es);
    }
}

/// A sequence ordered pair by pair is ordered throughout.
proof fn lemma_adjacent_to_all(s: Seq<EntryV>)
    requires
        forall|i: int| 0 <= i < s.len() - 1 ==> entry_le(#[trigger] s[i], s[i + 1]),
    ensures
        forall|i: int, j: int| 0 <= i < j < s.len() ==> entry_le(#[trigger] s[i], #[trigger] s[j]),
{
    assert forall|i: int, j: int| 0 <= i < j < s.len() implies entry_le(#[trigger] s[i], #[trigger] s[j]) by {
        lemma_adjacent_range(s, i, j);
    }
}

proof fn lemma_adjacent_range(s: Seq<EntryV>, i: int, j: int)
    requires
        forall|k: int| 0 <= k < s.len() - 1 ==> entry_le(#[trigger] s[k], s[k + 1]),
        0 <= i < j < s.len(),
    ensures
        entry_le(s[i], s[j]),
    decreases j - i,
{
    if j > i + 1 {
        lemma_adjacent_range(s, i, j - 1);
        assert(entry_le(s[j - 1], s[j]));
        lemma_entry_le_trans(s[i], s[j - 1], s[j]);
    }
}

/// `a` is at most `c` when `a` is at most `b` and `b` at most `c`.
proof fn lemma_entry_le_trans(a: EntryV, b: EntryV, c: EntryV)
    requires
        entry_le(a, b),
        entry_le(b, c),
    ensures
        entry_le(a, c),
{
    if a.2 == b.2 && b.2 == c.2 {
        lemma_name_lt_total(b.1, a.1);
        lemma_name_lt_total(c.1, b.1);
        lemma_name_le_trans(a.1, b.1, c.1);
    }
}

/// For names `a` and `b`, `a < b`, `b < a` or `a == b`.
proof fn lemma_name_lt_total(a: Seq<char>, b: Seq<char>)
    ensures
        crate::tree::name_lt(a, b) || crate::tree::name_lt(b, a) || a == b,
        !(crate::tree::name_lt(a, b) && crate::tree::name_lt(b, a)),
    decreases a.len(),
{
    if a.len() > 0 && b.len() > 0 && a[0] == b[0] {
        lemma_name_lt_total(a.drop_first(), b.drop_first());
        if a.drop_first() == b.drop_first() {
            assert(a =~= seq![a[0]] + a.drop_first());
            assert(b =~= seq![b[0]] + b.drop_first());
        }
    } else if a.len() == 0 && b.len() == 0 {
        assert(a =~= b);
    } else if a.len() > 0 && b.len() > 0 {

    }
}

/// Not `b < a` and not `c < b` gives not `c < a`.
proof fn lemma_name_le_trans(a: Seq<char>, b: Seq<char>, c: Seq<char>)
    requires
        !crate::tree::name_lt(b, a),
        !crate::tree::name_lt(c, b),
    ensures
        !crate::tree::name_lt(c, a),
    decreases a.len(),
{
    lemma_name_lt_total(a, b);
    lemma_name_lt_total(b, c);
    lemma_name_lt_total(a, c);
    if a.len() > 0 && b.len() > 0 && c.len() > 0 {
        if a[0] == b[0] && b[0] == c[0] {
            lemma_name_le_trans(a.drop_first(), b.drop_first(), c.drop_first());
        }
    }
}

proof fn lemma_insert_sorted(s: Seq<EntryV>, e: EntryV)
    requires
        forall|i: int| 0 <= i < s.len() - 1 ==> entry_le(#[trigger] s[i], s[i + 1]),
    ensures
        forall|i: int|
            0 <= i < insert_sorted(s, e).len() - 1 ==> entry_le(
                #[trigger] insert_sorted(s, e)[i],
                insert_sorted(s, e)[i + 1],
            ),
        insert_sorted(s, e).len() == s.len() + 1,
        insert_sorted(s, e).to_multiset() == s.to_multiset().insert(e),
        s.len() > 0 ==> (insert_sorted(s, e).last() == s.last() || insert_sorted(s, e).last() == e),
    decreases s.len(),
{
    if s.len() == 0 {
        vstd::seq_lib::to_multiset_build(s, e);
        assert(s.push(e) =~= seq![e]);
    } else if entry_le(s.last(), e) {
        vstd::seq_lib::to_multiset_build(s, e);
    } else {
        let t = s.drop_last();
        lemma_insert_sorted(t, e);
        let r = insert_sorted(t, e);
        lemma_entry_le_total(s.last(), e);
        assert forall|i: int| 0 <= i < r.push(s.last()).len() - 1 implies entry_le(
            #[trigger] r.push(s.last())[i],
            r.push(s.last())[i + 1],
        ) by {
            if i == r.len() - 1 {
                if t.len() > 0 && r.last() == t.last() {
                    assert(entry_le(s[s.len() - 2], s[s.len() - 1]));
                }
            } else {
                assert(r.push(s.last())[i] == r[i]);
                assert(r.push(s.last())[i + 1] == r[i + 1]);
            }
        }
        vstd::seq_lib::to_multiset_build(r, s.last());
        vstd::seq_lib::to_multiset_build(t, s.last());
        assert(s =~= t.push(s.last()));
        assert(r.push(s.last()).to_multiset() =~= s.to_multiset().insert(e));
    }
}

proof fn lemma_entry_le_total(a: EntryV, b: EntryV)
    ensures
        entry_le(a, b) || entry_le(b, a),
{
    lemma_name_lt_total(a.1, b.1);
}

/// What `first_row_from` finds.
proof fn lemma_first_row_facts(rows: Seq<RowV>, p: Seq<char>, j: int)
    requires
        0 <= j,
    ensures
        match first_row_from(rows, p, j) {
            Some(k) => j <= k < rows.len() && rows[k].0 == p && forall|m: int|
                j <= m < k ==> #[trigger] rows[m].0 != p,
            None => forall|m: int| j <= m < rows.len() ==> #[trigger] rows[m].0 != p,
        },
    decreases rows.len() - j,
{
    if j < rows.len() && rows[j].0 != p {
        lemma_first_row_facts(rows, p, j + 1);
    }
}

/// The first row of `p` at or after `j` is `k` when no row between holds `p`.
proof fn lemma_first_row_at(rows: Seq<RowV>, p: Seq<char>, j: int, k: int)
    requires
        0 <= j <= k < rows.len(),
        rows[k].0 == p,
        forall|m: int| j <= m < k ==> #[trigger] rows[m].0 != p,
    ensures
        first_row_from(rows, p, j) == Some(k),
    decreases k - j,
{
    if j < k {
        lemma_first_row_at(rows, p, j + 1, k);
    }
}

/// Expanded sets that differ at most in `p` give the same rows when no row
/// is `p`.
proof fn lemma_toggle_rows_none(
    ls: Seq<ListingV>,
    s1: Set<Seq<char>>,
    s2: Set<Seq<char>>,
    p: Seq<char>,
    es: Seq<EntryV>,
    depth: nat,
    fuel: nat,
)
    requires
        forall|q: Seq<char>| q != p ==> s1.contains(q) == s2.contains(q),
        forall|m: int|
            0 <= m < tree_rows(ls, s1, es, depth, fuel).len() ==> (#[trigger] tree_rows(
                ls,
                s1,
                es,
                depth,
                fuel,
            )[m]).0 != p,
    ensures
        tree_rows(ls, s2, es, depth, fuel) == tree_rows(ls, s1, es, depth, fuel),
    decreases fuel, es.len(),
{
    if es.len() > 0 {
        let e = es.last();
        let r1 = tree_rows(ls, s1, es, depth, fuel);
        let prev1 = tree_rows(ls, s1, es.drop_last(), depth, fuel);
        assert forall|m: int| 0 <= m < prev1.len() implies (#[trigger] prev1[m]).0 != p by {
            assert(r1[m] == prev1[m]);
        }
        lemma_toggle_rows_none(ls, s1, s2, p, es.drop_last(), depth, fuel);
        assert(r1[prev1.len() as int].0 == e.0);
        if e.2 && s1.contains(e.0) && fuel > 0 {
            let sub = sorted_entries(children(ls, e.0));
            let sub1 = tree_rows(ls, s1, sub, depth + 1, (fuel - 1) as nat);
            assert forall|m: int| 0 <= m < sub1.len() implies (#[trigger] sub1[m]).0 != p by {
                assert(r1[prev1.len() + 1 + m] == sub1[m]);
            }
            lemma_toggle_rows_none(ls, s1, s2, p, sub, depth + 1, (fuel - 1) as nat);
        }
    }
}

/// Expanded sets that differ at most in `p` give the same rows up to the
/// first row of `p`, which differs only in whether it is expanded.
proof fn lemma_toggle_rows_first(
    ls: Seq<ListingV>,
    s1: Set<Seq<char>>,
    s2: Set<Seq<char>>,
    p: Seq<char>,
    es: Seq<EntryV>,
    depth: nat,
    fuel: nat,
    k: int,
)
    requires
        forall|q: Seq<char>| q != p ==> s1.contains(q) == s2.contains(q),
        0 <= k < tree_rows(ls, s1, es, depth, fuel).len(),
        tree_rows(ls, s1, es, depth, fuel)[k].0 == p,
        forall|m: int| 0 <= m < k ==> (#[trigger] tree_rows(ls, s1, es, depth, fuel)[m]).0 != p,
    ensures
        ({
            let r1 = tree_rows(ls, s1, es, depth, fuel);
            let r2 = tree_rows(ls, s2, es, depth, fuel);
            &&& k < r2.len()
            &&& forall|m: int| 0 <= m < k ==> #[trigger] r2[m] == r1[m]
            &&& r2[k] == (p, r1[k].1, r1[k].2, s2.contains(p))
            &&& r1[k].3 == s1.contains(p)
        }),
    decreases fuel, es.len(),
{
    let e = es.last();
    let r1 = tree_rows(ls, s1, es, depth, fuel);
    let r2 = tree_rows(ls, s2, es, depth, fuel);
    let prev1 = tree_rows(ls, s1, es.drop_last(), depth, fuel);
    let prev2 = tree_rows(ls, s2, es.drop_last(), depth, fuel);
    assert forall|m: int| 0 <= m < prev1.len() implies #[trigger] r1[m] == prev1[m] by {}
    if k < prev1.len() {
        assert forall|m: int| 0 <= m < k implies (#[trigger] prev1[m]).0 != p by {
            assert(r1[m] == prev1[m]);
        }
        assert(prev1[k] == r1[k]);
        lemma_toggle_rows_first(ls, s1, s2, p, es.drop_last(), depth, fuel, k);
        assert forall|m: int| 0 <= m <= k implies #[trigger] r2[m] == prev2[m] by {}
    } else {
        assert forall|m: int| 0 <= m < prev1.len() implies (#[trigger] prev1[m]).0 != p by {
            assert(r1[m] == prev1[m]);
        }
        lemma_toggle_rows_none(ls, s1, s2, p, es.drop_last(), depth, fuel);
        assert forall|m: int| 0 <= m < prev1.len() implies #[trigger] r2[m] == prev2[m] by {}
        assert(r1[prev1.len() as int] == (e.0, depth as usize, e.2, s1.contains(e.0)));
        assert(r2[prev1.len() as int] == (e.0, depth as usize, e.2, s2.contains(e.0)));
        if k > prev1.len() {
            assert(e.0 != p);
            let sub = sorted_entries(children(ls, e.0));
            let sub1 = tree_rows(ls, s1, sub, depth + 1, (fuel - 1) as nat);
            let sub2 = tree_rows(ls, s2, sub, depth + 1, (fuel - 1) as nat);
            let j = k - prev1.len() - 1;
            assert(e.2 && s1.contains(e.0) && fuel > 0);
            assert forall|m: int| 0 <= m < sub1.len() implies #[trigger] r1[prev1.len() + 1 + m]
                == sub1[m] by {}
            assert forall|m: int| 0 <= m < j implies (#[trigger] sub1[m]).0 != p by {
                assert(r1[prev1.len() + 1 + m] == sub1[m]);
            }
            assert(sub1[j] == r1[k]);
            lemma_toggle_rows_first(ls, s1, s2, p, sub, depth + 1, (fuel - 1) as nat, j);
            assert forall|m: int| 0 <= m < sub2.len() implies #[trigger] r2[prev1.len() + 1 + m]
                == sub2[m] by {}
            assert forall|m: int| 0 <= m < k implies #[trigger] r2[m] == r1[m] by {
                if m > prev1.len() {
                    assert(r2[m] == sub2[m - prev1.len() - 1]);
                    assert(r1[m] == sub1[m - prev1.len() - 1]);
                }
            }
            assert(r2[k] == sub2[j]);
        }
    }
}

/// Toggling the selected directory twice with the same listings, on a tree
/// built from them where the selected row is the directory's first, gives
/// the tree back: after the first toggle the directory is still selected,
/// with its expanded mark flipped; after the second the rows, the selection,
/// the scroll and the expanded directories are those of the start.
pub proof fn law_toggle_twice(t0: FileTree, t1: FileTree, t2: FileTree, listings: Seq<DirListing>)
    requires
        rows_view(t0.entries@) == tree_of(listings_view(listings), t0.expanded_set(), t0.root@),
        t0.cursor < t0.entries@.len(),
        t0.entries@[t0.cursor as int].is_dir,
        first_row_of(rows_view(t0.entries@), t0.entries@[t0.cursor as int].path@) == Some(
            t0.cursor as int,
        ),
        FileTree::toggle_post(t0, t1, listings),
        FileTree::toggle_post(t1, t2, listings),
    ensures
        t1.cursor == t0.cursor,
        t1.scroll == t0.scroll,
        t1.cursor < t1.entries@.len(),
        t1.entries@[t1.cursor as int].path@ == t0.entries@[t0.cursor as int].path@,
        t1.entries@[t1.cursor as int].is_dir,
        t1.entries@[t1.cursor as int].is_expanded == !t0.entries@[t0.cursor as int].is_expanded,
        rows_view(t2.entries@) == rows_view(t0.entries@),
        t2.cursor == t0.cursor,
        t2.scroll == t0.scroll,
        t2.expanded_set() == t0.expanded_set(),
        t2.root == t0.root,
{
    let c = t0.cursor as int;
    let p = t0.entries@[c].path@;
    let ls = listings_view(listings);
    let s0 = t0.expanded_set();
    let s1 = toggled(s0, p);
    let r0 = rows_view(t0.entries@);
    let es = sorted_entries(children(ls, t0.root@));
    assert(r0[c] == row_view(t0.entries@[c]));
    lemma_first_row_facts(r0, p, 0);
    assert forall|q: Seq<char>| q != p implies s0.contains(q) == s1.contains(q) by {}
    lemma_toggle_rows_first(ls, s0, s1, p, es, 0, ls.len(), c);
    let r1 = rows_view(t1.entries@);
    assert(r1 == tree_rows(ls, s1, es, 0, ls.len()));
    assert forall|m: int| 0 <= m < c implies #[trigger] r1[m].0 != p by {
        assert(r1[m] == r0[m]);
    }
    lemma_first_row_at(r1, p, 0, c);
    assert(t1.cursor == t0.cursor);
    assert(r1[c] == row_view(t1.entries@[c]));
    assert(s1.contains(p) == !s0.contains(p));
    assert(toggled(s1, p) =~= s0);
    let r2 = rows_view(t2.entries@);
    assert(r2 == tree_of(ls, s0, t0.root@));
    lemma_first_row_at(r0, p, 0, c);
}

// ---------------------------------------------------------------------------
// Distinct rows
// ---------------------------------------------------------------------------
/// The path of the entry named `n` in directory `d`.
pub open spec fn child_path(d: Seq<char>, n: Seq<char>) -> Seq<char> {
    d + seq!['/'] + n
}

/// A file name: not empty and without `/`.
pub open spec fn is_segment(n: Seq<char>) -> bool {
    n.len() > 0 && !n.contains('/')
}

/// Each of `es` is named by a file name and lies directly in `d`, and no
/// two of them have the same path.
pub open spec fn entries_under(es: Seq<EntryV>, d: Seq<char>) -> bool {
    &&& forall|k: int| 0 <= k < es.len() ==> is_segment((#[trigger] es[k]).1) && es[k].0 == child_path(d, es[k].1)
    &&& forall|i: int, j: int| 0 <= i < j < es.len() ==> (#[trigger] es[i]).0 != (#[trigger] es[j]).0
}

/// Every listing holds the entries of its directory as a file system lists
/// them: each directly in the directory, under its own name, once.
pub open spec fn well_nested(ls: Seq<ListingV>) -> bool {
    forall|j: int| 0 <= j < ls.len() ==> entries_under((#[trigger] ls[j]).1, ls[j].0)
}

proof fn lemma_children_under(ls: Seq<ListingV>, d: Seq<char>)
    requires
        well_nested(ls),
    ensures
        entries_under(children(ls, d), d),
    decreases ls.len(),
{
    if ls.len() > 0 && ls[0].0 != d {
        assert forall|j: int| 0 <= j < ls.drop_first().len() implies entries_under(
            (#[trigger] ls.drop_first()[j]).1,
            ls.drop_first()[j].0,
        ) by {
            assert(ls.drop_first()[j] == ls[j + 1]);
        }
        lemma_children_under(ls.drop_first(), d);
    } else if ls.len() > 0 {
        assert(entries_under(ls[0].1, ls[0].0));
    }
}

/// Inserting keeps every entry and adds `e` at some place.
proof fn lemma_insert_shape(s: Seq<EntryV>, e: EntryV) -> (p: int)
    ensures
        0 <= p <= s.len(),
        insert_sorted(s, e) == s.take(p).push(e) + s.skip(p),
    decreases s.len(),
{
    if s.len() == 0 {
        assert(s.take(0).push(e) + s.skip(0) =~= seq![e]);
        0
    } else if entry_le(s.last(), e) {
        assert(s.take(s.len() as int).push(e) + s.skip(s.len() as int) =~= s.push(e));
        s.len() as int
    } else {
        let t = s.drop_last();
        let p = lemma_insert_shape(t, e);
        assert(s.take(p).push(e) + s.skip(p) =~= (t.take(p).push(e) + t.skip(p)).push(s.last()));
        p
    }
}

proof fn lemma_sorted_under(es: Seq<EntryV>, d: Seq<char>)
    requires
        entries_under(es, d),
    ensures
        entries_under(sorted_entries(es), d),
        forall|x: EntryV| sorted_entries(es).contains(x) ==> es.contains(x),
    decreases es.len(),
{
    if es.len() > 0 {
        let t = es.drop_last();
        let e = es.last();
        assert forall|k: int| 0 <= k < t.len() implies is_segment((#[trigger] t[k]).1) && t[k].0
            == child_path(d, t[k].1) by {
            assert(t[k] == es[k]);
        }
        assert forall|i: int, j: int| 0 <= i < j < t.len() implies (#[trigger] t[i]).0 != (
        #[trigger] t[j]).0 by {
            assert(t[i] == es[i] && t[j] == es[j]);
        }
        lemma_sorted_under(t, d);
        let st = sorted_entries(t);
        let p = lemma_insert_shape(st, e);
        let r = sorted_entries(es);
        assert(r == insert_sorted(st, e));
        assert(is_segment(e.1) && e.0 == child_path(d, e.1)) by {
            assert(es[es.len() - 1] == e);
        }
        assert forall|x: EntryV| st.contains(x) implies x.0 != e.0 by {
            assert(t.contains(x));
            let k = choose|k: int| 0 <= k < t.len() && t[k] == x;
            assert(es[k] == x);
            assert(es[es.len() - 1] == e);
        }
        assert forall|k: int| 0 <= k < r.len() implies r[k] == e || st.contains(r[k]) by {
            if k < p {
                assert(r[k] == st[k]);
            } else if k > p {
                assert(r[k] == st[k - 1]);
            }
        }
        assert forall|k: int| 0 <= k < r.len() implies is_segment((#[trigger] r[k]).1) && r[k].0
            == child_path(d, r[k].1) by {
            if r[k] != e {
                let m = choose|m: int| 0 <= m < st.len() && st[m] == r[k];
                assert(entries_under(st, d));
                assert(is_segment(st[m].1));
            }
        }
        assert forall|i: int, j: int| 0 <= i < j < r.len() implies (#[trigger] r[i]).0 != (
        #[trigger] r[j]).0 by {
            if i == p {
                assert(st.contains(r[j]));
            } else if j == p {
                assert(st.contains(r[i]));
            } else {
                let i2 = if i < p { i } else { i - 1 };
                let j2 = if j < p { j } else { j - 1 };
                assert(r[i] == st[i2]);
                assert(r[j] == st[j2]);
                assert(i2 < j2);
            }
        }
        assert forall|x: EntryV| r.contains(x) implies es.contains(x) by {
            let k = choose|k: int| 0 <= k < r.len() && r[k] == x;
            if x == e {
                assert(es[es.len() - 1] == e);
            } else {
                assert(st.contains(x));
                assert(t.contains(x));
                let m = choose|m: int| 0 <= m < t.len() && t[m] == x;
                assert(es[m] == x);
            }
        }
    }
}

/// `q` is the path of the entry `n` of `d`, or lies below it.
pub open spec fn under(q: Seq<char>, d: Seq<char>, n: Seq<char>) -> bool {
    let c = child_path(d, n);
    &&& q.len() >= c.len()
    &&& q.subrange(0, c.len() as int) == c
    &&& (q.len() == c.len() || q[c.len() as int] == '/')
}

/// `q` lies below one of the entries `es` of `d`.
pub open spec fn under_some(q: Seq<char>, d: Seq<char>, es: Seq<EntryV>) -> bool {
    exists|k: int| 0 <= k < es.len() && #[trigger] under(q, d, es[k].1)
}

/// A path lies below at most one entry name of a directory.
proof fn lemma_under_unique(q: Seq<char>, d: Seq<char>, n1: Seq<char>, n2: Seq<char>)
    requires
        is_segment(n1),
        is_segment(n2),
        under(q, d, n1),
        under(q, d, n2),
    ensures
        n1 == n2,
{
    let b = d.len() + 1;
    let c1 = child_path(d, n1);
    let c2 = child_path(d, n2);
    assert forall|k: int| 0 <= k < n1.len() && k < n2.len() implies n1[k] == n2[k] by {
        assert(c1[b + k] == n1[k]);
        assert(c2[b + k] == n2[k]);
        assert(q.subrange(0, c1.len() as int)[b + k] == q[b + k]);
        assert(q.subrange(0, c2.len() as int)[b + k] == q[b + k]);
    }
    if n1.len() < n2.len() {
        let k = n1.len() as int;
        assert(c2[b + k] == n2[k]);
        assert(q.subrange(0, c2.len() as int)[b + k] == q[b + k]);
        assert(q[c1.len() as int] == '/');
        assert(n2.contains('/'));
    } else if n2.len() < n1.len() {
        let k = n2.len() as int;
        assert(c1[b + k] == n1[k]);
        assert(q.subrange(0, c1.len() as int)[b + k] == q[b + k]);
        assert(q[c2.len() as int] == '/');
        assert(n1.contains('/'));
    } else {
        assert(n1 =~= n2);
    }
}

/// What lies below an entry of `child_path(d, n)` lies below `n` in `d`,
/// and is longer than `child_path(d, n)`.
proof fn lemma_under_nested(q: Seq<char>, d: Seq<char>, n: Seq<char>, m: Seq<char>)
    requires
        is_segment(m),
        under(q, child_path(d, n), m),
    ensures
        under(q, d, n),
        q.len() > child_path(d, n).len(),
{
    let c = child_path(d, n);
    let cm = child_path(c, m);
    assert(q.subrange(0, cm.len() as int)[c.len() as int] == q[c.len() as int]);
    assert(cm[c.len() as int] == '/');
    assert(q.subrange(0, c.len() as int) =~= c) by {
        assert forall|k: int| 0 <= k < c.len() implies q.subrange(0, c.len() as int)[k] == c[k] by {
            assert(q.subrange(0, cm.len() as int)[k] == q[k]);
            assert(cm[k] == c[k]);
        }
    }
}

/// The rows of the entries `es` of directory `d` have distinct paths, each
/// below one of `es`, when the listings are well nested.
proof fn lemma_rows_distinct(
    ls: Seq<ListingV>,
    s: Set<Seq<char>>,
    es: Seq<EntryV>,
    d: Seq<char>,
    depth: nat,
    fuel: nat,
)
    requires
        well_nested(ls),
        entries_under(es, d),
    ensures
        forall|i: int, j: int|
            0 <= i < j < tree_rows(ls, s, es, depth, fuel).len() ==> (#[trigger] tree_rows(
                ls,
                s,
                es,
                depth,
                fuel,
            )[i]).0 != (#[trigger] tree_rows(ls, s, es, depth, fuel)[j]).0,
        forall|i: int|
            0 <= i < tree_rows(ls, s, es, depth, fuel).len() ==> under_some(
                #[trigger] tree_rows(ls, s, es, depth, fuel)[i].0,
                d,
                es,
            ),
    decreases fuel, es.len(),
{
    if es.len() > 0 {
        let e = es.last();
        let t = es.drop_last();
        let last = es.len() - 1;
        assert(es[last] == e);
        assert forall|k: int| 0 <= k < t.len() implies is_segment((#[trigger] t[k]).1) && t[k].0
            == child_path(d, t[k].1) by {
            assert(t[k] == es[k]);
        }
        assert forall|i: int, j: int| 0 <= i < j < t.len() implies (#[trigger] t[i]).0 != (
        #[trigger] t[j]).0 by {
            assert(t[i] == es[i] && t[j] == es[j]);
        }
        lemma_rows_distinct(ls, s, t, d, depth, fuel);
        let r = tree_rows(ls, s, es, depth, fuel);
        let prev = tree_rows(ls, s, t, depth, fuel);
        let pl = prev.len() as int;
        assert forall|i: int| 0 <= i < pl implies #[trigger] r[i] == prev[i] by {}
        assert(r[pl].0 == e.0);
        assert(under(e.0, d, e.1)) by {
            assert(e.0.subrange(0, child_path(d, e.1).len() as int) =~= child_path(d, e.1));
        }
        // rows of `prev` lie below earlier entries, so differ from `e`'s rows
        assert forall|i: int, q: Seq<char>| 0 <= i < pl && #[trigger] under(q, d, e.1) implies (#[trigger] prev[i]).0
            != q by {
            let k = choose|k: int| 0 <= k < t.len() && #[trigger] under(prev[i].0, d, t[k].1);
            assert(under_some(prev[i].0, d, t));
            if prev[i].0 == q {
                lemma_under_unique(q, d, t[k].1, e.1);
                assert(t[k] == es[k]);
            }
        }
        if e.2 && s.contains(e.0) && fuel > 0 {
            let sub_es = sorted_entries(children(ls, e.0));
            lemma_children_under(ls, e.0);
            lemma_sorted_under(children(ls, e.0), e.0);
            lemma_rows_distinct(ls, s, sub_es, e.0, depth + 1, (fuel - 1) as nat);
            let sub = tree_rows(ls, s, sub_es, depth + 1, (fuel - 1) as nat);
            assert forall|m: int| 0 <= m < sub.len() implies #[trigger] r[pl + 1 + m] == sub[m] by {}
            assert forall|m: int| 0 <= m < sub.len() implies under((#[trigger] sub[m]).0, d, e.1) && sub[m].0.len()
                > e.0.len() by {
                let k = choose|k: int| 0 <= k < sub_es.len() && #[trigger] under(sub[m].0, e.0, sub_es[k].1);
                lemma_under_nested(sub[m].0, d, e.1, sub_es[k].1);
            }
            assert forall|i: int, j: int| 0 <= i < j < r.len() implies (#[trigger] r[i]).0 != (
            #[trigger] r[j]).0 by {
                if j < pl {
                } else if i < pl {
                    if j == pl {
                    } else {
                        assert(r[j] == sub[j - pl - 1]);
                    }
                } else if i == pl {
                    assert(r[j] == sub[j - pl - 1]);
                } else {
                    assert(r[i] == sub[i - pl - 1]);
                    assert(r[j] == sub[j - pl - 1]);
                }
            }
            assert forall|i: int| 0 <= i < r.len() implies under_some(#[trigger] r[i].0, d, es) by {
                if i < pl {
                    let k = choose|k: int| 0 <= k < t.len() && #[trigger] under(prev[i].0, d, t[k].1);
                    assert(t[k] == es[k]);
                    assert(r[i] == prev[i]);
                    assert(under(r[i].0, d, es[k].1));
                } else if i == pl {
                    assert(under(r[i].0, d, es[last].1));
                } else {
                    assert(r[i] == sub[i - pl - 1]);
                    assert(under(r[i].0, d, es[last].1));
                }
            }
        } else {
            assert forall|i: int, j: int| 0 <= i < j < r.len() implies (#[trigger] r[i]).0 != (
            #[trigger] r[j]).0 by {
                if j < pl {
                }
            }
            assert forall|i: int| 0 <= i < r.len() implies under_some(#[trigger] r[i].0, d, es) by {
                if i < pl {
                    let k = choose|k: int| 0 <= k < t.len() && #[trigger] under(prev[i].0, d, t[k].1);
                    assert(t[k] == es[k]);
                    assert(r[i] == prev[i]);
                    assert(under(r[i].0, d, es[k].1));
                } else {
                    assert(r[i].0 == e.0);
                    assert(under(r[i].0, d, es[last].1));
                }
            }
        }
    }
}

/// Well-nested listings give a tree whose rows all have distinct paths.
pub proof fn law_tree_paths_distinct(ls: Seq<ListingV>, expanded: Set<Seq<char>>, root: Seq<char>)
    requires
        well_nested(ls),
    ensures
        forall|i: int, j: int|
            0 <= i < j < tree_of(ls, expanded, root).len() ==> (#[trigger] tree_of(ls, expanded, root)[i]).0
                != (#[trigger] tree_of(ls, expanded, root)[j]).0,
{
    lemma_children_under(ls, root);
    lemma_sorted_under(children(ls, root), root);
    lemma_rows_distinct(ls, expanded, sorted_entries(children(ls, root)), root, 0, ls.len());
}

/// In rows with distinct paths, each row is the first with its path.
pub proof fn lemma_first_row_distinct(rows: Seq<RowV>, c: int)
    requires
        0 <= c < rows.len(),
        forall|i: int, j: int| 0 <= i < j < rows.len() ==> (#[trigger] rows[i]).0 != (#[trigger] rows[j]).0,
    ensures
        first_row_of(rows, rows[c].0) == Some(c),
{
    assert forall|m: int| 0 <= m < c implies #[trigger] rows[m].0 != rows[c].0 by {}
    lemma_first_row_at(rows, rows[c].0, 0, c);
}

/// Toggling the selected directory twice, on a tree built from well-nested
/// listings (as a file system lists directories), gives the tree back (see
/// `law_toggle_twice`): such a tree never shows a path twice.
pub proof fn law_toggle_twice_nested(
    t0: FileTree,
    t1: FileTree,
    t2: FileTree,
    listings: Seq<DirListing>,
)
    requires
        well_nested(listings_view(listings)),
        rows_view(t0.entries@) == tree_of(listings_view(listings), t0.expanded_set(), t0.root@),
        t0.cursor < t0.entries@.len(),
        t0.entries@[t0.cursor as int].is_dir,
        FileTree::toggle_post(t0, t1, listings),
        FileTree::toggle_post(t1, t2, listings),
    ensures
        t1.cursor == t0.cursor,
        t1.scroll == t0.scroll,
        t1.cursor < t1.entries@.len(),
        t1.entries@[t1.cursor as int].path@ == t0.entries@[t0.cursor as int].path@,
        t1.entries@[t1.cursor as int].is_dir,
        t1.entries@[t1.cursor as int].is_expanded == !t0.entries@[t0.cursor as int].is_expanded,
        rows_view(t2.entries@) == rows_view(t0.entries@),
        t2.cursor == t0.cursor,
        t2.scroll == t0.scroll,
        t2.expanded_set() == t0.expanded_set(),
        t2.root == t0.root,
{
    let r0 = rows_view(t0.entries@);
    law_tree_paths_distinct(listings_view(listings), t0.expanded_set(), t0.root@);
    lemma_first_row_distinct(r0, t0.cursor as int);
    assert(r0[t0.cursor as int] == row_view(t0.entries@[t0.cursor as int]));
    law_toggle_twice(t0, t1, t2, listings);
}

// ---------------------------------------------------------------------------
// The diff view shows every change
// ---------------------------------------------------------------------------
proof fn lemma_deleted_listed(cs: Seq<ChangeV>, j: int)
    requires
        0 <= j < cs.len(),
        cs[j].0 == ChangeKind::Delete,
    ensures
        exists|k: int|
            0 <= k < deletes(cs).len() && #[trigger] deletes(cs)[k] == (idx0(cs[j].1), trim_newlines(cs[j].3)),
    decreases cs.len(),
{
    let d = deletes(cs);
    if j == cs.len() - 1 {
        assert(d[d.len() - 1] == (idx0(cs[j].1), trim_newlines(cs[j].3)));
    } else {
        lemma_deleted_listed(cs.drop_last(), j);
        let p = deletes(cs.drop_last());
        let k = choose|k: int| 0 <= k < p.len() && #[trigger] p[k] == (idx0(cs[j].1), trim_newlines(cs[j].3));
        assert(d[k] == p[k]);
    }
}

proof fn lemma_inserted_listed(cs: Seq<ChangeV>, j: int)
    requires
        0 <= j < cs.len(),
        cs[j].0 == ChangeKind::Insert,
    ensures
        exists|k: int|
            0 <= k < inserts(cs).len() && #[trigger] inserts(cs)[k] == (idx0(cs[j].2), trim_newlines(cs[j].3)),
    decreases cs.len(),
{
    let d = inserts(cs);
    if j == cs.len() - 1 {
        assert(d[d.len() - 1] == (idx0(cs[j].2), trim_newlines(cs[j].3)));
    } else {
        lemma_inserted_listed(cs.drop_last(), j);
        let p = inserts(cs.drop_last());
        let k = choose|k: int| 0 <= k < p.len() && #[trigger] p[k] == (idx0(cs[j].2), trim_newlines(cs[j].3));
        assert(d[k] == p[k]);
    }
}

/// The rows of one diff operation show all of it: first one context row per
/// unchanged line, numbered from one on both sides; then as many changed
/// rows as the larger of the numbers of deleted and inserted lines, row `k`
/// holding the `k`-th deleted line on the old side and the `k`-th inserted
/// line on the new side, where there is one. So every deleted line shows on
/// the old side of some row and every inserted line on the new side.
pub proof fn law_diff_shows_every_change(cs: Seq<ChangeV>)
    ensures
        ({
            let r = op_rows(cs);
            let c = contexts(cs);
            let d = deletes(cs);
            let n = inserts(cs);
            &&& r.len() == c.len() + (if d.len() >= n.len() {
                d.len()
            } else {
                n.len()
            })
            &&& forall|k: int|
                0 <= k < c.len() ==> (#[trigger] r[k]).2 == DiffRowKind::Context && r[k].0 == Some(
                    ((c[k].0 + 1) as usize, c[k].2),
                ) && r[k].1 == Some(((c[k].1 + 1) as usize, c[k].2))
            &&& forall|k: int| c.len() <= k < r.len() ==> (#[trigger] r[k]).2 == DiffRowKind::Changed
            &&& forall|k: int|
                0 <= k < d.len() ==> (#[trigger] r[c.len() + k]).0 == Some(((d[k].0 + 1) as usize, d[k].1))
            &&& forall|k: int|
                d.len() <= k && c.len() + k < r.len() ==> (#[trigger] r[c.len() + k]).0 is None
            &&& forall|k: int|
                0 <= k < n.len() ==> (#[trigger] r[c.len() + k]).1 == Some(((n[k].0 + 1) as usize, n[k].1))
            &&& forall|k: int|
                n.len() <= k && c.len() + k < r.len() ==> (#[trigger] r[c.len() + k]).1 is None
        }),
        forall|j: int|
            0 <= j < cs.len() && (#[trigger] cs[j]).0 == ChangeKind::Delete ==> exists|k: int|
                0 <= k < op_rows(cs).len() && #[trigger] op_rows(cs)[k].0 == Some(
                    ((idx0(cs[j].1) + 1) as usize, trim_newlines(cs[j].3)),
                ),
        forall|j: int|
            0 <= j < cs.len() && (#[trigger] cs[j]).0 == ChangeKind::Insert ==> exists|k: int|
                0 <= k < op_rows(cs).len() && #[trigger] op_rows(cs)[k].1 == Some(
                    ((idx0(cs[j].2) + 1) as usize, trim_newlines(cs[j].3)),
                ),
{
    let r = op_rows(cs);
    let c = contexts(cs);
    let d = deletes(cs);
    let n = inserts(cs);
    assert forall|j: int|
        0 <= j < cs.len() && (#[trigger] cs[j]).0 == ChangeKind::Delete implies exists|k: int|
            0 <= k < r.len() && #[trigger] r[k].0 == Some(((idx0(cs[j].1) + 1) as usize, trim_newlines(cs[j].3))) by {
        lemma_deleted_listed(cs, j);
        let k = choose|k: int| 0 <= k < d.len() && #[trigger] d[k] == (idx0(cs[j].1), trim_newlines(cs[j].3));
        assert(r[c.len() + k].0 == Some(((d[k].0 + 1) as usize, d[k].1)));
    }
    assert forall|j: int|
        0 <= j < cs.len() && (#[trigger] cs[j]).0 == ChangeKind::Insert implies exists|k: int|
            0 <= k < r.len() && #[trigger] r[k].1 == Some(((idx0(cs[j].2) + 1) as usize, trim_newlines(cs[j].3))) by {
        lemma_inserted_listed(cs, j);
        let k = choose|k: int| 0 <= k < n.len() && #[trigger] n[k] == (idx0(cs[j].2), trim_newlines(cs[j].3));
        assert(r[c.len() + k].1 == Some(((n[k].0 + 1) as usize, n[k].1)));
    }
}

// ---------------------------------------------------------------------------
// n and N
// ---------------------------------------------------------------------------
/// In the file panel, with matches found, `n` goes to the next match, after
/// the last back to the first, and puts the cursor on it.
pub proof fn law_key_n_goes_forward(o: App, f: App, r: Effect)
    requires
        o.wf(),
        o.mode == Mode::Normal,
        o.focus == Focus::File,
        o.file_path@.len() > 0,
        o.search_matches@.len() > 0,
        App::key_post(o, f, Key::Char('n'), r),
    ensures
        f.search_match_idx as int == (o.search_match_idx + 1) % (o.search_matches@.len() as int),
        f.search_matches == o.search_matches,
        f.cursor == o.search_matches@[f.search_match_idx as int],
        r is Nothing,
{
    let n = o.search_matches@.len() as int;
    let i = o.search_match_idx as int;
    assert(0 <= (i + 1) % n < n) by (nonlinear_arith)
        requires
            n > 0,
            0 <= i,
    ;
    assert(n <= usize::MAX) by {
        assert(o.search_matches.len() == n);
    }
    let b = App { status: None, ..o };
    let k = ((i + 1) % n) as usize;
    let moved = App { search_match_idx: k, cursor: o.search_matches@[k as int], ..b };
    assert(f == (App { scroll: f.scroll, ..moved }));
}

/// In the file panel, with matches found, `N` goes to the previous match,
/// before the first to the last, and puts the cursor on it.
pub proof fn law_key_shift_n_goes_back(o: App, f: App, r: Effect)
    requires
        o.wf(),
        o.mode == Mode::Normal,
        o.focus == Focus::File,
        o.file_path@.len() > 0,
        o.search_matches@.len() > 0,
        App::key_post(o, f, Key::Char('N'), r),
    ensures
        f.search_match_idx as int == (if o.search_match_idx == 0 {
            o.search_matches@.len() - 1
        } else {
            o.search_match_idx - 1
        }),
        f.search_matches == o.search_matches,
        f.cursor == o.search_matches@[f.search_match_idx as int],
        r is Nothing,
{
    let n = o.search_matches@.len() as int;
    let i = o.search_match_idx as int;
    assert(n <= usize::MAX) by {
        assert(o.search_matches.len() == n);
    }
    let b = App { status: None, ..o };
    let k = (if i == 0 {
        n - 1
    } else {
        i - 1
    }) as usize;
    let moved = App { search_match_idx: k, cursor: o.search_matches@[k as int], ..b };
    assert(f == (App { scroll: f.scroll, ..moved }));
}

// ---------------------------------------------------------------------------
// Tree row markers
// ---------------------------------------------------------------------------
/// A tree row's text starts with two spaces per level of depth, then, for a
/// directory, `▼ ` when it is expanded and `▶ ` when it is not, and, for a
/// file, two spaces; a directory's row ends with `/`.
pub proof fn law_tree_row_marker(e: TreeEntry)
    ensures
        tree_row_text(e).len() >= 2 * e.depth + 2,
        forall|k: int| 0 <= k < 2 * e.depth ==> #[trigger] tree_row_text(e)[k] == ' ',
        tree_row_text(e).subrange(2 * e.depth, 2 * e.depth + 2) == (if !e.is_dir {
            seq![' ', ' ']
        } else if e.is_expanded {
            seq!['▼', ' ']
        } else {
            seq!['▶', ' ']
        }),
        e.is_dir ==> tree_row_text(e).last() == '/',
{
    reveal_strlit("▼ ");
    reveal_strlit("▶ ");
    reveal_strlit("  ");
    reveal_strlit("/");
    reveal_strlit("");
    let d = 2 * e.depth as nat;
    let t = tree_row_text(e);
    assert(spaces(d).len() == d);
    assert forall|k: int| 0 <= k < 2 * e.depth implies #[trigger] t[k] == ' ' by {
        assert(t[k] == spaces(d)[k]);
    }
    if !e.is_dir {
        assert(t.subrange(d as int, d as int + 2) =~= seq![' ', ' ']);
    } else if e.is_expanded {
        assert(t.subrange(d as int, d as int + 2) =~= seq!['▼', ' ']);
    } else {
        assert(t.subrange(d as int, d as int + 2) =~= seq!['▶', ' ']);
    }
}

// ---------------------------------------------------------------------------
// Export headings
// ---------------------------------------------------------------------------
/// The export prompt puts one `### path` heading before each run of rows of
/// one file: a row of the same file as the row before it adds only its entry;
/// a row of another file adds the heading of its file, then its entry; the
/// first row gets the heading of its file (when its path is not empty).
pub proof fn law_heading_per_file_run(rows: Seq<AnnotationV>, sources: Seq<SourceV>, r: AnnotationV)
    ensures
        rows.len() > 0 && r.0 == rows.last().0 ==> annotation_entries(rows.push(r), sources)
            == annotation_entries(rows, sources) + annotation_entry(r.1, code_at(sources, r.0, r.1), r.2),
        rows.len() > 0 && r.0 != rows.last().0 ==> annotation_entries(rows.push(r), sources)
            == annotation_entries(rows, sources) + ("\n### "@ + r.0 + "\n"@) + annotation_entry(
            r.1,
            code_at(sources, r.0, r.1),
            r.2,
        ),
        rows.len() == 0 ==> annotation_entries(rows.push(r), sources) == (if r.0.len() > 0 {
            "\n### "@ + r.0 + "\n"@
        } else {
            seq![]
        }) + annotation_entry(r.1, code_at(sources, r.0, r.1), r.2),
{
    let rs = rows.push(r);
    assert(rs.drop_last() =~= rows);
    assert(rs.last() == r);
    if rows.len() > 0 {
        assert(rs[rs.len() - 2] == rows.last());
        if r.0 == rows.last().0 {
            assert(annotation_entries(rows, sources) + Seq::<char>::empty() =~= annotation_entries(rows, sources));
        }
    } else {
        assert(annotation_entries(rows, sources) =~= Seq::<char>::empty());
        if r.0.len() > 0 {
            assert(r.0 != Seq::<char>::empty());
        } else {
            assert(r.0 =~= Seq::<char>::empty());
        }
        assert(Seq::<char>::empty() + (if r.0.len() > 0 {
            "\n### "@ + r.0 + "\n"@
        } else {
            seq![]
        }) =~= (if r.0.len() > 0 {
            "\n### "@ + r.0 + "\n"@
        } else {
            seq![]
        }));
    }
}

// ---------------------------------------------------------------------------
// The source view draws from the scroll and shows the cursor
// ---------------------------------------------------------------------------
/// The highlighted pieces of every line hold its text, and every comment box
/// height fits a `usize`.
pub open spec fn drawable(app: App) -> bool {
    &&& forall|i: int|
        0 <= i < app.lines@.len() ==> coloured(#[trigger] line_pieces(app, i)).map_values(
            |x: ((u8, u8, u8), char)| x.1,
        ) == app.lines@[i]@
    &&& forall|l: usize|
        #[trigger] app.comments@.contains_key(l) ==> wrapped(app.comments@[l]@, comment_width(app.view_width)).len()
            + 2 <= usize::MAX
}

proof fn lemma_line_rows_nonempty(app: App, i: int, w: nat)
    requires
        w >= 1,
    ensures
        source_line_rows(app, i, w).len() >= 1,
        source_line_rows(app, i, w)[0] == gutter(app, i, 0) + piece_parts(
            wrap_pieces(line_pieces(app, i), w).0[0],
            line_bg(app, i),
        ),
{
    lemma_wrap_pieces(line_pieces(app, i), w);
}

/// When there is a row to draw, the first row drawn from line `i` is the
/// first row of line `i`.
proof fn lemma_first_drawn(app: App, i: int, rows: nat, w: nat, aw: u16, h: nat)
    requires
        0 <= i < app.lines@.len(),
        rows < h,
        w >= 1,
    ensures
        source_from(app, i, rows, w, aw, h).len() >= 1,
        source_from(app, i, rows, w, aw, h)[0] == source_line_rows(app, i, w)[0],
{
    lemma_line_rows_nonempty(app, i, w);
}

/// Line `i`'s first row: the cursor marker when `i` is the cursor, and the
/// 1-based number of the line.
proof fn lemma_gutter_first(app: App, i: int)
    ensures
        gutter(app, i, 0).len() == 3,
        gutter(app, i, 0)[1].0 == num4((i + 1) as nat),
        i == app.cursor ==> gutter(app, i, 0)[0].0 == seq!['▶', ' '],
{
    reveal_strlit("▶ ");
    assert("▶ "@ =~= seq!['▶', ' ']);
}

/// When scroll lies on a line and the view has a row, the source view starts
/// with the first row of line `scroll`, numbered `scroll + 1`.
pub proof fn law_source_view_starts_at_scroll(app: App, area_width: u16, area_height: u16)
    requires
        app.scroll < app.lines@.len(),
        inner_rows(area_height) >= 1,
    ensures
        source_view(app, area_width, area_height).len() >= 1,
        source_view(app, area_width, area_height)[0].len() >= 3,
        source_view(app, area_width, area_height)[0][1].0 == num4((app.scroll + 1) as nat),
        app.cursor == app.scroll ==> source_view(app, area_width, area_height)[0][0].0 == seq!['▶', ' '],
{
    let w = text_columns(area_width);
    lemma_first_drawn(app, app.scroll as int, 0, w, area_width, inner_rows(area_height));
    lemma_line_rows_nonempty(app, app.scroll as int, w);
    lemma_gutter_first(app, app.scroll as int);
}

proof fn lemma_same_row_counts(o: App, a: App, x: int, y: int)
    requires
        a == (App { scroll: a.scroll, ..o }),
    ensures
        a.rows_between(x, y) == o.rows_between(x, y),
    decreases y - x,
{
    if x < y {
        lemma_same_row_counts(o, a, x, y - 1);
    }
}

proof fn lemma_cursor_reached(a: App, i: int, rows: nat, h: nat)
    requires
        a.wf(),
        a.view_mode == ViewMode::Source,
        drawable(a),
        0 <= i <= a.cursor < a.lines@.len(),
        rows + a.rows_between(i, a.cursor + 1) <= h,
    ensures
        ({
            let v = source_from(a, i, rows, text_columns(a.view_width), a.view_width, h);
            exists|k: int|
                0 <= k < v.len() && (#[trigger] v[k]).len() >= 3 && v[k][0].0 == seq!['▶', ' '] && v[k][1].0
                    == num4((a.cursor + 1) as nat)
        }),
    decreases a.cursor - i,
{
    let w = text_columns(a.view_width);
    let c = a.cursor as int;
    let v = source_from(a, i, rows, w, a.view_width, h);
    assert(a.lines.len() == a.lines@.len());
    assert((i as usize) as int == i);
    assert(line_pieces(a, i) == line_pieces(a, i));
    law_drawn_rows_match_count(a, i);
    lemma_line_rows_nonempty(a, i, w);
    a.lemma_rows_between_split(i, i + 1, c + 1);
    assert(a.rows_between(i, i) == 0);
    assert(a.rows_between(i, i + 1) == a.row_height(i));
    let fl = source_line_rows(a, i, w);
    if i == c {
        lemma_gutter_first(a, i);
        assert(v[0] == fl[0]);
        assert(v[0][1] == gutter(a, i, 0)[1]);
        assert(v[0][0] == gutter(a, i, 0)[0]);
    } else {
        law_drawn_rows_match_count(a, c);
        lemma_line_rows_nonempty(a, c, w);
        a.lemma_rows_between_split(i + 1, c, c + 1);
        assert(a.rows_between(c, c) == 0);
        assert(a.rows_between(c, c + 1) == a.row_height(c));
        let bx = if a.comments@.contains_key(i as usize) {
            comment_box_lines(a.comments@[i as usize]@, a.view_width)
        } else {
            seq![]
        };
        let next = rows + a.row_height(i);
        lemma_cursor_reached(a, i + 1, next, h);
        let rest = source_from(a, i + 1, next, w, a.view_width, h);
        assert(bx.take(bx.len() as int) =~= bx);
        assert(v == fl + bx + rest);
        let k = choose|k: int|
            0 <= k < rest.len() && (#[trigger] rest[k]).len() >= 3 && rest[k][0].0 == seq!['▶', ' '] && rest[k][1].0
                == num4((a.cursor + 1) as nat);
        assert(v[fl.len() + bx.len() + k] == rest[k]);
    }
}

/// After scrolling to the cursor, the source view of the file panel shows
/// the cursor's line: some drawn row carries the cursor marker and the
/// cursor's 1-based line number. This holds when each line's highlighted
/// pieces hold its text and every comment box height fits a `usize`.
pub proof fn law_cursor_line_drawn(o: App, s: int)
    requires
        o.wf(),
        o.view_mode == ViewMode::Source,
        o.view_height > 0,
        o.view_height + 2 <= u16::MAX,
        o.cursor < o.lines@.len(),
        drawable(o),
        o.scrolled_to_cursor(s),
    ensures
        ({
            let a = App { scroll: s as usize, ..o };
            let v = source_view(a, o.view_width, (o.view_height + 2) as u16);
            exists|k: int|
                0 <= k < v.len() && (#[trigger] v[k]).len() >= 3 && v[k][0].0 == seq!['▶', ' '] && v[k][1].0
                    == num4((o.cursor + 1) as nat)
        }),
{
    law_scroll_shows_cursor(o, s);
    let a = App { scroll: s as usize, ..o };
    let h = inner_rows((o.view_height + 2) as u16);
    assert(h == o.view_height);
    let c = o.cursor as int;
    assert(a.scroll as int == s);
    assert(drawable(a)) by {
        assert forall|i: int| 0 <= i < a.lines@.len() implies coloured(#[trigger] line_pieces(a, i)).map_values(
            |x: ((u8, u8, u8), char)| x.1,
        ) == a.lines@[i]@ by {
            assert(line_pieces(a, i) == line_pieces(o, i));
        }
    }
    if s == c {
        let w = text_columns(a.view_width);
        lemma_first_drawn(a, c, 0, w, a.view_width, h);
        lemma_line_rows_nonempty(a, c, w);
        lemma_gutter_first(a, c);
        let v = source_from(a, s, 0, w, a.view_width, h);
        assert(v[0][0] == gutter(a, c, 0)[0]);
        assert(v[0][1] == gutter(a, c, 0)[1]);
    } else {
        assert(o.fits_from(s));
        lemma_same_row_counts(o, a, s, c + 1);
        lemma_cursor_reached(a, s, 0, h);
    }
    assert(source_view(a, o.view_width, (o.view_height + 2) as u16) == source_from(
        a,
        s,
        0,
        text_columns(o.view_width),
        o.view_width,
        h,
    ));
}

} // verus!
