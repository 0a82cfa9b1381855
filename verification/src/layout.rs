//! Layout arithmetic of the file view: how many terminal rows a source line
//! or a comment box takes, and how comment text is word-wrapped.
use vstd::prelude::*;
use crate::editor::StyledText;
use crate::text::{chars_of, is_ws, lemma_views_push, lines_acc, lines_of, push_chars, split_lines, split_words, string_from_chars, strip_cr, views, words_acc, words_of};

verus! {

/// Width of the gutter in front of each source line: marker, line number, comment dot.
pub const GUTTER: usize = 9;

/// `n / d` rounded up, as `usize::div_ceil` computes it.
pub open spec fn ceil_div(n: nat, d: nat) -> nat
    recommends
        d > 0,
{
    if n % d == 0 {
        n / d
    } else {
        n / d + 1
    }
}

pub fn div_ceil(n: usize, d: usize) -> (r: usize)
    requires
        d > 0,
    ensures
        r == ceil_div(n as nat, d as nat),
{
    if n % d == 0 {
        n / d
    } else {
        proof {
            assert(n / d < n || d == 1 || n == 0) by (nonlinear_arith)
                requires
                    d > 0,
                    n % d != 0,
            ;
            assert(n / d <= n) by (nonlinear_arith)
                requires
                    d > 0,
            ;
        }
        if n / d == n {
            // only possible when `d == 1`, where `n % d == 0`
            proof {
                assert(false) by (nonlinear_arith)
                    requires
                        d > 0,
                        n % d != 0,
                        n / d == n,
                ;
            }
        }
        n / d + 1
    }
}

pub open spec fn max_nat(a: int, b: int) -> int {
    if a >= b {
        a
    } else {
        b
    }
}

/// Columns available for source text in a file view `view_width` wide.
pub open spec fn source_text_width(view_width: u16) -> nat {
    max_nat(view_width - (2 + GUTTER), 1) as nat
}

/// Terminal rows a source line of `len` characters takes: one for an empty
/// line, else its length divided by the text width, rounded up.
pub open spec fn display_rows(len: nat, view_width: u16) -> nat {
    if len == 0 {
        1
    } else {
        ceil_div(len, source_text_width(view_width))
    }
}

/// Number of terminal rows `line` occupies when soft-wrapped in a file view
/// `view_width` columns wide.
pub fn line_display_rows(line: &str, view_width: u16) -> (r: usize)
    ensures
        r == display_rows(line@.len(), view_width),
        r >= 1,
{
    let w = view_width as usize;
    let available = if w > 2 + GUTTER { w - (2 + GUTTER) } else { 1 };
    let n = line.unicode_len();
    if n == 0 {
        1
    } else {
        proof {
            assert(n >= 1 ==> ceil_div(n as nat, available as nat) >= 1) by (nonlinear_arith)
                requires
                    available > 0,
            ;
        }
        div_ceil(n, available)
    }
}

/// Columns available for the text of a comment box in an area `area_width` wide.
pub open spec fn comment_width(area_width: u16) -> nat {
    max_nat(area_width - 15, 1) as nat
}

/// Width of the text inside an inline comment box.
pub fn comment_text_width(area_width: u16) -> (r: usize)
    ensures
        r == comment_width(area_width),
        r >= 1,
{
    let w = area_width as usize;
    if w > 15 {
        w - 15
    } else {
        1
    }
}

/// Terminal rows of the comment editor showing `len` characters of input,
/// in an area `area_width` wide: the input and a cursor mark, wrapped, plus
/// two border rows.
pub open spec fn editor_rows(len: nat, area_width: u16) -> u16 {
    let text_width = max_nat(area_width - 2, 1) as nat;
    (max_nat(ceil_div(len + 1, text_width) as int, 1) + 2) as u16
}

/// Height of the comment editor for the text being typed.
pub fn comment_editor_height(text: &str, area_width: u16) -> (r: u16)
    ensures
        r == editor_rows(text@.len(), area_width),
{
    let w = area_width as u128;
    let text_width: u128 = if w > 2 { w - 2 } else { 1 };
    let n = text.unicode_len();
    // the input followed by the cursor mark `_`
    let visible: u128 = n as u128 + 1;
    let q = visible / text_width;
    let rows: u128 = if visible % text_width == 0 { q } else { q + 1 };
    let rows: u128 = if rows > 1 { rows } else { 1 };
    proof {
        assert(q <= visible) by (nonlinear_arith)
            requires
                text_width >= 1,
                q == visible / text_width,
        ;
    }
    #[verifier::truncate]
    ((rows + 2) as u16)
}

/// Width of the file area: the terminal width minus the tree panel, which
/// takes `tree_width_pct` percent of it.
pub open spec fn file_width(total_width: u16, tree_width_pct: u16) -> u16 {
    let tree_w = (total_width * tree_width_pct / 100) as u16;
    max_nat(total_width - tree_w, 0) as u16
}

pub fn file_area_width(total_width: u16, tree_width_pct: u16) -> (r: u16)
    ensures
        r == file_width(total_width, tree_width_pct),
{
    proof {
        assert(total_width * tree_width_pct <= 0xffff * 0xffff) by (nonlinear_arith)
            requires
                total_width <= 0xffff,
                tree_width_pct <= 0xffff,
        ;
    }
    let prod: u32 = total_width as u32 * tree_width_pct as u32;
    #[verifier::truncate]
    let tree_w: u16 = (prod / 100) as u16;
    if total_width > tree_w {
        total_width - tree_w
    } else {
        0
    }
}

/// The top border of a comment box `width` columns wide: a rule carrying the
/// title `─ note `, or a bare rule where the title does not fit.
pub open spec fn top_border(width: nat) -> Seq<char> {
    let title = seq!['─', ' ', 'n', 'o', 't', 'e', ' '];
    if width >= 7 {
        title + Seq::new((width - 7) as nat, |i: int| '─')
    } else {
        Seq::new(width, |i: int| '─')
    }
}

pub fn comment_top_border(width: usize) -> (r: String)
    ensures
        r@ == top_border(width as nat),
{
    let mut out: Vec<char> = Vec::new();
    let rule = if width >= 7 {
        out.push('─');
        out.push(' ');
        out.push('n');
        out.push('o');
        out.push('t');
        out.push('e');
        out.push(' ');
        width - 7
    } else {
        width
    };
    let ghost start = out@;
    let mut i: usize = 0;
    while i < rule
        invariant
            i <= rule,
            out@ == start + Seq::new(i as nat, |k: int| '─'),
        decreases rule - i,
    {
        out.push('─');
        i += 1;
        assert(out@ =~= start + Seq::new(i as nat, |k: int| '─'));
    }
    proof {
        if width >= 7 {
            assert(out@ =~= top_border(width as nat));
        } else {
            assert(out@ =~= top_border(width as nat));
        }
    }
    string_from_chars(out.as_slice())
}

// ---------------------------------------------------------------------------
// Word wrapping
// ---------------------------------------------------------------------------
/// Appends `word` to the line being built, character by character, starting
/// a new line whenever the current one already holds `width` characters.
/// Returns the finished lines and the line being built.
pub open spec fn push_word(lines: Seq<Seq<char>>, line: Seq<char>, word: Seq<char>, width: nat) -> (
    Seq<Seq<char>>,
    Seq<char>,
)
    decreases word.len(),
{
    if word.len() == 0 {
        (lines, line)
    } else {
        let (l2, ln2) = push_word(lines, line, word.drop_last(), width);
        if ln2.len() == width {
            (l2.push(ln2), seq![word.last()])
        } else {
            (l2, ln2.push(word.last()))
        }
    }
}

/// Lays out `words` after the line being built: a word goes on the current
/// line after a space when it fits, else on a fresh line (broken up when it
/// is longer than `width`).
pub open spec fn wrap_words(
    lines: Seq<Seq<char>>,
    line: Seq<char>,
    words: Seq<Seq<char>>,
    width: nat,
) -> (Seq<Seq<char>>, Seq<char>)
    decreases words.len(),
{
    if words.len() == 0 {
        (lines, line)
    } else {
        let (l2, ln2) = wrap_words(lines, line, words.drop_last(), width);
        let w = words.last();
        if ln2.len() == 0 {
            push_word(l2, ln2, w, width)
        } else if ln2.len() + 1 + w.len() <= width {
            (l2, ln2 + seq![' '] + w)
        } else {
            push_word(l2.push(ln2), seq![], w, width)
        }
    }
}

/// Wraps each of `raws` on its own, one after the other.
pub open spec fn wrap_lines(raws: Seq<Seq<char>>, width: nat) -> Seq<Seq<char>>
    decreases raws.len(),
{
    if raws.len() == 0 {
        seq![]
    } else {
        let acc = wrap_lines(raws.drop_last(), width);
        let (l2, ln2) = wrap_words(acc, seq![], words_of(raws.last()), width);
        l2.push(ln2)
    }
}

/// The rows of `text` word-wrapped at `width` columns (at least one), each
/// line of the text wrapped on its own; a text without lines gives one
/// empty row.
pub open spec fn wrapped(text: Seq<char>, width: nat) -> Seq<Seq<char>> {
    let w = if width >= 1 {
        width
    } else {
        1
    };
    let r = wrap_lines(lines_of(text), w);
    if r.len() == 0 {
        seq![seq![]]
    } else {
        r
    }
}

/// All of `lines` fit in `width` columns.
pub open spec fn all_fit(lines: Seq<Seq<char>>, width: nat) -> bool {
    forall|k: int| 0 <= k < lines.len() ==> (#[trigger] lines[k]).len() <= width
}

/// Appends the characters of `word` to `line`, moving `line` to `lines`
/// whenever it is `width` characters long.
pub fn push_wrapped_word(lines: &mut Vec<String>, line: &mut String, word: &str, width: usize)
    ensures
        (views(final(lines)@), final(line)@) == push_word(views(old(lines)@), old(line)@, word@, width as nat),
{
    let mut cur = chars_of(line.as_str());
    let w = chars_of(word);
    push_word_chars(lines, &mut cur, w.as_slice(), width);
    *line = string_from_chars(cur.as_slice());
}

fn push_word_chars(lines: &mut Vec<String>, line: &mut Vec<char>, word: &[char], width: usize)
    ensures
        (views(final(lines)@), final(line)@) == push_word(views(old(lines)@), old(line)@, word@, width as nat),
{
    let n = word.len();
    let mut i: usize = 0;
    while i < n
        invariant
            n == word@.len(),
            i <= n,
            (views(lines@), line@) == push_word(
                views(old(lines)@),
                old(line)@,
                word@.take(i as int),
                width as nat,
            ),
        decreases n - i,
    {
        assert(word@.take(i + 1).drop_last() =~= word@.take(i as int));
        if line.len() == width {
            let s = string_from_chars(line.as_slice());
            proof {
                lemma_views_push(lines@, s);
            }
            lines.push(s);
            *line = Vec::new();
        }
        line.push(word[i]);
        i += 1;
    }
    assert(word@.take(n as int) =~= word@);
}

/// Word-wraps `text` to at most `width` columns (see `wrapped`).
pub fn wrap_text(text: &str, width: usize) -> (r: Vec<String>)
    ensures
        views(r@) == wrapped(text@, width as nat),
{
    let width = if width >= 1 { width } else { 1 };
    let raws = split_lines(text);
    let mut lines: Vec<String> = Vec::new();
    let n = raws.len();
    let mut i: usize = 0;
    while i < n
        invariant
            n == raws@.len(),
            i <= n,
            width >= 1,
            views(raws@) == lines_of(text@),
            views(lines@) == wrap_lines(views(raws@).take(i as int), width as nat),
        decreases n - i,
    {
        let ghost prev = views(raws@).take(i as int);
        assert(views(raws@).take(i + 1).drop_last() =~= prev);
        assert(views(raws@)[i as int] == raws@[i as int]@);
        let raw = chars_of(raws[i].as_str());
        let words = split_words(raw.as_slice());
        let mut line: Vec<char> = Vec::new();
        let m = words.len();
        let mut j: usize = 0;
        let ghost base = views(lines@);
        let ghost ws = words@.map_values(|w: Vec<char>| w@);
        while j < m
            invariant
                m == words@.len(),
                j <= m,
                ws == words@.map_values(|w: Vec<char>| w@),
                (views(lines@), line@) == wrap_words(base, seq![], ws.take(j as int), width as nat),
            decreases m - j,
        {
            assert(ws.take(j + 1).drop_last() =~= ws.take(j as int));
            assert(ws[j as int] == words@[j as int]@);
            let word = &words[j];
            let wl = word.len();
            let ll = line.len();
            if ll == 0 {
                push_word_chars(&mut lines, &mut line, word.as_slice(), width);
            } else if ll < width && wl <= width - ll - 1 {
                line.push(' ');
                push_chars(&mut line, word.as_slice());
            } else {
                let s = string_from_chars(line.as_slice());
                proof {
                    lemma_views_push(lines@, s);
                }
                lines.push(s);
                line = Vec::new();
                push_word_chars(&mut lines, &mut line, word.as_slice(), width);
            }
            j += 1;
        }
        assert(ws.take(m as int) =~= ws);
        let s = string_from_chars(line.as_slice());
        proof {
            lemma_views_push(lines@, s);
        }
        lines.push(s);
        i += 1;
    }
    assert(views(raws@).take(n as int) =~= views(raws@));
    if lines.len() == 0 {
        let s = String::new();
        proof {
            lemma_views_push(lines@, s);
        }
        lines.push(s);
    }
    lines
}

proof fn lemma_push_word_fits(lines: Seq<Seq<char>>, line: Seq<char>, word: Seq<char>, width: nat)
    requires
        width >= 1,
        all_fit(lines, width),
        line.len() <= width,
    ensures
        all_fit(push_word(lines, line, word, width).0, width),
        push_word(lines, line, word, width).1.len() <= width,
        word.len() > 0 ==> push_word(lines, line, word, width).1.len() > 0,
    decreases word.len(),
{
    if word.len() > 0 {
        lemma_push_word_fits(lines, line, word.drop_last(), width);
    }
}

proof fn lemma_wrap_words_fits(
    lines: Seq<Seq<char>>,
    line: Seq<char>,
    words: Seq<Seq<char>>,
    width: nat,
)
    requires
        width >= 1,
        all_fit(lines, width),
        line.len() <= width,
    ensures
        all_fit(wrap_words(lines, line, words, width).0, width),
        wrap_words(lines, line, words, width).1.len() <= width,
    decreases words.len(),
{
    if words.len() > 0 {
        lemma_wrap_words_fits(lines, line, words.drop_last(), width);
        let (l2, ln2) = wrap_words(lines, line, words.drop_last(), width);
        let w = words.last();
        if ln2.len() == 0 {
            lemma_push_word_fits(l2, ln2, w, width);
        } else if ln2.len() + 1 + w.len() <= width {
        } else {
            lemma_push_word_fits(l2.push(ln2), seq![], w, width);
        }
    }
}

proof fn lemma_wrap_lines_fits(raws: Seq<Seq<char>>, width: nat)
    requires
        width >= 1,
    ensures
        all_fit(wrap_lines(raws, width), width),
    decreases raws.len(),
{
    if raws.len() > 0 {
        lemma_wrap_lines_fits(raws.drop_last(), width);
        let acc = wrap_lines(raws.drop_last(), width);
        lemma_wrap_words_fits(acc, seq![], words_of(raws.last()), width);
    }
}

/// Word wrapping yields at least one row, and no row is wider than the
/// wrap width (or than one column, for a width of zero).
pub proof fn lemma_wrapped_fits(text: Seq<char>, width: nat)
    ensures
        wrapped(text, width).len() >= 1,
        all_fit(wrapped(text, width), if width >= 1 { width } else { 1 }),
{
    let w = if width >= 1 {
        width
    } else {
        1
    };
    lemma_wrap_lines_fits(lines_of(text), w);
}

/// The characters of `s` that are not whitespace, in order.
pub open spec fn glyphs(s: Seq<char>) -> Seq<char>
    decreases s.len(),
{
    if s.len() == 0 {
        seq![]
    } else if is_ws(s.last()) {
        glyphs(s.drop_last())
    } else {
        glyphs(s.drop_last()).push(s.last())
    }
}

/// `rows` one after the other.
pub open spec fn joined(rows: Seq<Seq<char>>) -> Seq<char>
    decreases rows.len(),
{
    if rows.len() == 0 {
        seq![]
    } else {
        joined(rows.drop_last()) + rows.last()
    }
}

proof fn lemma_glyphs_add(a: Seq<char>, b: Seq<char>)
    ensures
        glyphs(a + b) == glyphs(a) + glyphs(b),
    decreases b.len(),
{
    if b.len() == 0 {
        assert(a + b =~= a);
        assert(glyphs(a) + glyphs(b) =~= glyphs(a));
    } else {
        lemma_glyphs_add(a, b.drop_last());
        assert((a + b).drop_last() =~= a + b.drop_last());
        assert((a + b).last() == b.last());
        if !is_ws(b.last()) {
            assert(glyphs(a) + glyphs(b.drop_last()).push(b.last()) =~= (glyphs(a) + glyphs(
                b.drop_last(),
            )).push(b.last()));
        }
    }
}

proof fn lemma_glyphs_push(x: Seq<char>, c: char)
    ensures
        glyphs(x.push(c)) == (if is_ws(c) {
            glyphs(x)
        } else {
            glyphs(x).push(c)
        }),
{
    assert(x.push(c).drop_last() =~= x);
}

proof fn lemma_glyphs_ws(c: char)
    requires
        is_ws(c),
    ensures
        glyphs(seq![c]) == Seq::<char>::empty(),
{
    lemma_glyphs_push(Seq::<char>::empty(), c);
    assert(Seq::<char>::empty().push(c) =~= seq![c]);
}

proof fn lemma_joined_push(rows: Seq<Seq<char>>, r: Seq<char>)
    ensures
        joined(rows.push(r)) == joined(rows) + r,
{
    assert(rows.push(r).drop_last() =~= rows);
}

proof fn lemma_push_word_glyphs(lines: Seq<Seq<char>>, line: Seq<char>, word: Seq<char>, width: nat)
    ensures
        ({
            let (l2, ln2) = push_word(lines, line, word, width);
            glyphs(joined(l2) + ln2) == glyphs(joined(lines) + line) + glyphs(word)
        }),
    decreases word.len(),
{
    if word.len() == 0 {
        assert(glyphs(joined(lines) + line) + glyphs(word) =~= glyphs(joined(lines) + line));
    } else {
        lemma_push_word_glyphs(lines, line, word.drop_last(), width);
        let (l2, ln2) = push_word(lines, line, word.drop_last(), width);
        let c = word.last();
        lemma_glyphs_add(word.drop_last(), seq![c]);
        assert(word.drop_last() + seq![c] =~= word);
        lemma_glyphs_add(joined(lines) + line, word.drop_last());
        if ln2.len() == width {
            lemma_joined_push(l2, ln2);
            lemma_glyphs_add(joined(l2) + ln2, seq![c]);
        } else {
            assert(joined(l2) + ln2.push(c) =~= (joined(l2) + ln2) + seq![c]);
            lemma_glyphs_add(joined(l2) + ln2, seq![c]);
        }
    }
}

proof fn lemma_wrap_words_glyphs(
    lines: Seq<Seq<char>>,
    line: Seq<char>,
    words: Seq<Seq<char>>,
    width: nat,
)
    ensures
        ({
            let (l2, ln2) = wrap_words(lines, line, words, width);
            glyphs(joined(l2) + ln2) == glyphs(joined(lines) + line) + glyphs(joined(words))
        }),
    decreases words.len(),
{
    if words.len() == 0 {
        assert(glyphs(joined(lines) + line) + glyphs(joined(words)) =~= glyphs(joined(lines) + line));
    } else {
        lemma_wrap_words_glyphs(lines, line, words.drop_last(), width);
        let (l2, ln2) = wrap_words(lines, line, words.drop_last(), width);
        let w = words.last();
        lemma_glyphs_add(joined(words.drop_last()), w);
        let g0 = glyphs(joined(lines) + line);
        assert(g0 + glyphs(joined(words)) =~= (g0 + glyphs(joined(words.drop_last()))) + glyphs(w));
        if ln2.len() == 0 {
            lemma_push_word_glyphs(l2, ln2, w, width);
        } else if ln2.len() + 1 + w.len() <= width {
            assert(joined(l2) + (ln2 + seq![' '] + w) =~= ((joined(l2) + ln2) + seq![' ']) + w);
            lemma_glyphs_add((joined(l2) + ln2) + seq![' '], w);
            lemma_glyphs_add(joined(l2) + ln2, seq![' ']);
            lemma_glyphs_ws(' ');
        } else {
            lemma_push_word_glyphs(l2.push(ln2), seq![], w, width);
            lemma_joined_push(l2, ln2);
            assert(joined(l2.push(ln2)) + Seq::<char>::empty() =~= joined(l2) + ln2);
        }
    }
}

proof fn lemma_wrap_lines_glyphs(raws: Seq<Seq<char>>, width: nat)
    ensures
        glyphs(joined(wrap_lines(raws, width))) == glyphs(joined(raws)),
        raws.len() > 0 ==> wrap_lines(raws, width).len() > 0,
    decreases raws.len(),
{
    if raws.len() > 0 {
        lemma_wrap_lines_glyphs(raws.drop_last(), width);
        let acc = wrap_lines(raws.drop_last(), width);
        let r = raws.last();
        lemma_wrap_words_glyphs(acc, seq![], words_of(r), width);
        let (l2, ln2) = wrap_words(acc, seq![], words_of(r), width);
        lemma_joined_push(l2, ln2);
        assert(joined(acc) + Seq::<char>::empty() =~= joined(acc));
        lemma_words_glyphs(r);
        lemma_glyphs_add(joined(raws.drop_last()), r);
    }
}

proof fn lemma_words_acc_glyphs(s: Seq<char>)
    ensures
        ({
            let (done, cur) = words_acc(s);
            glyphs(joined(done) + cur) == glyphs(s)
        }),
    decreases s.len(),
{
    if s.len() > 0 {
        lemma_words_acc_glyphs(s.drop_last());
        let (done, cur) = words_acc(s.drop_last());
        let c = s.last();
        assert(s =~= s.drop_last().push(c));
        lemma_glyphs_push(s.drop_last(), c);
        if is_ws(c) {
            if cur.len() > 0 {
                lemma_joined_push(done, cur);
                assert(joined(done.push(cur)) + Seq::<char>::empty() =~= joined(done) + cur);
            }
        } else {
            assert(joined(done) + cur.push(c) =~= (joined(done) + cur).push(c));
            lemma_glyphs_push(joined(done) + cur, c);
        }
    } else {
        assert(joined(words_acc(s).0) + words_acc(s).1 =~= Seq::<char>::empty());
    }
}

proof fn lemma_words_glyphs(s: Seq<char>)
    ensures
        glyphs(joined(words_of(s))) == glyphs(s),
{
    lemma_words_acc_glyphs(s);
    let (done, cur) = words_acc(s);
    if cur.len() > 0 {
        lemma_joined_push(done, cur);
    } else {
        assert(joined(done) + cur =~= joined(done));
    }
}

proof fn lemma_lines_acc_glyphs(s: Seq<char>)
    ensures
        ({
            let (done, cur) = lines_acc(s);
            glyphs(joined(done) + cur) == glyphs(s)
        }),
    decreases s.len(),
{
    if s.len() > 0 {
        lemma_lines_acc_glyphs(s.drop_last());
        let (done, cur) = lines_acc(s.drop_last());
        let c = s.last();
        assert(s =~= s.drop_last().push(c));
        lemma_glyphs_push(s.drop_last(), c);
        if c == '\n' {
            lemma_joined_push(done, strip_cr(cur));
            assert(joined(done.push(strip_cr(cur))) + Seq::<char>::empty() =~= joined(done)
                + strip_cr(cur));
            if cur.len() > 0 && cur.last() == '\r' {
                assert(cur =~= strip_cr(cur) + seq!['\r']);
                assert(joined(done) + cur =~= (joined(done) + strip_cr(cur)) + seq!['\r']);
                lemma_glyphs_add(joined(done) + strip_cr(cur), seq!['\r']);
                lemma_glyphs_ws('\r');
            }
        } else {
            assert(joined(done) + cur.push(c) =~= (joined(done) + cur).push(c));
            lemma_glyphs_push(joined(done) + cur, c);
        }
    } else {
        assert(joined(lines_acc(s).0) + lines_acc(s).1 =~= Seq::<char>::empty());
    }
}

/// Word wrapping keeps every character of the text that is not whitespace,
/// in order: the rows, one after the other, hold the same visible text.
pub proof fn lemma_wrapped_keeps_text(text: Seq<char>, width: nat)
    ensures
        glyphs(joined(wrapped(text, width))) == glyphs(text),
{
    let w = if width >= 1 {
        width
    } else {
        1
    };
    lemma_lines_acc_glyphs(text);
    let (done, cur) = lines_acc(text);
    if cur.len() > 0 {
        lemma_joined_push(done, cur);
    } else {
        assert(joined(done) + cur =~= joined(done));
    }
    lemma_wrap_lines_glyphs(lines_of(text), w);
    if wrap_lines(lines_of(text), w).len() == 0 {
        assert(lines_of(text).len() == 0);
        assert(joined(seq![Seq::<char>::empty()]) =~= Seq::<char>::empty()) by {
            assert(seq![Seq::<char>::empty()].drop_last() =~= Seq::<Seq<char>>::empty());
        }
    }
}

/// Height of an inline comment box: the wrapped comment plus two border rows
/// (saturating at `usize::MAX`).
pub open spec fn comment_box_rows(text: Seq<char>, area_width: u16) -> nat {
    let h = wrapped(text, comment_width(area_width)).len() + 2;
    if h <= usize::MAX {
        h
    } else {
        usize::MAX as nat
    }
}

pub fn comment_box_height(text: &str, area_width: u16) -> (r: usize)
    ensures
        r == comment_box_rows(text@, area_width),
        r >= 3,
{
    let rows = wrap_text(text, comment_text_width(area_width));
    proof {
        lemma_wrapped_fits(text@, comment_width(area_width));
        assert(views(rows@).len() == rows@.len());
    }
    let n = rows.len();
    if n <= usize::MAX - 2 {
        n + 2
    } else {
        usize::MAX
    }
}

// ---------------------------------------------------------------------------
// Wrapping highlighted lines
// ---------------------------------------------------------------------------
/// A coloured piece of text: foreground colour and characters.
pub type PieceV = ((u8, u8, u8), Seq<char>);

pub open spec fn piece_view(p: StyledText) -> PieceV {
    (p.fg, p.text@)
}

pub open spec fn pieces_view(ps: Seq<StyledText>) -> Seq<PieceV> {
    ps.map_values(|p: StyledText| piece_view(p))
}

pub open spec fn rows_of_pieces(rs: Seq<Vec<StyledText>>) -> Seq<Seq<PieceV>> {
    rs.map_values(|r: Vec<StyledText>| pieces_view(r@))
}

/// `rows` with `p` added to its last row.
pub open spec fn add_to_last(rows: Seq<Seq<PieceV>>, p: PieceV) -> Seq<Seq<PieceV>> {
    rows.update(rows.len() - 1, rows.last().push(p))
}

/// Lays out the characters of `text`, in colour `fg`, after the rows built
/// so far: the piece being built, and the column reached. When the column
/// reaches `width`, the piece so far goes to the last row and a new row
/// starts.
pub open spec fn wrap_chars(
    rows: Seq<Seq<PieceV>>,
    chunk: Seq<char>,
    col: nat,
    fg: (u8, u8, u8),
    text: Seq<char>,
    width: nat,
) -> (Seq<Seq<PieceV>>, Seq<char>, nat)
    decreases text.len(),
{
    if text.len() == 0 {
        (rows, chunk, col)
    } else {
        let (r, ch, c) = wrap_chars(rows, chunk, col, fg, text.drop_last(), width);
        if c == width {
            let r2 = if ch.len() > 0 {
                add_to_last(r, (fg, ch))
            } else {
                r
            };
            (r2.push(seq![]), seq![text.last()], 1)
        } else {
            (r, ch.push(text.last()), c + 1)
        }
    }
}

/// Lays out `pieces` one after the other in rows of at most `width`
/// characters (one, for a width of zero), starting with one empty row.
pub open spec fn wrap_pieces(pieces: Seq<PieceV>, width: nat) -> (Seq<Seq<PieceV>>, nat)
    decreases pieces.len(),
{
    if pieces.len() == 0 {
        (seq![seq![]], 0)
    } else {
        let (rows, col) = wrap_pieces(pieces.drop_last(), width);
        let p = pieces.last();
        let (r, ch, c) = wrap_chars(rows, seq![], col, p.0, p.1, width);
        (if ch.len() > 0 {
            add_to_last(r, (p.0, ch))
        } else {
            r
        }, c)
    }
}

/// `s` with every character in colour `fg`.
pub open spec fn in_colour(fg: (u8, u8, u8), s: Seq<char>) -> Seq<((u8, u8, u8), char)> {
    s.map_values(|c: char| (fg, c))
}

/// The characters of `ps` one after the other, each with its colour.
pub open spec fn coloured(ps: Seq<PieceV>) -> Seq<((u8, u8, u8), char)>
    decreases ps.len(),
{
    if ps.len() == 0 {
        seq![]
    } else {
        coloured(ps.drop_last()) + in_colour(ps.last().0, ps.last().1)
    }
}

/// The coloured characters of `rows` one after the other.
pub open spec fn coloured_rows(rows: Seq<Seq<PieceV>>) -> Seq<((u8, u8, u8), char)>
    decreases rows.len(),
{
    if rows.len() == 0 {
        seq![]
    } else {
        coloured_rows(rows.drop_last()) + coloured(rows.last())
    }
}

/// Number of characters in a row of pieces.
pub open spec fn row_len(row: Seq<PieceV>) -> nat
    decreases row.len(),
{
    if row.len() == 0 {
        0
    } else {
        row_len(row.drop_last()) + row.last().1.len()
    }
}

/// The layout state of `wrap_chars`: every row but the last is full, and
/// the column is the length of the last row with the piece being built.
pub open spec fn wrap_state(rows: Seq<Seq<PieceV>>, chunk: Seq<char>, col: nat, width: nat) -> bool {
    &&& rows.len() >= 1
    &&& forall|k: int| 0 <= k < rows.len() - 1 ==> row_len(#[trigger] rows[k]) == width
    &&& col == row_len(rows.last()) + chunk.len()
    &&& col <= width
    &&& rows.len() > 1 ==> col >= 1
}

proof fn lemma_in_colour_add(fg: (u8, u8, u8), a: Seq<char>, b: Seq<char>)
    ensures
        in_colour(fg, a + b) == in_colour(fg, a) + in_colour(fg, b),
{
    assert(in_colour(fg, a + b) =~= in_colour(fg, a) + in_colour(fg, b));
}

proof fn lemma_coloured_push(row: Seq<PieceV>, p: PieceV)
    ensures
        coloured(row.push(p)) == coloured(row) + in_colour(p.0, p.1),
        row_len(row.push(p)) == row_len(row) + p.1.len(),
{
    assert(row.push(p).drop_last() =~= row);
}

proof fn lemma_coloured_rows_push(rows: Seq<Seq<PieceV>>, r: Seq<PieceV>)
    ensures
        coloured_rows(rows.push(r)) == coloured_rows(rows) + coloured(r),
{
    assert(rows.push(r).drop_last() =~= rows);
}

proof fn lemma_add_to_last(rows: Seq<Seq<PieceV>>, p: PieceV)
    requires
        rows.len() >= 1,
    ensures
        coloured_rows(add_to_last(rows, p)) == coloured_rows(rows) + in_colour(p.0, p.1),
        add_to_last(rows, p).len() == rows.len(),
        row_len(add_to_last(rows, p).last()) == row_len(rows.last()) + p.1.len(),
        forall|k: int| 0 <= k < rows.len() - 1 ==> #[trigger] add_to_last(rows, p)[k] == rows[k],
{
    let a = add_to_last(rows, p);
    assert(a.drop_last() =~= rows.drop_last());
    lemma_coloured_push(rows.last(), p);
    assert(coloured_rows(rows.drop_last()) + (coloured(rows.last()) + in_colour(p.0, p.1))
        =~= (coloured_rows(rows.drop_last()) + coloured(rows.last())) + in_colour(p.0, p.1));
}

proof fn lemma_wrap_chars(
    rows: Seq<Seq<PieceV>>,
    chunk: Seq<char>,
    col: nat,
    fg: (u8, u8, u8),
    text: Seq<char>,
    width: nat,
)
    requires
        width >= 1,
        wrap_state(rows, chunk, col, width),
    ensures
        ({
            let (r, ch, c) = wrap_chars(rows, chunk, col, fg, text, width);
            &&& wrap_state(r, ch, c, width)
            &&& coloured_rows(r) + in_colour(fg, ch) == coloured_rows(rows) + in_colour(fg, chunk)
                + in_colour(fg, text)
        }),
    decreases text.len(),
{
    if text.len() == 0 {
        assert(in_colour(fg, text) =~= Seq::<((u8, u8, u8), char)>::empty());
        assert(coloured_rows(rows) + in_colour(fg, chunk) + in_colour(fg, text) =~= coloured_rows(rows)
            + in_colour(fg, chunk));
    } else {
        lemma_wrap_chars(rows, chunk, col, fg, text.drop_last(), width);
        let (r, ch, c) = wrap_chars(rows, chunk, col, fg, text.drop_last(), width);
        let x = text.last();
        let before = coloured_rows(rows) + in_colour(fg, chunk);
        lemma_in_colour_add(fg, text.drop_last(), seq![x]);
        assert(text.drop_last() + seq![x] =~= text);
        assert(before + in_colour(fg, text) =~= (before + in_colour(fg, text.drop_last())) + in_colour(
            fg,
            seq![x],
        ));
        if c == width {
            let r2 = if ch.len() > 0 {
                add_to_last(r, (fg, ch))
            } else {
                r
            };
            if ch.len() > 0 {
                lemma_add_to_last(r, (fg, ch));
            } else {
                assert(in_colour(fg, ch) =~= Seq::<((u8, u8, u8), char)>::empty());
                assert(coloured_rows(r) + in_colour(fg, ch) =~= coloured_rows(r));
            }
            lemma_coloured_rows_push(r2, seq![]);
            assert(coloured(Seq::<PieceV>::empty()) =~= Seq::<((u8, u8, u8), char)>::empty());
            assert(coloured_rows(r2) + coloured(Seq::<PieceV>::empty()) =~= coloured_rows(r2));
            let r3 = r2.push(seq![]);
            assert(row_len(r3.last()) == 0) by {
                assert(r3.last() =~= Seq::<PieceV>::empty());
            }
            assert forall|k: int| 0 <= k < r3.len() - 1 implies row_len(#[trigger] r3[k]) == width by {
                assert(r3[k] == r2[k]);
                if k < r2.len() - 1 {
                    assert(r2[k] == r[k]);
                }
            }
        } else {
            lemma_in_colour_add(fg, ch, seq![x]);
            assert(ch + seq![x] =~= ch.push(x));
            assert(coloured_rows(r) + in_colour(fg, ch.push(x)) =~= (coloured_rows(r) + in_colour(fg, ch))
                + in_colour(fg, seq![x]));
        }
    }
}

/// Wrapping highlighted pieces keeps every character with its colour, in
/// order, and fills each row but the last to exactly `width` characters,
/// the last to at most `width`.
pub proof fn lemma_wrap_pieces(ps: Seq<PieceV>, width: nat)
    requires
        width >= 1,
    ensures
        coloured_rows(wrap_pieces(ps, width).0) == coloured(ps),
        wrap_state(wrap_pieces(ps, width).0, seq![], wrap_pieces(ps, width).1, width),
    decreases ps.len(),
{
    if ps.len() == 0 {
        let rows = seq![Seq::<PieceV>::empty()];
        assert(rows.drop_last() =~= Seq::<Seq<PieceV>>::empty());
        assert(rows.last() =~= Seq::<PieceV>::empty());
        assert(coloured(Seq::<PieceV>::empty()) =~= Seq::<((u8, u8, u8), char)>::empty());
        assert(coloured_rows(Seq::<Seq<PieceV>>::empty()) =~= Seq::<((u8, u8, u8), char)>::empty());
        assert(coloured_rows(rows) =~= Seq::<((u8, u8, u8), char)>::empty());
        assert(row_len(rows.last()) == 0);
    } else {
        lemma_wrap_pieces(ps.drop_last(), width);
        let (rows, col) = wrap_pieces(ps.drop_last(), width);
        let p = ps.last();
        assert(col == row_len(rows.last()) + Seq::<char>::empty().len());
        lemma_wrap_chars(rows, seq![], col, p.0, p.1, width);
        let (r, ch, c) = wrap_chars(rows, seq![], col, p.0, p.1, width);
        assert(in_colour(p.0, Seq::<char>::empty()) =~= Seq::<((u8, u8, u8), char)>::empty());
        assert(coloured_rows(rows) + in_colour(p.0, Seq::<char>::empty()) + in_colour(p.0, p.1)
            =~= coloured_rows(rows) + in_colour(p.0, p.1));
        if ch.len() > 0 {
            lemma_add_to_last(r, (p.0, ch));
            let r2 = add_to_last(r, (p.0, ch));
            assert forall|k: int| 0 <= k < r2.len() - 1 implies row_len(#[trigger] r2[k]) == width by {
                assert(r2[k] == r[k]);
            }
        } else {
            assert(in_colour(p.0, ch) =~= Seq::<((u8, u8, u8), char)>::empty());
            assert(coloured_rows(r) + in_colour(p.0, ch) =~= coloured_rows(r));
        }
    }
}

proof fn lemma_coloured_len(row: Seq<PieceV>)
    ensures
        coloured(row).len() == row_len(row),
    decreases row.len(),
{
    if row.len() > 0 {
        lemma_coloured_len(row.drop_last());
    }
}

proof fn lemma_rows_total(rows: Seq<Seq<PieceV>>, width: nat)
    requires
        rows.len() >= 1,
        forall|k: int| 0 <= k < rows.len() - 1 ==> row_len(#[trigger] rows[k]) == width,
    ensures
        coloured_rows(rows).len() == (rows.len() - 1) * width + row_len(rows.last()),
    decreases rows.len(),
{
    lemma_coloured_len(rows.last());
    assert(coloured_rows(rows) == coloured_rows(rows.drop_last()) + coloured(rows.last()));
    if rows.len() == 1 {
        assert(rows.drop_last() =~= Seq::<Seq<PieceV>>::empty());
        assert(coloured_rows(rows.drop_last()).len() == 0);
        assert((rows.len() - 1) * width == 0) by (nonlinear_arith)
            requires
                rows.len() == 1,
        ;
    } else {
        let d = rows.drop_last();
        assert forall|k: int| 0 <= k < d.len() - 1 implies row_len(#[trigger] d[k]) == width by {
            assert(d[k] == rows[k]);
        }
        lemma_rows_total(d, width);
        assert(d.last() == rows[rows.len() - 2]);
        let n = rows.len() as int;
        assert((n - 2) * width + width == (n - 1) * width) by (nonlinear_arith);
        assert(coloured_rows(d).len() == (n - 2) * width + width);
    }
}

/// Wrapping highlighted pieces takes one row for no text, else the text's
/// length divided by the width, rounded up.
pub proof fn lemma_wrap_rows_count(ps: Seq<PieceV>, width: nat)
    requires
        width >= 1,
    ensures
        wrap_pieces(ps, width).0.len() == (if coloured(ps).len() == 0 {
            1
        } else {
            ceil_div(coloured(ps).len(), width)
        }),
{
    lemma_wrap_pieces(ps, width);
    let (rows, col) = wrap_pieces(ps, width);
    lemma_rows_total(rows, width);
    let r = rows.len() as int;
    let c = col as int;
    let w = width as int;
    let total = coloured(ps).len() as int;
    assert(total == (r - 1) * w + c);
    if r == 1 {
        assert(total == c) by (nonlinear_arith)
            requires
                total == (r - 1) * w + c,
                r == 1,
        ;
        assert(total == 1 * w + 0 ==> total == w);
        if c == w {
            vstd::arithmetic::div_mod::lemma_fundamental_div_mod_converse(total, w, 1, 0);
        } else if c > 0 {
            vstd::arithmetic::div_mod::lemma_fundamental_div_mod_converse(total, w, 0, c);
        }
    } else {
        if c == w {
            assert((r - 1) * w + w == r * w) by (nonlinear_arith);
            vstd::arithmetic::div_mod::lemma_fundamental_div_mod_converse(total, w, r, 0);
        } else {
            vstd::arithmetic::div_mod::lemma_fundamental_div_mod_converse(total, w, r - 1, c);
        }
        assert(total > 0) by (nonlinear_arith)
            requires
                total == (r - 1) * w + c,
                r >= 2,
                w >= 1,
                c >= 1,
        ;
    }
}

fn copy_pieces(v: &Vec<StyledText>) -> (r: Vec<StyledText>)
    ensures
        pieces_view(r@) == pieces_view(v@),
{
    let mut out: Vec<StyledText> = Vec::new();
    let n = v.len();
    let mut i: usize = 0;
    while i < n
        invariant
            n == v@.len(),
            i <= n,
            pieces_view(out@) == pieces_view(v@).take(i as int),
        decreases n - i,
    {
        let x = StyledText { fg: v[i].fg, text: v[i].text.clone() };
        let ghost before = out@;
        out.push(x);
        assert(pieces_view(out@) =~= pieces_view(before).push(piece_view(x)));
        assert(piece_view(x) == pieces_view(v@)[i as int]);
        i += 1;
        assert(pieces_view(out@) =~= pieces_view(v@).take(i as int));
    }
    assert(pieces_view(v@).take(n as int) =~= pieces_view(v@));
    out
}

fn add_piece_to_last(rows: &mut Vec<Vec<StyledText>>, p: StyledText)
    requires
        old(rows)@.len() > 0,
    ensures
        rows_of_pieces(final(rows)@) == add_to_last(rows_of_pieces(old(rows)@), piece_view(p)),
        final(rows)@.len() == old(rows)@.len(),
{
    let k = rows.len() - 1;
    let mut last = copy_pieces(&rows[k]);
    let ghost pv = piece_view(p);
    let ghost lv = pieces_view(last@);
    last.push(p);
    assert(pieces_view(last@) =~= lv.push(pv));
    rows.set(k, last);
    assert(rows_of_pieces(rows@) =~= add_to_last(rows_of_pieces(old(rows)@), pv));
}

/// Splits highlighted pieces into rows of at most `width` characters
/// (see `wrap_pieces`).
pub fn wrap_styled(pieces: &Vec<StyledText>, width: usize) -> (r: Vec<Vec<StyledText>>)
    ensures
        rows_of_pieces(r@) == wrap_pieces(pieces_view(pieces@), if width >= 1 { width as nat } else { 1 }).0,
{
    let w = if width >= 1 {
        width
    } else {
        1
    };
    let mut rows: Vec<Vec<StyledText>> = vec![Vec::new()];
    let mut col: usize = 0;
    let ghost pv = pieces_view(pieces@);
    assert(pieces_view(rows@[0]@) =~= Seq::<PieceV>::empty());
    assert(rows_of_pieces(rows@) =~= seq![Seq::<PieceV>::empty()]);
    let n = pieces.len();
    let mut i: usize = 0;
    while i < n
        invariant
            n == pieces@.len(),
            i <= n,
            w >= 1,
            pv == pieces_view(pieces@),
            rows@.len() > 0,
            col <= w,
            (rows_of_pieces(rows@), col as nat) == wrap_pieces(pv.take(i as int), w as nat),
        decreases n - i,
    {
        assert(pv.take(i + 1).drop_last() =~= pv.take(i as int));
        assert(pv[i as int] == piece_view(pieces@[i as int]));
        let fg = pieces[i].fg;
        let text = chars_of(pieces[i].text.as_str());
        let mut chunk: Vec<char> = Vec::new();
        let ghost start_rows = rows_of_pieces(rows@);
        let ghost start_col = col as nat;
        let m = text.len();
        let mut j: usize = 0;
        while j < m
            invariant
                m == text@.len(),
                j <= m,
                w >= 1,
                rows@.len() > 0,
                col <= w,
                (rows_of_pieces(rows@), chunk@, col as nat) == wrap_chars(
                    start_rows,
                    seq![],
                    start_col,
                    fg,
                    text@.take(j as int),
                    w as nat,
                ),
            decreases m - j,
        {
            assert(text@.take(j + 1).drop_last() =~= text@.take(j as int));
            if col == w {
                if chunk.len() > 0 {
                    let piece = StyledText { fg, text: string_from_chars(chunk.as_slice()) };
                    add_piece_to_last(&mut rows, piece);
                }
                let ghost before = rows_of_pieces(rows@);
                let empty: Vec<StyledText> = Vec::new();
                assert(pieces_view(empty@) =~= Seq::<PieceV>::empty());
                rows.push(empty);
                assert(rows_of_pieces(rows@) =~= before.push(seq![]));
                chunk = Vec::new();
                col = 0;
            }
            chunk.push(text[j]);
            col += 1;
            j += 1;
        }
        assert(text@.take(m as int) =~= text@);
        if chunk.len() > 0 {
            let piece = StyledText { fg, text: string_from_chars(chunk.as_slice()) };
            add_piece_to_last(&mut rows, piece);
        }
        i += 1;
    }
    assert(pv.take(n as int) =~= pv);
    rows
}

/// `t` cut into consecutive pieces of `width` characters (the last one
/// shorter); an empty `t` gives one empty piece.
pub open spec fn chunks(t: Seq<char>, width: nat) -> Seq<Seq<char>>
    recommends
        width >= 1,
    decreases t.len(),
{
    if width == 0 || t.len() <= width {
        seq![t]
    } else {
        seq![t.take(width as int)] + chunks(t.skip(width as int), width)
    }
}

proof fn lemma_joined_prepend(a: Seq<char>, rest: Seq<Seq<char>>)
    ensures
        joined(seq![a] + rest) == a + joined(rest),
    decreases rest.len(),
{
    if rest.len() == 0 {
        assert(seq![a] + rest =~= seq![a]);
        assert(seq![a].drop_last() =~= Seq::<Seq<char>>::empty());
        assert(joined(Seq::<Seq<char>>::empty()) =~= Seq::<char>::empty());
        assert(seq![a].last() == a);
        assert(joined(rest) =~= Seq::<char>::empty());
        assert(a + joined(rest) =~= a);
        assert(Seq::<char>::empty() + a =~= a);
    } else {
        lemma_joined_prepend(a, rest.drop_last());
        assert((seq![a] + rest).drop_last() =~= seq![a] + rest.drop_last());
        assert((seq![a] + rest).last() == rest.last());
        assert(a + joined(rest) =~= (a + joined(rest.drop_last())) + rest.last());
    }
}

/// Cutting a text into rows keeps it whole: the rows, one after the other,
/// are the text, and none is wider than `width`.
pub proof fn lemma_chunks(t: Seq<char>, width: nat)
    requires
        width >= 1,
    ensures
        joined(chunks(t, width)) == t,
        all_fit(chunks(t, width), width),
        chunks(t, width).len() >= 1,
    decreases t.len(),
{
    if t.len() <= width {
        lemma_joined_prepend(t, Seq::<Seq<char>>::empty());
        assert(seq![t] + Seq::<Seq<char>>::empty() =~= seq![t]);
        assert(joined(Seq::<Seq<char>>::empty()) =~= Seq::<char>::empty());
        assert(t + Seq::<char>::empty() =~= t);
    } else {
        let rest = chunks(t.skip(width as int), width);
        lemma_chunks(t.skip(width as int), width);
        lemma_joined_prepend(t.take(width as int), rest);
        assert(t.take(width as int) + t.skip(width as int) =~= t);
        let c = seq![t.take(width as int)] + rest;
        assert forall|k: int| 0 <= k < c.len() implies (#[trigger] c[k]).len() <= width by {
            if k > 0 {
                assert(c[k] == rest[k - 1]);
            }
        }
    }
}

/// Cuts `text` into rows of at most `width` characters (one, for a width of
/// zero), as the compiled view shows a long line.
pub fn chunk_text(text: &str, width: usize) -> (r: Vec<String>)
    ensures
        views(r@) == chunks(text@, if width >= 1 { width as nat } else { 1 }),
{
    let w = if width >= 1 {
        width
    } else {
        1
    };
    let cs = chars_of(text);
    let n = cs.len();
    let mut out: Vec<String> = Vec::new();
    let mut start: usize = 0;
    assert(cs@.skip(0) =~= cs@);
    assert(views(out@) + chunks(cs@.skip(0), w as nat) =~= chunks(cs@, w as nat));
    loop
        invariant
            cs@ == text@,
            w == (if width >= 1 { width } else { 1 }),
            n == cs@.len(),
            w >= 1,
            start <= n,
            views(out@) + chunks(cs@.skip(start as int), w as nat) == chunks(cs@, w as nat),
        decreases n - start,
    {
        let rest = n - start;
        let take = if rest <= w {
            rest
        } else {
            w
        };
        let mut piece: Vec<char> = Vec::new();
        let mut k: usize = 0;
        while k < take
            invariant
                n == cs@.len(),
                start + take <= n,
                k <= take,
                piece@ == cs@.subrange(start as int, start + k),
            decreases take - k,
        {
            piece.push(cs[start + k]);
            k += 1;
            assert(piece@ =~= cs@.subrange(start as int, start + k));
        }
        let s = string_from_chars(piece.as_slice());
        let ghost tail = cs@.skip(start as int);
        proof {
            lemma_views_push(out@, s);
        }
        out.push(s);
        if rest <= w {
            assert(piece@ =~= tail);
            assert(views(out@) =~= chunks(cs@, w as nat));
            assert((if width >= 1 { width as nat } else { 1nat }) == w as nat);
            return out;
        }
        assert(piece@ =~= tail.take(w as int));
        assert(tail.skip(w as int) =~= cs@.skip(start + w));
        assert(views(out@) + chunks(cs@.skip(start + w), w as nat) =~= chunks(cs@, w as nat));
        start = start + w;
    }
}

} // verus!
