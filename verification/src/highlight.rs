//! Syntax highlighting of the open file, done by `syntect`.
use vstd::prelude::*;
use syntect::easy::HighlightLines;
use syntect::highlighting::{Theme, ThemeSet};
use syntect::parsing::SyntaxSet;
use crate::editor::StyledText;
use crate::layout::{rows_of_pieces, PieceV};
use crate::path::path_ext;
use crate::text::views;

verus! {

#[verifier::external_type_specification]
#[verifier::external_body]
pub struct ExSyntaxSet(SyntaxSet);

#[verifier::external_type_specification]
#[verifier::external_body]
pub struct ExTheme(Theme);

/// The syntax definitions and the colour theme used for highlighting:
/// always `syntect`'s defaults (see `Highlighter::new`).
pub struct Highlighter {
    syntaxes: SyntaxSet,
    theme: Theme,
}

/// Loads `syntect`'s default syntax definitions (without newlines) with
/// `SyntaxSet::load_defaults_nonewlines`. Nothing is claimed of the result.
#[verifier::external_body]
fn default_syntaxes() -> SyntaxSet {
    SyntaxSet::load_defaults_nonewlines()
}

/// Loads `syntect`'s default themes with `ThemeSet::load_defaults` and takes
/// `base16-ocean.dark`, which the documentation lists among them. Nothing
/// is claimed of the result.
#[verifier::external_body]
fn default_theme() -> Theme {
    ThemeSet::load_defaults().themes["base16-ocean.dark"].clone()
}

impl Highlighter {
    /// The default syntaxes with the `base16-ocean.dark` theme.
    pub fn new() -> Highlighter {
        Highlighter { syntaxes: default_syntaxes(), theme: default_theme() }
    }
}

/// What `syntect` gives, with its default syntaxes (without newlines) and
/// the `base16-ocean.dark` theme, for `lines` highlighted one after the other
/// as a file with extension `ext`: per line, the pieces as foreground colour
/// and text.
pub uninterp spec fn syntect_pieces(ext: Seq<char>, lines: Seq<Seq<char>>) -> Seq<Seq<PieceV>>;

/// Highlights `lines`, one after the other, as a file with extension `ext`
/// (plain text when no syntax claims it): `SyntaxSet::find_syntax_by_extension`
/// (else `find_syntax_plain_text`), `HighlightLines::new`, then
/// `HighlightLines::highlight_line` on each line, an error giving no pieces,
/// each piece converted to its foreground colour and text.
///
/// A `Highlighter` always holds the default syntaxes and theme, and the
/// parse state runs from line to line, so the result depends on `ext` and
/// the whole of `lines` alone: the contract names it `syntect_pieces` and
/// says, besides, that there is one list of pieces per line, as the source
/// maps over the lines.
#[verifier::external_body]
fn highlight_all(hl: &Highlighter, ext: &str, lines: &Vec<String>) -> (r: Vec<Vec<StyledText>>)
    ensures
        r@.len() == lines@.len(),
        rows_of_pieces(r@) == syntect_pieces(ext@, views(lines@)),
{
    let ss = &hl.syntaxes;
    let syntax = ss.find_syntax_by_extension(ext).unwrap_or_else(|| ss.find_syntax_plain_text());
    let mut h = HighlightLines::new(syntax, &hl.theme);
    lines.iter().map(|l| h.highlight_line(l, ss).unwrap_or_default().into_iter().map(|(st, t)|
        StyledText { fg: (st.foreground.r, st.foreground.g, st.foreground.b), text: t.to_string() }
    ).collect()).collect()
}

/// The highlighting of the lines of the file at `path`: none without a
/// path, else the pieces for the file's extension.
pub open spec fn highlighting(path: Seq<char>, lines: Seq<Seq<char>>) -> Seq<Seq<PieceV>> {
    if path.len() == 0 {
        seq![]
    } else {
        syntect_pieces(path_ext(path), lines)
    }
}

/// The highlighted pieces of each of `lines` of the file at `path`; none for
/// a file without a path.
pub fn highlight_file(hl: &Highlighter, path: &String, lines: &Vec<String>) -> (r: Vec<Vec<StyledText>>)
    ensures
        r@.len() == (if path@.len() == 0 {
            0
        } else {
            lines@.len()
        }),
        rows_of_pieces(r@) == highlighting(path@, views(lines@)),
{
    if path.as_str().is_empty() {
        let r: Vec<Vec<StyledText>> = Vec::new();
        assert(rows_of_pieces(r@) =~= Seq::<Seq<PieceV>>::empty());
        return r;
    }
    let ext = crate::path::path_extension(path.as_str());
    highlight_all(hl, ext.as_str(), lines)
}

} // verus!
