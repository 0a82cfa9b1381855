//! The prompt that gathers the comments of every file in the comment store.
use vstd::prelude::*;
use crate::text::{chars_eq, chars_of, push_signed_decimal, push_str, signed_decimal, string_from_chars, views};

verus! {

/// A stored comment: the file, the 0-based line and the text.
pub struct Annotation {
    pub file_path: String,
    pub line_number: i64,
    pub comment: String,
}

/// The lines of a file, as read when the prompt is built.
pub struct SourceFile {
    pub path: String,
    pub lines: Vec<String>,
}

pub type AnnotationV = (Seq<char>, i64, Seq<char>);

pub type SourceV = (Seq<char>, Seq<Seq<char>>);

pub open spec fn annotation_view(a: Annotation) -> AnnotationV {
    (a.file_path@, a.line_number, a.comment@)
}

pub open spec fn annotations_view(s: Seq<Annotation>) -> Seq<AnnotationV> {
    s.map_values(|a: Annotation| annotation_view(a))
}

pub open spec fn sources_view(s: Seq<SourceFile>) -> Seq<SourceV> {
    s.map_values(|f: SourceFile| (f.path@, views(f.lines@)))
}

/// The lines of the first source read from `path`; none when it was not read.
pub open spec fn source_lines(sources: Seq<SourceV>, path: Seq<char>) -> Seq<Seq<char>>
    decreases sources.len(),
{
    if sources.len() == 0 {
        seq![]
    } else if sources[0].0 == path {
        sources[0].1
    } else {
        source_lines(sources.drop_first(), path)
    }
}

/// The text of line `ln` of the file at `path`, empty where there is none.
pub open spec fn code_at(sources: Seq<SourceV>, path: Seq<char>, ln: i64) -> Seq<char> {
    let ls = source_lines(sources, path);
    if 0 <= ln < ls.len() {
        ls[ln as int]
    } else {
        seq![]
    }
}

/// The prompt entry for one stored comment.
pub open spec fn annotation_entry(ln: i64, code: Seq<char>, comment: Seq<char>) -> Seq<char> {
    "\nLine "@ + signed_decimal(ln + 1) + " (`"@ + code + "`):\n"@ + comment + "\n"@
}

/// The entries for `rows`, a `### path` heading before each row whose file
/// differs from that of the row before it (the first row's, unless its path
/// is empty).
pub open spec fn annotation_entries(rows: Seq<AnnotationV>, sources: Seq<SourceV>) -> Seq<char>
    decreases rows.len(),
{
    if rows.len() == 0 {
        seq![]
    } else {
        let r = rows.last();
        let prev_path = if rows.len() >= 2 {
            rows[rows.len() - 2].0
        } else {
            seq![]
        };
        let heading = if r.0 != prev_path {
            "\n### "@ + r.0 + "\n"@
        } else {
            seq![]
        };
        annotation_entries(rows.drop_last(), sources) + heading + annotation_entry(
            r.1,
            code_at(sources, r.0, r.1),
            r.2,
        )
    }
}

/// The prompt asking for a plan to address every stored comment.
pub open spec fn annotations_prompt_spec(rows: Seq<AnnotationV>, sources: Seq<SourceV>) -> Seq<char> {
    "I found the following issues across multiple files. Please create a plan to fix them:\n"@
        + annotation_entries(rows, sources)
}

/// No line number is `i64::MAX`, so that every 1-based number fits.
pub open spec fn line_numbers_fit(rows: Seq<AnnotationV>) -> bool {
    forall|k: int| 0 <= k < rows.len() ==> (#[trigger] rows[k]).1 < i64::MAX
}

fn find_source<'a>(sources: &'a Vec<SourceFile>, path: &[char]) -> (r: Option<&'a SourceFile>)
    ensures
        match r {
            Some(f) => views(f.lines@) == source_lines(sources_view(sources@), path@),
            None => source_lines(sources_view(sources@), path@) == Seq::<Seq<char>>::empty(),
        },
{
    let ghost sv = sources_view(sources@);
    let n = sources.len();
    let mut i: usize = 0;
    assert(sv.skip(0) =~= sv);
    while i < n
        invariant
            n == sources@.len(),
            i <= n,
            sv == sources_view(sources@),
            source_lines(sv, path@) == source_lines(sv.skip(i as int), path@),
        decreases n - i,
    {
        let ghost rest = sv.skip(i as int);
        assert(rest[0] == (sources@[i as int].path@, views(sources@[i as int].lines@)));
        assert(rest.drop_first() =~= sv.skip(i + 1));
        let p = chars_of(sources[i].path.as_str());
        if chars_eq(p.as_slice(), path) {
            return Some(&sources[i]);
        }
        i += 1;
    }
    assert(sv.skip(n as int) =~= Seq::<SourceV>::empty());
    None
}

fn push_annotation_entry(out: &mut Vec<char>, row: &Annotation, sources: &Vec<SourceFile>)
    requires
        row.line_number < i64::MAX,
    ensures
        final(out)@ == old(out)@ + annotation_entry(
            row.line_number,
            code_at(sources_view(sources@), row.file_path@, row.line_number),
            row.comment@,
        ),
{
    let path = chars_of(row.file_path.as_str());
    push_str(out, "\nLine ");
    push_signed_decimal(out, row.line_number + 1);
    push_str(out, " (`");
    let ghost before_code = out@;
    match find_source(sources, path.as_slice()) {
        Some(f) => {
            if row.line_number >= 0 && (row.line_number as u64) < (f.lines.len() as u64) {
                let k = row.line_number as usize;
                assert(views(f.lines@)[k as int] == f.lines@[k as int]@);
                push_str(out, f.lines[k].as_str());
            }
        },
        None => {},
    }
    assert(out@ == before_code + code_at(sources_view(sources@), row.file_path@, row.line_number));
    push_str(out, "`):\n");
    push_str(out, row.comment.as_str());
    push_str(out, "\n");
    assert(out@ =~= old(out)@ + annotation_entry(
        row.line_number,
        code_at(sources_view(sources@), row.file_path@, row.line_number),
        row.comment@,
    ));
}

/// Builds the prompt (see `annotations_prompt_spec`).
pub fn annotations_prompt(rows: &Vec<Annotation>, sources: &Vec<SourceFile>) -> (r: String)
    requires
        line_numbers_fit(annotations_view(rows@)),
    ensures
        r@ == annotations_prompt_spec(annotations_view(rows@), sources_view(sources@)),
{
    let ghost rv = annotations_view(rows@);
    let ghost sv = sources_view(sources@);
    let mut out: Vec<char> = Vec::new();
    push_str(
        &mut out,
        "I found the following issues across multiple files. Please create a plan to fix them:\n",
    );
    let ghost head = out@;
    let mut current: Vec<char> = Vec::new();
    let n = rows.len();
    let mut i: usize = 0;
    while i < n
        invariant
            n == rows@.len(),
            i <= n,
            rv == annotations_view(rows@),
            sv == sources_view(sources@),
            line_numbers_fit(rv),
            current@ == (if i == 0 {
                Seq::<char>::empty()
            } else {
                rv[i - 1].0
            }),
            out@ == head + annotation_entries(rv.take(i as int), sv),
        decreases n - i,
    {
        let row = &rows[i];
        assert(rv[i as int] == annotation_view(rows@[i as int]));
        assert(rv.take(i + 1).drop_last() =~= rv.take(i as int));
        assert(rv[i as int].1 < i64::MAX);
        let path = chars_of(row.file_path.as_str());
        let ghost before = out@;
        let same = chars_eq(path.as_slice(), current.as_slice());
        if !same {
            push_str(&mut out, "\n### ");
            push_str(&mut out, row.file_path.as_str());
            push_str(&mut out, "\n");
        }
        push_annotation_entry(&mut out, row, sources);
        proof {
            let t = rv.take(i + 1);
            assert(t.last() == rv[i as int]);
            if i >= 1 {
                assert(t[t.len() - 2] == rv[i - 1]);
            }
            assert(out@ =~= head + annotation_entries(t, sv));
        }
        current = path;
        i += 1;
    }
    assert(rv.take(n as int) =~= rv);
    string_from_chars(out.as_slice())
}

} // verus!
