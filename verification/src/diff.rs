//! The side-by-side diff view: the working copy of a file against its
//! committed version, as rows pairing old and new lines.
use vstd::prelude::*;
use similar::ChangeTag as Tag;
use crate::text::{chars_eq, chars_of, push_str, string_from_chars, views};

verus! {

/// Whether a diff row shows unchanged context or a change.
#[derive(Clone, Copy, PartialEq, Eq, Structural, Debug)]
pub enum DiffRowKind {
    Context,
    Changed,
}

/// One row of the side-by-side diff: the old line and the new line, each
/// with its 1-based number, where the side has one.
#[derive(Clone, Debug)]
pub struct DiffRow {
    pub old: Option<(usize, String)>,
    pub new: Option<(usize, String)>,
    pub kind: DiffRowKind,
}

/// The abstract form of a numbered line of a diff row.
pub type SideV = Option<(usize, Seq<char>)>;

/// The abstract form of a diff row.
pub type RowV = (SideV, SideV, DiffRowKind);

pub open spec fn side_view(s: Option<(usize, String)>) -> SideV {
    match s {
        Some(p) => Some((p.0, p.1@)),
        None => None,
    }
}

pub open spec fn row_view(r: DiffRow) -> RowV {
    (side_view(r.old), side_view(r.new), r.kind)
}

pub open spec fn rows_view(rs: Seq<DiffRow>) -> Seq<RowV> {
    rs.map_values(|r: DiffRow| row_view(r))
}

/// What a single line change of a line diff records.
#[derive(Clone, Copy, PartialEq, Eq, Structural, Debug)]
pub enum ChangeKind {
    Equal,
    Delete,
    Insert,
}

/// A line of a line diff: its kind, its 0-based index on the old and on the
/// new side (where it stands there), and its text with its line ending.
pub struct LineChange {
    pub kind: ChangeKind,
    pub old_index: Option<usize>,
    pub new_index: Option<usize>,
    pub value: String,
}

/// The abstract form of a line change.
pub type ChangeV = (ChangeKind, Option<usize>, Option<usize>, Seq<char>);

pub open spec fn change_view(c: LineChange) -> ChangeV {
    (c.kind, c.old_index, c.new_index, c.value@)
}

pub open spec fn op_view(op: Seq<LineChange>) -> Seq<ChangeV> {
    op.map_values(|c: LineChange| change_view(c))
}

pub open spec fn ops_view(ops: Seq<Vec<LineChange>>) -> Seq<Seq<ChangeV>> {
    ops.map_values(|op: Vec<LineChange>| op_view(op@))
}

/// What `similar` yields for a line diff of `old` against `new`: the changes
/// of each operation of the groups that `grouped_ops(context)` forms.
pub uninterp spec fn line_diff_ops(old: Seq<char>, new: Seq<char>, context: usize) -> Seq<
    Seq<ChangeV>,
>;

/// Line-diffs `old` against `new` with `similar::TextDiff::from_lines`, groups
/// the operations with `grouped_ops(context)` and lists the changes of each
/// operation with `iter_changes`, converting each `Change` field by field.
///
/// The diff is computed with the default configuration, which has no deadline,
/// so the result depends on the two texts and `context` alone; the contract
/// names it `line_diff_ops` and says nothing more of it.
#[verifier::external_body]
fn similar_line_ops(old: &str, new: &str, context: usize) -> (r: Vec<Vec<LineChange>>)
    ensures
        ops_view(r@) == line_diff_ops(old@, new@, context),
{
    let diff = similar::TextDiff::from_lines(old, new);
    let mut r = Vec::new();
    for op in diff.grouped_ops(context).concat() {
        let mut cs = Vec::new();
        for c in diff.iter_changes(&op) {
            let kind = match c.tag() { Tag::Equal => ChangeKind::Equal, Tag::Delete => ChangeKind::Delete, Tag::Insert => ChangeKind::Insert };
            cs.push(LineChange { kind, old_index: c.old_index(), new_index: c.new_index(), value: c.value().to_string() });
        }
        r.push(cs);
    }
    r
}

/// Lines of context that the diff keeps around each change.
pub const DIFF_CONTEXT: usize = 3;

/// `s` without its trailing `\n` characters.
pub open spec fn trim_newlines(s: Seq<char>) -> Seq<char>
    decreases s.len(),
{
    if s.len() > 0 && s.last() == '\n' {
        trim_newlines(s.drop_last())
    } else {
        s
    }
}

pub open spec fn idx0(o: Option<usize>) -> usize {
    match o {
        Some(i) => i,
        None => 0,
    }
}

/// The unchanged lines among `cs`: old index, new index and text.
pub open spec fn contexts(cs: Seq<ChangeV>) -> Seq<(usize, usize, Seq<char>)>
    decreases cs.len(),
{
    if cs.len() == 0 {
        seq![]
    } else {
        let c = cs.last();
        let r = contexts(cs.drop_last());
        if c.0 == ChangeKind::Equal {
            r.push((idx0(c.1), idx0(c.2), trim_newlines(c.3)))
        } else {
            r
        }
    }
}

/// The deleted lines among `cs`: old index and text.
pub open spec fn deletes(cs: Seq<ChangeV>) -> Seq<(usize, Seq<char>)>
    decreases cs.len(),
{
    if cs.len() == 0 {
        seq![]
    } else {
        let c = cs.last();
        let r = deletes(cs.drop_last());
        if c.0 == ChangeKind::Delete {
            r.push((idx0(c.1), trim_newlines(c.3)))
        } else {
            r
        }
    }
}

/// The inserted lines among `cs`: new index and text.
pub open spec fn inserts(cs: Seq<ChangeV>) -> Seq<(usize, Seq<char>)>
    decreases cs.len(),
{
    if cs.len() == 0 {
        seq![]
    } else {
        let c = cs.last();
        let r = inserts(cs.drop_last());
        if c.0 == ChangeKind::Insert {
            r.push((idx0(c.2), trim_newlines(c.3)))
        } else {
            r
        }
    }
}

/// The `i`-th entry of `s`, numbered from 1, if there is one.
pub open spec fn numbered_at(s: Seq<(usize, Seq<char>)>, i: int) -> SideV {
    if 0 <= i < s.len() {
        Some(((s[i].0 + 1) as usize, s[i].1))
    } else {
        None
    }
}

/// The rows of one diff operation: first its context lines, then its
/// deleted and inserted lines paired up in order.
pub open spec fn op_rows(cs: Seq<ChangeV>) -> Seq<RowV> {
    let c = contexts(cs);
    let d = deletes(cs);
    let n = inserts(cs);
    let m = if d.len() >= n.len() {
        d.len()
    } else {
        n.len()
    };
    Seq::new(
        c.len(),
        |i: int|
            (
                Some(((c[i].0 + 1) as usize, c[i].2)),
                Some(((c[i].1 + 1) as usize, c[i].2)),
                DiffRowKind::Context,
            ),
    ) + Seq::new(m, |i: int| (numbered_at(d, i), numbered_at(n, i), DiffRowKind::Changed))
}

/// The rows of all operations, one operation after the other.
pub open spec fn ops_rows(ops: Seq<Seq<ChangeV>>) -> Seq<RowV>
    decreases ops.len(),
{
    if ops.len() == 0 {
        seq![]
    } else {
        ops_rows(ops.drop_last()) + op_rows(ops.last())
    }
}

/// Every new-side line number of `rows` is at least 1.
pub open spec fn numbered_from_one(rows: Seq<DiffRow>) -> bool {
    forall|k: int| 0 <= k < rows.len() ==> ((#[trigger] rows[k]).new matches Some(p) ==> p.0 >= 1)
}

/// No index in `ops` is `usize::MAX`, so that every line number fits.
pub open spec fn indices_fit(ops: Seq<Seq<ChangeV>>) -> bool {
    forall|i: int, j: int|
        0 <= i < ops.len() && 0 <= j < ops[i].len() ==> idx0(#[trigger] ops[i][j].1) < usize::MAX
            && idx0(ops[i][j].2) < usize::MAX
}

fn trim_trailing_newlines(s: &String) -> (r: String)
    ensures
        r@ == trim_newlines(s@),
{
    let mut cs = chars_of(s.as_str());
    while cs.len() > 0 && cs[cs.len() - 1] == '\n'
        invariant
            trim_newlines(cs@) == trim_newlines(s@),
        decreases cs.len(),
    {
        let ghost before = cs@;
        cs.pop();
        assert(cs@ =~= before.drop_last());
    }
    string_from_chars(cs.as_slice())
}

fn opt_index(o: Option<usize>) -> (r: usize)
    ensures
        r == idx0(o),
{
    match o {
        Some(i) => i,
        None => 0,
    }
}

fn numbered(s: &Vec<(usize, String)>, i: usize) -> (r: Option<(usize, String)>)
    requires
        forall|k: int| 0 <= k < s@.len() ==> (#[trigger] s@[k]).0 < usize::MAX,
    ensures
        side_view(r) == numbered_at(s@.map_values(|p: (usize, String)| (p.0, p.1@)), i as int),
{
    if i < s.len() {
        let (n, t) = &s[i];
        Some((*n + 1, t.clone()))
    } else {
        None
    }
}

/// The rows of one operation (see `op_rows`).
pub fn op_to_rows(cs: &Vec<LineChange>, rows: &mut Vec<DiffRow>)
    requires
        forall|j: int|
            0 <= j < cs@.len() ==> idx0((#[trigger] cs@[j]).old_index) < usize::MAX && idx0(
                cs@[j].new_index,
            ) < usize::MAX,
    ensures
        rows_view(final(rows)@) == rows_view(old(rows)@) + op_rows(op_view(cs@)),
        numbered_from_one(old(rows)@) ==> numbered_from_one(final(rows)@),
{
    let mut ctx: Vec<(usize, usize, String)> = Vec::new();
    let mut dels: Vec<(usize, String)> = Vec::new();
    let mut ins: Vec<(usize, String)> = Vec::new();
    let ghost cv = op_view(cs@);
    let n = cs.len();
    let mut i: usize = 0;
    while i < n
        invariant
            n == cs@.len(),
            i <= n,
            cv == op_view(cs@),
            forall|j: int|
                0 <= j < cs@.len() ==> idx0((#[trigger] cs@[j]).old_index) < usize::MAX && idx0(
                    cs@[j].new_index,
                ) < usize::MAX,
            ctx@.map_values(|p: (usize, usize, String)| (p.0, p.1, p.2@)) == contexts(
                cv.take(i as int),
            ),
            dels@.map_values(|p: (usize, String)| (p.0, p.1@)) == deletes(cv.take(i as int)),
            ins@.map_values(|p: (usize, String)| (p.0, p.1@)) == inserts(cv.take(i as int)),
            forall|k: int| 0 <= k < dels@.len() ==> (#[trigger] dels@[k]).0 < usize::MAX,
            forall|k: int| 0 <= k < ins@.len() ==> (#[trigger] ins@[k]).0 < usize::MAX,
            forall|k: int|
                0 <= k < ctx@.len() ==> (#[trigger] ctx@[k]).0 < usize::MAX && ctx@[k].1
                    < usize::MAX,
        decreases n - i,
    {
        assert(cv.take(i + 1).drop_last() =~= cv.take(i as int));
        assert(cv[i as int] == change_view(cs@[i as int]));
        let c = &cs[i];
        let text = trim_trailing_newlines(&c.value);
        match c.kind {
            ChangeKind::Equal => {
                let ghost before = ctx@;
                ctx.push((opt_index(c.old_index), opt_index(c.new_index), text));
                assert(ctx@.map_values(|p: (usize, usize, String)| (p.0, p.1, p.2@))
                    =~= before.map_values(|p: (usize, usize, String)| (p.0, p.1, p.2@)).push(
                    (idx0(c.old_index), idx0(c.new_index), trim_newlines(c.value@)),
                ));
            },
            ChangeKind::Delete => {
                let ghost before = dels@;
                dels.push((opt_index(c.old_index), text));
                assert(dels@.map_values(|p: (usize, String)| (p.0, p.1@)) =~= before.map_values(
                    |p: (usize, String)| (p.0, p.1@),
                ).push((idx0(c.old_index), trim_newlines(c.value@))));
            },
            ChangeKind::Insert => {
                let ghost before = ins@;
                ins.push((opt_index(c.new_index), text));
                assert(ins@.map_values(|p: (usize, String)| (p.0, p.1@)) =~= before.map_values(
                    |p: (usize, String)| (p.0, p.1@),
                ).push((idx0(c.new_index), trim_newlines(c.value@))));
            },
        }
        i += 1;
    }
    assert(cv.take(n as int) =~= cv);
    let ghost cs_ctx = contexts(cv);
    let ghost d = deletes(cv);
    let ghost nn = inserts(cv);
    let ghost start = rows_view(rows@);
    let mut k: usize = 0;
    while k < ctx.len()
        invariant
            k <= ctx@.len(),
            cs_ctx == ctx@.map_values(|p: (usize, usize, String)| (p.0, p.1, p.2@)),
            forall|q: int|
                0 <= q < ctx@.len() ==> (#[trigger] ctx@[q]).0 < usize::MAX && ctx@[q].1
                    < usize::MAX,
            numbered_from_one(old(rows)@) ==> numbered_from_one(rows@),
            rows_view(rows@) == start + Seq::new(
                k as nat,
                |q: int|
                    (
                        Some(((cs_ctx[q].0 + 1) as usize, cs_ctx[q].2)),
                        Some(((cs_ctx[q].1 + 1) as usize, cs_ctx[q].2)),
                        DiffRowKind::Context,
                    ),
            ),
        decreases ctx@.len() - k,
    {
        let (o, nw, t) = &ctx[k];
        let row = DiffRow { old: Some((*o + 1, t.clone())), new: Some((*nw + 1, t.clone())), kind: DiffRowKind::Context };
        let ghost before = rows@;
        rows.push(row);
        k += 1;
        assert(rows_view(rows@) =~= rows_view(before).push(row_view(row)));
        assert(rows_view(rows@) =~= start + Seq::new(
            k as nat,
            |q: int|
                (
                    Some(((cs_ctx[q].0 + 1) as usize, cs_ctx[q].2)),
                    Some(((cs_ctx[q].1 + 1) as usize, cs_ctx[q].2)),
                    DiffRowKind::Context,
                ),
        ));
    }
    let ghost mid = rows_view(rows@);
    let m = if dels.len() >= ins.len() { dels.len() } else { ins.len() };
    let mut k: usize = 0;
    while k < m
        invariant
            k <= m,
            m == (if d.len() >= nn.len() { d.len() } else { nn.len() }),
            d == dels@.map_values(|p: (usize, String)| (p.0, p.1@)),
            nn == ins@.map_values(|p: (usize, String)| (p.0, p.1@)),
            forall|q: int| 0 <= q < dels@.len() ==> (#[trigger] dels@[q]).0 < usize::MAX,
            forall|q: int| 0 <= q < ins@.len() ==> (#[trigger] ins@[q]).0 < usize::MAX,
            numbered_from_one(old(rows)@) ==> numbered_from_one(rows@),
            rows_view(rows@) == mid + Seq::new(
                k as nat,
                |q: int| (numbered_at(d, q), numbered_at(nn, q), DiffRowKind::Changed),
            ),
        decreases m - k,
    {
        let row = DiffRow { old: numbered(&dels, k), new: numbered(&ins, k), kind: DiffRowKind::Changed };
        let ghost before = rows@;
        rows.push(row);
        k += 1;
        assert(rows_view(rows@) =~= rows_view(before).push(row_view(row)));
        assert(rows_view(rows@) =~= mid + Seq::new(
            k as nat,
            |q: int| (numbered_at(d, q), numbered_at(nn, q), DiffRowKind::Changed),
        ));
    }
    assert(rows_view(rows@) =~= start + op_rows(cv));
}

/// The rows of all operations (see `ops_rows`).
pub fn ops_to_rows(ops: &Vec<Vec<LineChange>>) -> (r: Vec<DiffRow>)
    requires
        indices_fit(ops_view(ops@)),
    ensures
        rows_view(r@) == ops_rows(ops_view(ops@)),
        numbered_from_one(r@),
{
    let mut rows: Vec<DiffRow> = Vec::new();
    let ghost ov = ops_view(ops@);
    let n = ops.len();
    let mut i: usize = 0;
    while i < n
        invariant
            n == ops@.len(),
            i <= n,
            ov == ops_view(ops@),
            indices_fit(ov),
            rows_view(rows@) == ops_rows(ov.take(i as int)),
            numbered_from_one(rows@),
        decreases n - i,
    {
        assert(ov.take(i + 1).drop_last() =~= ov.take(i as int));
        assert(ov[i as int] == op_view(ops@[i as int]@));
        proof {
            assert forall|j: int| 0 <= j < ops@[i as int]@.len() implies idx0(
                (#[trigger] ops@[i as int]@[j]).old_index,
            ) < usize::MAX && idx0(ops@[i as int]@[j].new_index) < usize::MAX by {
                assert(ov[i as int] == op_view(ops@[i as int]@));
                assert(ov[i as int][j] == change_view(ops@[i as int]@[j]));
                assert(idx0(ov[i as int][j].1) < usize::MAX);
            }
        }
        op_to_rows(&ops[i], &mut rows);
        i += 1;
    }
    assert(ov.take(n as int) =~= ov);
    rows
}

fn indices_ok(ops: &Vec<Vec<LineChange>>) -> (b: bool)
    ensures
        b == indices_fit(ops_view(ops@)),
{
    let ghost ov = ops_view(ops@);
    let n = ops.len();
    let mut i: usize = 0;
    while i < n
        invariant
            n == ops@.len(),
            i <= n,
            ov == ops_view(ops@),
            forall|a: int, j: int|
                0 <= a < i && 0 <= j < ov[a].len() ==> idx0(#[trigger] ov[a][j].1) < usize::MAX
                    && idx0(ov[a][j].2) < usize::MAX,
        decreases n - i,
    {
        let op = &ops[i];
        let m = op.len();
        let mut j: usize = 0;
        while j < m
            invariant
                n == ops@.len(),
                i < n,
                m == op@.len(),
                op == ops@[i as int],
                ov == ops_view(ops@),
                j <= m,
                forall|a: int, b: int|
                    0 <= a < i && 0 <= b < ov[a].len() ==> idx0(#[trigger] ov[a][b].1)
                        < usize::MAX && idx0(ov[a][b].2) < usize::MAX,
                forall|b: int|
                    0 <= b < j ==> idx0(#[trigger] ov[i as int][b].1) < usize::MAX && idx0(
                        ov[i as int][b].2,
                    ) < usize::MAX,
            decreases m - j,
        {
            assert(ov[i as int][j as int] == change_view(op@[j as int]));
            if opt_index(op[j].old_index) == usize::MAX || opt_index(op[j].new_index)
                == usize::MAX {
                assert(idx0(ov[i as int][j as int].1) == usize::MAX || idx0(ov[i as int][j as int].2)
                    == usize::MAX);
                return false;
            }
            j += 1;
        }
        i += 1;
    }
    true
}

/// The text of `lines` as a file holds it: each line followed by `\n`
/// (a lone `\n` when there are no lines), as `join("\n") + "\n"` builds it.
pub open spec fn file_text(lines: Seq<Seq<char>>) -> Seq<char>
    decreases lines.len(),
{
    if lines.len() == 0 {
        seq!['\n']
    } else if lines.len() == 1 {
        lines[0] + seq!['\n']
    } else {
        file_text(lines.drop_last()) + lines.last() + seq!['\n']
    }
}

fn join_lines(lines: &Vec<String>) -> (r: String)
    ensures
        r@ == file_text(views(lines@)),
{
    let mut out: Vec<char> = Vec::new();
    let n = lines.len();
    if n == 0 {
        out.push('\n');
        assert(out@ =~= file_text(views(lines@)));
        return string_from_chars(out.as_slice());
    }
    let mut i: usize = 0;
    while i < n
        invariant
            n == lines@.len(),
            n > 0,
            i <= n,
            i == 0 ==> out@.len() == 0,
            i > 0 ==> out@ == file_text(views(lines@).take(i as int)),
        decreases n - i,
    {
        let ghost before = out@;
        push_str(&mut out, lines[i].as_str());
        out.push('\n');
        i += 1;
        proof {
            let t = views(lines@).take(i as int);
            assert(t.drop_last() =~= views(lines@).take(i - 1));
            assert(t.last() == lines@[i - 1]@);
            if i == 1 {
                assert(out@ =~= file_text(t));
            } else {
                assert(out@ =~= file_text(t));
            }
        }
    }
    assert(views(lines@).take(n as int) =~= views(lines@));
    string_from_chars(out.as_slice())
}

/// The rows showing `lines` against `head`, the committed text: none when
/// both hold the same text, or when both are empty; else the rows of the
/// line diff with three lines of context.
pub open spec fn diff_rows_spec(head: Seq<char>, lines: Seq<Seq<char>>) -> Seq<RowV> {
    let current = file_text(lines);
    if head == current || (head.len() == 0 && lines.len() == 0) {
        seq![]
    } else {
        ops_rows(line_diff_ops(head, current, DIFF_CONTEXT))
    }
}

/// The diff rows of `lines` against `head` (see `diff_rows_spec`). Gives
/// `None` only when the diff reports a line index of `usize::MAX`, whose
/// line number would not fit.
pub fn diff_rows(head: &str, lines: &Vec<String>) -> (r: Option<Vec<DiffRow>>)
    ensures
        ({
            let current = file_text(views(lines@));
            if head@ == current || (head@.len() == 0 && lines@.len() == 0) {
                r is Some && r->0@.len() == 0
            } else {
                &&& r is Some <==> indices_fit(line_diff_ops(head@, current, DIFF_CONTEXT))
                &&& r matches Some(rows) ==> rows_view(rows@) == diff_rows_spec(head@, views(lines@))
            }
        }),
        r matches Some(rows) ==> numbered_from_one(rows@),
{
    let current = join_lines(lines);
    let h = chars_of(head);
    let c = chars_of(current.as_str());
    let same = chars_eq(h.as_slice(), c.as_slice());
    if same || (h.len() == 0 && lines.len() == 0) {
        return Some(Vec::new());
    }
    let ops = similar_line_ops(head, current.as_str(), DIFF_CONTEXT);
    if !indices_ok(&ops) {
        return None;
    }
    Some(ops_to_rows(&ops))
}

/// The single row shown for a file outside any git repository.
pub fn not_a_repository_rows() -> (r: Vec<DiffRow>)
    ensures
        rows_view(r@) == seq![
            (Some((0usize, "[not a git repository]"@)), None::<(usize, Seq<char>)>, DiffRowKind::Changed),
        ],
        numbered_from_one(r@),
{
    let mut cs: Vec<char> = Vec::new();
    push_str(&mut cs, "[not a git repository]");
    let text = string_from_chars(cs.as_slice());
    let v = vec![DiffRow { old: Some((0, text)), new: None, kind: DiffRowKind::Changed }];
    assert(rows_view(v@) =~= seq![row_view(v@[0])]);
    v
}

} // verus!
