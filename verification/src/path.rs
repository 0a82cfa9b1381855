//! File names and extensions of `/`-separated paths, as `std::path::Path`
//! reads them on Unix.
use vstd::prelude::*;
use crate::text::{chars_of, string_from_chars};

verus! {

/// Reading `p` from the left: the segments ended by a `/` so far and the
/// segment being read.
pub open spec fn seg_acc(p: Seq<char>) -> (Seq<Seq<char>>, Seq<char>)
    decreases p.len(),
{
    if p.len() == 0 {
        (seq![], seq![])
    } else {
        let (done, cur) = seg_acc(p.drop_last());
        if p.last() == '/' {
            (done.push(cur), seq![])
        } else {
            (done, cur.push(p.last()))
        }
    }
}

/// The pieces of `p` between slashes, empty ones included.
pub open spec fn segments(p: Seq<char>) -> Seq<Seq<char>> {
    let (done, cur) = seg_acc(p);
    done.push(cur)
}

/// A segment that names something: not empty and not `.`.
pub open spec fn is_named(s: Seq<char>) -> bool {
    s.len() > 0 && s != seq!['.']
}

/// The last segment that names something.
pub open spec fn last_named(segs: Seq<Seq<char>>) -> Option<Seq<char>>
    decreases segs.len(),
{
    if segs.len() == 0 {
        None
    } else if is_named(segs.last()) {
        Some(segs.last())
    } else {
        last_named(segs.drop_last())
    }
}

/// The final component of `p` when it is a name, as `Path::file_name` gives it.
pub open spec fn file_name_of(p: Seq<char>) -> Option<Seq<char>> {
    match last_named(segments(p)) {
        Some(s) => if s == seq!['.', '.'] {
            None
        } else {
            Some(s)
        },
        None => None,
    }
}

/// The position of the last `.` in `s` before `j`.
pub open spec fn last_dot_before(s: Seq<char>, j: int) -> Option<int>
    decreases j,
{
    if j <= 0 {
        None
    } else if s[j - 1] == '.' {
        Some(j - 1)
    } else {
        last_dot_before(s, j - 1)
    }
}

/// What follows the last `.` of a file name, unless the name has no `.` or
/// starts with its only one, as `Path::extension` gives it.
pub open spec fn extension_of(name: Seq<char>) -> Option<Seq<char>> {
    match last_dot_before(name, name.len() as int) {
        Some(i) => if i == 0 {
            None
        } else {
            Some(name.subrange(i + 1, name.len() as int))
        },
        None => None,
    }
}

/// The extension of the file `p` names; empty when it has none.
pub open spec fn path_ext(p: Seq<char>) -> Seq<char> {
    match file_name_of(p) {
        Some(n) => match extension_of(n) {
            Some(e) => e,
            None => seq![],
        },
        None => seq![],
    }
}

/// The final component of `p` when it is a name, else nothing.
pub open spec fn name_of(p: Seq<char>) -> Seq<char> {
    match file_name_of(p) {
        Some(n) => n,
        None => seq![],
    }
}

/// The final component of `path` when it is a name (see `file_name_of`),
/// else nothing.
pub fn file_name(path: &str) -> (r: Vec<char>)
    ensures
        r@ == name_of(path@),
{
    let cs = chars_of(path);
    let mut segs: Vec<Vec<char>> = Vec::new();
    let mut cur: Vec<char> = Vec::new();
    let n = cs.len();
    let mut i: usize = 0;
    while i < n
        invariant
            n == cs@.len(),
            i <= n,
            segs@.map_values(|v: Vec<char>| v@) == seg_acc(cs@.take(i as int)).0,
            cur@ == seg_acc(cs@.take(i as int)).1,
        decreases n - i,
    {
        assert(cs@.take(i + 1).drop_last() =~= cs@.take(i as int));
        if cs[i] == '/' {
            let ghost before = segs@;
            let piece = cur;
            segs.push(piece);
            assert(segs@.map_values(|v: Vec<char>| v@) =~= before.map_values(|v: Vec<char>| v@).push(
                piece@,
            ));
            cur = Vec::new();
        } else {
            cur.push(cs[i]);
        }
        i += 1;
    }
    assert(cs@.take(n as int) =~= cs@);
    let ghost before = segs@;
    let last = cur;
    segs.push(last);
    let ghost sv = segs@.map_values(|v: Vec<char>| v@);
    assert(sv =~= before.map_values(|v: Vec<char>| v@).push(last@));
    assert(sv == segments(path@));
    let mut k = segs.len();
    assert(sv.take(k as int) =~= sv);
    while k > 0 && !(segs[k - 1].len() > 0 && !(segs[k - 1].len() == 1 && segs[k - 1][0] == '.'))
        invariant
            k <= segs@.len(),
            sv == segs@.map_values(|v: Vec<char>| v@),
            last_named(sv) == last_named(sv.take(k as int)),
        decreases k,
    {
        proof {
            let t = sv.take(k as int);
            assert(t.last() == segs@[k - 1]@);
            if segs@[k - 1]@.len() == 1 && segs@[k - 1]@[0] == '.' {
                assert(segs@[k - 1]@ =~= seq!['.']);
            }
            assert(t.drop_last() =~= sv.take(k - 1));
        }
        k -= 1;
    }
    if k == 0 {
        assert(sv.take(0) =~= Seq::<Seq<char>>::empty());
        return Vec::new();
    }
    let name = segs[k - 1].clone();
    proof {
        let t = sv.take(k as int);
        assert(t.last() == name@);
        if name@ == seq!['.'] {
            assert(name@.len() == 1 && name@[0] == '.');
        }
        assert(sv.take(sv.len() as int) =~= sv);
        assert(last_named(sv) == Some(name@));
    }
    if name.len() == 2 && name[0] == '.' && name[1] == '.' {
        assert(name@ =~= seq!['.', '.']);
        return Vec::new();
    }
    assert(name@ != seq!['.', '.']);
    name
}

/// The extension of the file `path` names, empty when it has none.
pub fn path_extension(path: &str) -> (r: String)
    ensures
        r@ == path_ext(path@),
{
    let name = file_name(path);
    let m = name.len();
    let mut j = m;
    while j > 0 && name[j - 1] != '.'
        invariant
            j <= m,
            m == name@.len(),
            last_dot_before(name@, m as int) == last_dot_before(name@, j as int),
        decreases j,
    {
        j -= 1;
    }
    if j <= 1 {
        return String::new();
    }
    let mut ext: Vec<char> = Vec::new();
    let mut q = j;
    while q < m
        invariant
            j <= q <= m,
            m == name@.len(),
            ext@ == name@.subrange(j as int, q as int),
        decreases m - q,
    {
        ext.push(name[q]);
        q += 1;
        assert(ext@ =~= name@.subrange(j as int, q as int));
    }
    string_from_chars(ext.as_slice())
}

/// ASCII upper-case letters in lower case, other characters unchanged.
pub open spec fn ascii_lower(c: char) -> char {
    if 'A' <= c && c <= 'Z' {
        ((c as u32) + 32) as char
    } else {
        c
    }
}

/// `a` equals `b` ignoring ASCII case, as `str::eq_ignore_ascii_case` tests.
pub open spec fn eq_ignore_ascii_case(a: Seq<char>, b: Seq<char>) -> bool {
    a.len() == b.len() && forall|i: int| 0 <= i < a.len() ==> ascii_lower(a[i]) == ascii_lower(b[i])
}

fn lower_ascii(c: char) -> (r: char)
    ensures
        r == ascii_lower(c),
{
    if 'A' <= c && c <= 'Z' {
        let u = (c as u32) as u8 + 32;
        u as char
    } else {
        c
    }
}

/// Whether `a` equals `b` ignoring ASCII case.
pub fn eq_ascii_case(a: &[char], b: &[char]) -> (r: bool)
    ensures
        r == eq_ignore_ascii_case(a@, b@),
{
    if a.len() != b.len() {
        return false;
    }
    let n = a.len();
    let mut i: usize = 0;
    while i < n
        invariant
            n == a@.len(),
            n == b@.len(),
            i <= n,
            forall|k: int| 0 <= k < i ==> ascii_lower(a@[k]) == ascii_lower(b@[k]),
        decreases n - i,
    {
        if lower_ascii(a[i]) != lower_ascii(b[i]) {
            return false;
        }
        i += 1;
    }
    true
}

} // verus!
