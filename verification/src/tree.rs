//! The file tree panel: the entries of a directory, directories first and
//! by name, with expanded directories showing their own entries below them.
//!
//! The tree does not read the disk: it is built from `DirListing`s, the
//! directory contents that the caller has read.
use vstd::prelude::*;
use crate::text::{chars_eq, views};

verus! {

/// An entry of a directory as read from disk: its path, its file name and
/// whether it is a directory.
pub struct DirEntry {
    pub path: String,
    pub name: String,
    pub is_dir: bool,
}

/// The entries of the directory `dir`, in the order they were read.
pub struct DirListing {
    pub dir: String,
    pub entries: Vec<DirEntry>,
}

/// A row of the tree panel.
pub struct TreeEntry {
    pub path: String,
    pub depth: usize,
    pub is_dir: bool,
    pub is_expanded: bool,
}

/// The tree panel: its rows, the selected row and the first row shown.
pub struct FileTree {
    pub root: String,
    pub entries: Vec<TreeEntry>,
    pub cursor: usize,
    pub scroll: usize,
    pub expanded: Vec<String>,
}

/// Abstract directory entry: path, name, is a directory.
pub type EntryV = (Seq<char>, Seq<char>, bool);

/// Abstract listing: directory and entries.
pub type ListingV = (Seq<char>, Seq<EntryV>);

/// Abstract tree row: path, depth, is a directory, is expanded.
pub type RowV = (Seq<char>, usize, bool, bool);

pub open spec fn entry_view(e: DirEntry) -> EntryV {
    (e.path@, e.name@, e.is_dir)
}

pub open spec fn entries_view(es: Seq<DirEntry>) -> Seq<EntryV> {
    es.map_values(|e: DirEntry| entry_view(e))
}

pub open spec fn listing_view(l: DirListing) -> ListingV {
    (l.dir@, entries_view(l.entries@))
}

pub open spec fn listings_view(ls: Seq<DirListing>) -> Seq<ListingV> {
    ls.map_values(|l: DirListing| listing_view(l))
}

pub open spec fn row_view(r: TreeEntry) -> RowV {
    (r.path@, r.depth, r.is_dir, r.is_expanded)
}

pub open spec fn rows_view(rs: Seq<TreeEntry>) -> Seq<RowV> {
    rs.map_values(|r: TreeEntry| row_view(r))
}

// ---------------------------------------------------------------------------
// Order of entries
// ---------------------------------------------------------------------------
/// `a` comes strictly before `b` in lexicographic order of characters (the
/// order of their UTF-8 bytes).
pub open spec fn name_lt(a: Seq<char>, b: Seq<char>) -> bool
    decreases a.len(),
{
    if a.len() == 0 {
        b.len() > 0
    } else if b.len() == 0 {
        false
    } else if a[0] != b[0] {
        a[0] < b[0]
    } else {
        name_lt(a.drop_first(), b.drop_first())
    }
}

/// `a` may stand before `b`: directories before files, then by name.
pub open spec fn entry_le(a: EntryV, b: EntryV) -> bool {
    if a.2 != b.2 {
        a.2
    } else {
        !name_lt(b.1, a.1)
    }
}

/// `s` with `e` inserted after the last entry that may stand before it.
pub open spec fn insert_sorted(s: Seq<EntryV>, e: EntryV) -> Seq<EntryV>
    decreases s.len(),
{
    if s.len() == 0 {
        seq![e]
    } else if entry_le(s.last(), e) {
        s.push(e)
    } else {
        insert_sorted(s.drop_last(), e).push(s.last())
    }
}

/// `es` stably sorted: directories first, then by name, equal entries in
/// their order of reading.
pub open spec fn sorted_entries(es: Seq<EntryV>) -> Seq<EntryV>
    decreases es.len(),
{
    if es.len() == 0 {
        seq![]
    } else {
        insert_sorted(sorted_entries(es.drop_last()), es.last())
    }
}

fn name_less(a: &[char], b: &[char]) -> (r: bool)
    ensures
        r == name_lt(a@, b@),
{
    let mut i: usize = 0;
    assert(a@.skip(0) =~= a@);
    assert(b@.skip(0) =~= b@);
    assert(a@.subrange(0, 0) =~= b@.subrange(0, 0));
    loop
        invariant
            i <= a@.len(),
            i <= b@.len(),
            a@.subrange(0, i as int) == b@.subrange(0, i as int),
            name_lt(a@, b@) == name_lt(a@.skip(i as int), b@.skip(i as int)),
        decreases a@.len() - i,
    {
        let ghost sa = a@.skip(i as int);
        let ghost sb = b@.skip(i as int);
        if i == a.len() {
            return i < b.len();
        }
        if i == b.len() {
            return false;
        }
        if a[i] != b[i] {
            return a[i] < b[i];
        }
        assert(sa.drop_first() =~= a@.skip(i + 1));
        assert(sb.drop_first() =~= b@.skip(i + 1));
        assert(a@.subrange(0, i + 1) =~= a@.subrange(0, i as int).push(a@[i as int]));
        assert(b@.subrange(0, i + 1) =~= b@.subrange(0, i as int).push(b@[i as int]));
        i += 1;
    }
}

struct SortKey {
    name: Vec<char>,
    is_dir: bool,
}

fn entry_before(a: &SortKey, b: &SortKey) -> (r: bool)
    ensures
        r == entry_le((seq![], a.name@, a.is_dir), (seq![], b.name@, b.is_dir)),
{
    if a.is_dir != b.is_dir {
        a.is_dir
    } else {
        !name_less(b.name.as_slice(), a.name.as_slice())
    }
}

proof fn lemma_entry_le_key(a: EntryV, b: EntryV)
    ensures
        entry_le(a, b) == entry_le((seq![], a.1, a.2), (seq![], b.1, b.2)),
{
}

proof fn lemma_insert_at(s: Seq<EntryV>, e: EntryV, p: int)
    requires
        0 <= p <= s.len(),
        forall|k: int| p <= k < s.len() ==> !entry_le(#[trigger] s[k], e),
        p == 0 || entry_le(s[p - 1], e),
    ensures
        insert_sorted(s, e) == s.subrange(0, p).push(e) + s.subrange(p, s.len() as int),
    decreases s.len(),
{
    if s.len() == 0 {
        assert(s.subrange(0, p).push(e) + s.subrange(p, s.len() as int) =~= seq![e]);
    } else if p == s.len() {
        assert(s.subrange(0, p) =~= s);
        assert(s.subrange(0, p).push(e) + s.subrange(p, s.len() as int) =~= s.push(e));
    } else {
        assert(!entry_le(s.last(), e));
        let t = s.drop_last();
        assert forall|k: int| p <= k < t.len() implies !entry_le(#[trigger] t[k], e) by {
            assert(t[k] == s[k]);
        }
        lemma_insert_at(t, e, p);
        assert(s.subrange(0, p).push(e) + s.subrange(p, s.len() as int) =~= (t.subrange(0, p).push(
            e,
        ) + t.subrange(p, t.len() as int)).push(s.last()));
    }
}

fn copy_entry(e: &DirEntry) -> (r: DirEntry)
    ensures
        entry_view(r) == entry_view(*e),
{
    DirEntry { path: e.path.clone(), name: e.name.clone(), is_dir: e.is_dir }
}

/// The entries of a listing in tree order (see `sorted_entries`).
pub fn sort_entries(es: &Vec<DirEntry>) -> (r: Vec<DirEntry>)
    ensures
        entries_view(r@) == sorted_entries(entries_view(es@)),
{
    let ghost ev = entries_view(es@);
    let mut out: Vec<DirEntry> = Vec::new();
    let mut keys: Vec<SortKey> = Vec::new();
    let n = es.len();
    let mut i: usize = 0;
    while i < n
        invariant
            n == es@.len(),
            i <= n,
            ev == entries_view(es@),
            keys@.len() == out@.len(),
            forall|k: int|
                0 <= k < keys@.len() ==> (#[trigger] keys@[k]).name@ == out@[k].name@
                    && keys@[k].is_dir == out@[k].is_dir,
            entries_view(out@) == sorted_entries(ev.take(i as int)),
        decreases n - i,
    {
        let ghost sv = entries_view(out@);
        assert(ev.take(i + 1).drop_last() =~= ev.take(i as int));
        assert(ev[i as int] == entry_view(es@[i as int]));
        let e = copy_entry(&es[i]);
        let key = SortKey { name: crate::text::chars_of(e.name.as_str()), is_dir: e.is_dir };
        let mut p = out.len();
        while p > 0 && !entry_before(&keys[p - 1], &key)
            invariant
                p <= out@.len(),
                keys@.len() == out@.len(),
                sv == entries_view(out@),
                forall|k: int|
                    0 <= k < keys@.len() ==> (#[trigger] keys@[k]).name@ == out@[k].name@
                        && keys@[k].is_dir == out@[k].is_dir,
                key.name@ == e.name@,
                key.is_dir == e.is_dir,
                forall|k: int| p <= k < sv.len() ==> !entry_le(#[trigger] sv[k], entry_view(e)),
            decreases p,
        {
            proof {
                lemma_entry_le_key(sv[p - 1], entry_view(e));
                assert(sv[p - 1] == entry_view(out@[p - 1]));
            }
            p -= 1;
        }
        proof {
            if p > 0 {
                lemma_entry_le_key(sv[p - 1], entry_view(e));
                assert(sv[p - 1] == entry_view(out@[p - 1]));
            }
            lemma_insert_at(sv, entry_view(e), p as int);
        }
        let ghost old_out = out@;
        let ghost old_keys = keys@;
        out.insert(p, e);
        keys.insert(p, key);
        assert(entries_view(out@) =~= sv.subrange(0, p as int).push(entry_view(e)) + sv.subrange(
            p as int,
            sv.len() as int,
        ));
        assert forall|k: int| 0 <= k < keys@.len() implies (#[trigger] keys@[k]).name@
            == out@[k].name@ && keys@[k].is_dir == out@[k].is_dir by {
            if k < p {
                assert(keys@[k] == old_keys[k]);
                assert(out@[k] == old_out[k]);
            } else if k > p {
                assert(keys@[k] == old_keys[k - 1]);
                assert(out@[k] == old_out[k - 1]);
            }
        }
        i += 1;
    }
    assert(ev.take(n as int) =~= ev);
    out
}

// ---------------------------------------------------------------------------
// Building the rows
// ---------------------------------------------------------------------------
/// The entries listed for `dir`: those of the first listing of `dir`, or
/// none when `dir` was not read.
pub open spec fn children(ls: Seq<ListingV>, dir: Seq<char>) -> Seq<EntryV>
    decreases ls.len(),
{
    if ls.len() == 0 {
        seq![]
    } else if ls[0].0 == dir {
        ls[0].1
    } else {
        children(ls.drop_first(), dir)
    }
}

/// The rows for the entries `es` of a directory at `depth`: each entry in
/// turn, each expanded directory followed by the rows of its own entries in
/// tree order. `fuel` bounds how deep expanded directories are opened; the
/// tree is built with one level per listing, more than any directory
/// nesting the listings can describe.
pub open spec fn tree_rows(
    ls: Seq<ListingV>,
    expanded: Set<Seq<char>>,
    es: Seq<EntryV>,
    depth: nat,
    fuel: nat,
) -> Seq<RowV>
    decreases fuel, es.len(),
{
    if es.len() == 0 {
        seq![]
    } else {
        let e = es.last();
        let open = expanded.contains(e.0);
        let prev = tree_rows(ls, expanded, es.drop_last(), depth, fuel);
        let row: RowV = (e.0, depth as usize, e.2, open);
        if e.2 && open && fuel > 0 {
            prev.push(row) + tree_rows(
                ls,
                expanded,
                sorted_entries(children(ls, e.0)),
                depth + 1,
                (fuel - 1) as nat,
            )
        } else {
            prev.push(row)
        }
    }
}

/// The rows of the tree rooted at `root` (the root itself is not a row).
pub open spec fn tree_of(ls: Seq<ListingV>, expanded: Set<Seq<char>>, root: Seq<char>) -> Seq<
    RowV,
> {
    tree_rows(ls, expanded, sorted_entries(children(ls, root)), 0, ls.len())
}

/// `set` with `p` taken out when it is there, put in when it is not.
pub open spec fn toggled(set: Set<Seq<char>>, p: Seq<char>) -> Set<Seq<char>> {
    if set.contains(p) {
        set.remove(p)
    } else {
        set.insert(p)
    }
}

/// The first row at or after `k` whose path is `p`.
pub open spec fn first_row_from(rows: Seq<RowV>, p: Seq<char>, k: int) -> Option<int>
    decreases rows.len() - k,
{
    if k < 0 || k >= rows.len() {
        None
    } else if rows[k].0 == p {
        Some(k)
    } else {
        first_row_from(rows, p, k + 1)
    }
}

/// The first row whose path is `p`.
pub open spec fn first_row_of(rows: Seq<RowV>, p: Seq<char>) -> Option<int> {
    first_row_from(rows, p, 0)
}

fn find_listing<'a>(ls: &'a Vec<DirListing>, dir: &String) -> (r: Option<&'a DirListing>)
    ensures
        match r {
            Some(l) => entries_view(l.entries@) == children(listings_view(ls@), dir@),
            None => children(listings_view(ls@), dir@) == Seq::<EntryV>::empty(),
        },
{
    let d = crate::text::chars_of(dir.as_str());
    let ghost lv = listings_view(ls@);
    let n = ls.len();
    let mut i: usize = 0;
    assert(lv.skip(0) =~= lv);
    while i < n
        invariant
            n == ls@.len(),
            i <= n,
            lv == listings_view(ls@),
            d@ == dir@,
            children(lv, dir@) == children(lv.skip(i as int), dir@),
        decreases n - i,
    {
        let ghost rest = lv.skip(i as int);
        assert(rest[0] == listing_view(ls@[i as int]));
        assert(rest.drop_first() =~= lv.skip(i + 1));
        let cand = crate::text::chars_of(ls[i].dir.as_str());
        if chars_eq(cand.as_slice(), d.as_slice()) {
            return Some(&ls[i]);
        }
        i += 1;
    }
    assert(lv.skip(n as int) =~= Seq::<ListingV>::empty());
    None
}

fn vec_contains(v: &Vec<String>, p: &String) -> (r: bool)
    ensures
        r == views(v@).contains(p@),
{
    let n = v.len();
    let mut i: usize = 0;
    while i < n
        invariant
            n == v@.len(),
            i <= n,
            forall|k: int| 0 <= k < i ==> v@[k]@ != p@,
        decreases n - i,
    {
        if v[i] == *p {
            assert(views(v@)[i as int] == p@);
            return true;
        }
        i += 1;
    }
    proof {
        if views(v@).contains(p@) {
            let k = choose|k: int| 0 <= k < views(v@).len() && views(v@)[k] == p@;
            assert(v@[k]@ == p@);
        }
    }
    false
}

impl FileTree {
    /// The directories whose entries are shown.
    pub open spec fn expanded_set(&self) -> Set<Seq<char>> {
        views(self.expanded@).to_set()
    }

    /// The directories whose entries are shown, for reading their listings.
    pub fn expanded_paths(&self) -> (r: &Vec<String>)
        ensures
            views(r@).to_set() == self.expanded_set(),
    {
        &self.expanded
    }

    /// The first row shown once the selected row is scrolled into a view of
    /// `view_height` rows.
    pub open spec fn scrolled_to(&self, view_height: usize) -> usize {
        if view_height == 0 {
            self.scroll
        } else if self.cursor < self.scroll {
            self.cursor
        } else if self.cursor >= self.scroll + view_height {
            (self.cursor - view_height + 1) as usize
        } else {
            self.scroll
        }
    }

    /// The selection after moving one row down.
    pub open spec fn cursor_down(&self) -> usize {
        if self.cursor + 1 < self.entries@.len() {
            (self.cursor + 1) as usize
        } else {
            self.cursor
        }
    }

    /// The selection after moving one row up.
    pub open spec fn cursor_up(&self) -> usize {
        if self.cursor > 0 {
            (self.cursor - 1) as usize
        } else {
            self.cursor
        }
    }

    /// The tree after selecting `cursor` and scrolling it into a view of
    /// `view_height` rows.
    pub open spec fn moved_to(&self, cursor: usize, view_height: usize) -> FileTree {
        let t = FileTree { cursor, ..*self };
        FileTree { scroll: t.scrolled_to(view_height), ..t }
    }

    /// A tree of `root` with no directory expanded, built from `listings`.
    pub fn new(root: String, listings: &Vec<DirListing>) -> (t: FileTree)
        ensures
            t.root == root,
            t.cursor == 0,
            t.scroll == 0,
            t.expanded_set() == Set::<Seq<char>>::empty(),
            views(t.expanded@).no_duplicates(),
            rows_view(t.entries@) == tree_of(listings_view(listings@), Set::empty(), root@),
    {
        let mut tree = FileTree {
            root,
            entries: Vec::new(),
            cursor: 0,
            scroll: 0,
            expanded: Vec::new(),
        };
        assert(views(tree.expanded@).to_set() =~= Set::<Seq<char>>::empty());
        tree.rebuild(listings);
        tree
    }

    /// Rebuilds the rows from `listings`; selection and scroll stay.
    pub fn rebuild(&mut self, listings: &Vec<DirListing>)
        ensures
            final(self).root == old(self).root,
            final(self).cursor == old(self).cursor,
            final(self).scroll == old(self).scroll,
            final(self).expanded == old(self).expanded,
            rows_view(final(self).entries@) == tree_of(
                listings_view(listings@),
                old(self).expanded_set(),
                old(self).root@,
            ),
    {
        self.entries = Vec::new();
        let root = self.root.clone();
        let ghost ls = listings_view(listings@);
        proof {
            assert(rows_view(self.entries@) =~= Seq::<RowV>::empty());
        }
        self.add_dir(listings, &root, 0, listings.len());
        assert(rows_view(self.entries@) =~= tree_of(ls, self.expanded_set(), self.root@));
    }

    fn add_dir(&mut self, listings: &Vec<DirListing>, dir: &String, depth: usize, fuel: usize)
        requires
            depth + fuel <= listings@.len(),
        ensures
            final(self).root == old(self).root,
            final(self).cursor == old(self).cursor,
            final(self).scroll == old(self).scroll,
            final(self).expanded == old(self).expanded,
            rows_view(final(self).entries@) == rows_view(old(self).entries@) + tree_rows(
                listings_view(listings@),
                old(self).expanded_set(),
                sorted_entries(children(listings_view(listings@), dir@)),
                depth as nat,
                fuel as nat,
            ),
        decreases fuel,
    {
        let ghost ls = listings_view(listings@);
        let ghost exp = self.expanded_set();
        let es: Vec<DirEntry> = match find_listing(listings, dir) {
            Some(l) => sort_entries(&l.entries),
            None => Vec::new(),
        };
        let ghost ev = entries_view(es@);
        assert(ev == sorted_entries(children(ls, dir@))) by {
            if ev.len() == 0 {
                assert(ev =~= Seq::<EntryV>::empty());
            }
        }
        let ghost start = rows_view(self.entries@);
        let total = listings.len();
        let n = es.len();
        let mut i: usize = 0;
        while i < n
            invariant
                n == es@.len(),
                i <= n,
                ev == entries_view(es@),
                ls == listings_view(listings@),
                exp == self.expanded_set(),
                depth + fuel <= listings@.len(),
                total == listings@.len(),
                self.root == old(self).root,
                self.cursor == old(self).cursor,
                self.scroll == old(self).scroll,
                self.expanded == old(self).expanded,
                rows_view(self.entries@) == start + tree_rows(
                    ls,
                    exp,
                    ev.take(i as int),
                    depth as nat,
                    fuel as nat,
                ),
            decreases n - i,
        {
            assert(ev.take(i + 1).drop_last() =~= ev.take(i as int));
            assert(ev[i as int] == entry_view(es@[i as int]));
            let e = &es[i];
            let open = vec_contains(&self.expanded, &e.path);
            let row = TreeEntry { path: e.path.clone(), depth, is_dir: e.is_dir, is_expanded: open };
            let ghost before = self.entries@;
            self.entries.push(row);
            assert(rows_view(self.entries@) =~= rows_view(before).push(row_view(row)));
            if e.is_dir && open && fuel > 0 {
                self.add_dir(listings, &e.path, depth + 1, fuel - 1);
            }
            i += 1;
        }
        assert(ev.take(n as int) =~= ev);
    }

    /// Shows or hides the entries of the selected directory, rebuilds the
    /// rows from `listings` and keeps the directory selected. Nothing changes
    /// when the selected row is not a directory.
    pub fn toggle_expand(&mut self, listings: &Vec<DirListing>)
        ensures
            FileTree::toggle_post(*old(self), *final(self), listings@),
            views(old(self).expanded@).no_duplicates() ==> views(final(self).expanded@).no_duplicates(),
    {
        if self.cursor >= self.entries.len() || !self.entries[self.cursor].is_dir {
            return ;
        }
        let path = self.entries[self.cursor].path.clone();
        let ghost before = self.expanded_set();
        let ghost nd = views(self.expanded@).no_duplicates();
        if vec_contains(&self.expanded, &path) {
            let mut kept: Vec<String> = Vec::new();
            let n = self.expanded.len();
            let mut i: usize = 0;
            while i < n
                invariant
                    n == self.expanded@.len(),
                    i <= n,
                    before == views(self.expanded@).to_set(),
                    views(kept@).to_set() == views(self.expanded@).take(i as int).to_set().remove(path@),
                    nd == views(self.expanded@).no_duplicates(),
                    nd ==> views(kept@).no_duplicates(),
                decreases n - i,
            {
                let ghost prev = views(self.expanded@).take(i as int);
                assert(views(self.expanded@).take(i + 1) =~= prev.push(self.expanded@[i as int]@));
                proof {
                    prev.lemma_push_to_set_commute(self.expanded@[i as int]@);
                }
                if !(self.expanded[i] == path) {
                    let s = self.expanded[i].clone();
                    proof {
                        crate::text::lemma_views_push(kept@, s);
                        views(kept@).lemma_push_to_set_commute(s@);
                    }
                    let ghost kept_before = views(kept@);
                    proof {
                        if nd {
                            if kept_before.contains(s@) {
                                assert(kept_before.to_set().contains(s@));
                                assert(prev.to_set().contains(s@));
                                let m = choose|m: int| 0 <= m < prev.len() && prev[m] == s@;
                                assert(views(self.expanded@)[m] == views(self.expanded@)[i as int]);
                            }
                        }
                    }
                    kept.push(s);
                    assert(views(kept@).to_set() =~= prev.push(s@).to_set().remove(path@));
                    assert(views(kept@) =~= kept_before.push(s@));
                } else {
                    assert(views(kept@).to_set() =~= prev.push(path@).to_set().remove(path@));
                }
                i += 1;
            }
            assert(views(self.expanded@).take(n as int) =~= views(self.expanded@));
            self.expanded = kept;
        } else {
            let ghost prev = views(self.expanded@);
            let s = path.clone();
            proof {
                crate::text::lemma_views_push(self.expanded@, s);
            }
            self.expanded.push(s);
            proof {
                prev.lemma_push_to_set_commute(path@);
            }
            assert(views(self.expanded@).to_set() =~= prev.to_set().insert(path@));
            assert(views(self.expanded@) =~= prev.push(path@));
        }
        self.rebuild(listings);
        let n = self.entries.len();
        let mut k: usize = 0;
        let ghost rv = rows_view(self.entries@);
        let ghost now = *self;
        #[verifier::loop_isolation(false)]
        while k < n
            invariant
                *self == now,
                n == self.entries@.len(),
                k <= n,
                rv == rows_view(self.entries@),
                first_row_of(rv, path@) == first_row_from(rv, path@, k as int),
            decreases n - k,
        {
            assert(rv[k as int] == row_view(self.entries@[k as int]));
            if self.entries[k].path == path {
                self.cursor = k;
                return ;
            }
            k += 1;
        }
    }

    /// Selects the previous row, if there is one.
    pub fn move_up(&mut self)
        ensures
            final(self).cursor == old(self).cursor_up(),
            *final(self) == (FileTree { cursor: final(self).cursor, ..*old(self) }),
    {
        if self.cursor > 0 {
            self.cursor -= 1;
        }
    }

    /// Selects the next row, if there is one.
    pub fn move_down(&mut self)
        ensures
            final(self).cursor == old(self).cursor_down(),
            *final(self) == (FileTree { cursor: final(self).cursor, ..*old(self) }),
    {
        if self.cursor < self.entries.len() && self.entries.len() - self.cursor > 1 {
            self.cursor += 1;
        }
    }

    /// The path of the selected row, when it is a file.
    pub fn current_file(&self) -> (r: Option<&String>)
        ensures
            match r {
                Some(p) => self.cursor < self.entries@.len() && !self.entries@[self.cursor as int].is_dir
                    && p@ == self.entries@[self.cursor as int].path@,
                None => self.cursor >= self.entries@.len() || self.entries@[self.cursor as int].is_dir,
            },
    {
        if self.cursor < self.entries.len() && !self.entries[self.cursor].is_dir {
            Some(&self.entries[self.cursor].path)
        } else {
            None
        }
    }

    /// The path of the selected row, when it is a directory.
    pub fn current_dir(&self) -> (r: Option<&String>)
        ensures
            match r {
                Some(p) => self.cursor < self.entries@.len() && self.entries@[self.cursor as int].is_dir
                    && p@ == self.entries@[self.cursor as int].path@,
                None => self.cursor >= self.entries@.len() || !self.entries@[self.cursor as int].is_dir,
            },
    {
        if self.cursor < self.entries.len() && self.entries[self.cursor].is_dir {
            Some(&self.entries[self.cursor].path)
        } else {
            None
        }
    }

    /// Scrolls just enough that the selected row is among the
    /// `view_height` rows shown (nothing changes for a height of zero).
    pub fn scroll_to_cursor(&mut self, view_height: usize)
        ensures
            final(self).scroll == old(self).scrolled_to(view_height),
            view_height > 0 ==> final(self).scroll <= final(self).cursor < final(self).scroll
                + view_height,
            *final(self) == (FileTree { scroll: final(self).scroll, ..*old(self) }),
    {
        if view_height == 0 {
            return ;
        }
        if self.cursor < self.scroll {
            self.scroll = self.cursor;
        } else if self.cursor - self.scroll >= view_height {
            self.scroll = self.cursor - (view_height - 1);
        }
    }

    /// What `toggle_expand` does with `listings`.
    pub open spec fn toggle_post(o: FileTree, f: FileTree, listings: Seq<DirListing>) -> bool {
        if o.cursor < o.entries@.len() && o.entries@[o.cursor as int].is_dir {
            let p = o.entries@[o.cursor as int].path@;
            &&& f.expanded_set() == toggled(o.expanded_set(), p)
            &&& rows_view(f.entries@) == tree_of(
                listings_view(listings),
                f.expanded_set(),
                o.root@,
            )
            &&& f.cursor == (match first_row_of(rows_view(f.entries@), p) {
                Some(k) => k as usize,
                None => o.cursor,
            })
            &&& f.root == o.root
            &&& f.scroll == o.scroll
        } else {
            f == o
        }
    }
}

} // verus!
