//! Turning a directory listing into a small window of directories to render
//! as dungeon rooms: the sorted, non-hidden subdirectories of a directory, a
//! window of a directory's siblings around it, and a window of its children.
//!
//! Names and paths are byte strings (the platform's path bytes), so names
//! with spaces, parentheses or non-ASCII characters pass through unchanged.
use vstd::prelude::*;

verus! {

/// One entry read from a directory: its name, whether it is a directory,
/// and how many non-hidden subdirectories it contains itself.
#[derive(Debug)]
pub struct RawEntry {
    pub name: Vec<u8>,
    pub is_dir: bool,
    pub subdir_count: usize,
}

/// Everything that could be read from one directory. A directory that does
/// not exist or cannot be read has no entries.
#[derive(Debug)]
pub struct DirListing {
    pub path: Vec<u8>,
    pub entries: Vec<RawEntry>,
}

/// One directory as seen from a window.
#[derive(Debug, PartialEq, Eq)]
pub struct DirInfo {
    /// Base name (last path component).
    pub name: Vec<u8>,
    /// Full path: the listed directory's path joined with the name.
    pub full_path: Vec<u8>,
    /// 0-based index within the full, unwindowed sorted list this entry came
    /// from.
    pub index: usize,
    /// Number of non-hidden subdirectories this entry itself contains.
    pub subdir_count: usize,
}

/// The byte `.`.
pub open spec fn dot() -> u8 {
    46u8
}

/// The byte `/`.
pub open spec fn slash() -> u8 {
    47u8
}

/// A name starting with `.` is hidden.
pub open spec fn is_hidden(name: Seq<u8>) -> bool {
    name.len() > 0 && name[0] == dot()
}

/// Byte-wise lexicographic order (the order of path components).
pub open spec fn lex_le(a: Seq<u8>, b: Seq<u8>) -> bool
    decreases a.len(),
{
    if a.len() == 0 {
        true
    } else if b.len() == 0 {
        false
    } else if a[0] != b[0] {
        a[0] < b[0]
    } else {
        lex_le(a.drop_first(), b.drop_first())
    }
}

pub proof fn lemma_lex_total(a: Seq<u8>, b: Seq<u8>)
    ensures
        lex_le(a, b) || lex_le(b, a),
    decreases a.len(),
{
    if a.len() > 0 && b.len() > 0 && a[0] == b[0] {
        lemma_lex_total(a.drop_first(), b.drop_first());
    }
}

pub proof fn lemma_lex_trans(a: Seq<u8>, b: Seq<u8>, c: Seq<u8>)
    requires
        lex_le(a, b),
        lex_le(b, c),
    ensures
        lex_le(a, c),
    decreases a.len(),
{
    if a.len() > 0 && b.len() > 0 && c.len() > 0 && a[0] == b[0] && b[0] == c[0] {
        lemma_lex_trans(a.drop_first(), b.drop_first(), c.drop_first());
    }
}

/// An entry that becomes a room: a directory whose name is not hidden.
pub open spec fn is_subdir(e: RawEntry) -> bool {
    e.is_dir && !is_hidden(e.name@)
}

pub open spec fn sorted_by_name(s: Seq<RawEntry>) -> bool {
    forall|i: int, j: int| 0 <= i < j < s.len() ==> lex_le(#[trigger] s[i].name@, #[trigger] s[j].name@)
}

/// The non-hidden subdirectories among `entries`, in the order given.
pub open spec fn subdirs_of(entries: Seq<RawEntry>) -> Seq<RawEntry> {
    entries.filter(|e: RawEntry| is_subdir(e))
}

/// The result of listing a directory's subdirectories: exactly its
/// non-hidden subdirectories, sorted by name.
pub open spec fn is_subdir_list(entries: Seq<RawEntry>, out: Seq<RawEntry>) -> bool {
    &&& sorted_by_name(out)
    &&& out.to_multiset() == subdirs_of(entries).to_multiset()
}

/// Where entry `e` goes in the name-sorted list `s`: after every entry whose
/// name sorts at or before its own.
pub open spec fn place_for(s: Seq<RawEntry>, name: Seq<u8>) -> int
    decreases s.len(),
{
    if s.len() == 0 {
        0
    } else if lex_le(s.last().name@, name) {
        s.len() as int
    } else {
        place_for(s.drop_last(), name)
    }
}

/// The non-hidden subdirectories among `entries`, sorted by name: each is
/// placed after every entry of the rest of the listing whose name sorts at
/// or before its own (so two entries of the same name, which a directory
/// never holds, come out in reverse listing order).
pub open spec fn sorted_subdirs(entries: Seq<RawEntry>) -> Seq<RawEntry>
    decreases entries.len(),
{
    if entries.len() == 0 {
        Seq::empty()
    } else {
        let rest = sorted_subdirs(entries.drop_first());
        if is_subdir(entries[0]) {
            rest.insert(place_for(rest, entries[0].name@), entries[0])
        } else {
            rest
        }
    }
}

/// `parent` joined with `name`: a separator between them unless `parent` is
/// empty or already ends with one.
pub open spec fn join_path(parent: Seq<u8>, name: Seq<u8>) -> Seq<u8> {
    if parent.len() == 0 || parent.last() == slash() {
        parent + name
    } else {
        parent.push(slash()) + name
    }
}

pub fn copy_bytes(v: &Vec<u8>) -> (r: Vec<u8>)
    ensures
        r@ == v@,
{
    let mut r: Vec<u8> = Vec::new();
    let mut i: usize = 0;
    while i < v.len()
        invariant
            i <= v.len(),
            r@ == v@.subrange(0, i as int),
        decreases v.len() - i,
    {
        r.push(v[i]);
        i = i + 1;
        assert(r@ =~= v@.subrange(0, i as int));
    }
    assert(v@.subrange(0, v@.len() as int) =~= v@);
    r
}

/// Byte-wise lexicographic comparison.
pub fn bytes_le(a: &Vec<u8>, b: &Vec<u8>) -> (r: bool)
    ensures
        r == lex_le(a@, b@),
{
    let mut i: usize = 0;
    assert(a@.subrange(0, a@.len() as int) =~= a@);
    assert(b@.subrange(0, b@.len() as int) =~= b@);
    while i < a.len() && i < b.len() && a[i] == b[i]
        invariant
            i <= a.len(),
            i <= b.len(),
            lex_le(a@, b@) == lex_le(a@.subrange(i as int, a@.len() as int), b@.subrange(i as int, b@.len() as int)),
        decreases a.len() - i,
    {
        let ghost sa = a@.subrange(i as int, a@.len() as int);
        let ghost sb = b@.subrange(i as int, b@.len() as int);
        assert(sa.drop_first() =~= a@.subrange(i + 1, a@.len() as int));
        assert(sb.drop_first() =~= b@.subrange(i + 1, b@.len() as int));
        i = i + 1;
    }
    let ghost sa = a@.subrange(i as int, a@.len() as int);
    let ghost sb = b@.subrange(i as int, b@.len() as int);
    if i == a.len() {
        true
    } else if i == b.len() {
        false
    } else {
        assert(sa[0] == a@[i as int] && sb[0] == b@[i as int]);
        a[i] < b[i]
    }
}

/// The non-hidden subdirectories among `entries`, sorted by name. Entries
/// that could not be read never reach this function; an unreadable or
/// missing directory simply has no entries.
pub fn list_subdirs(entries: Vec<RawEntry>) -> (out: Vec<RawEntry>)
    ensures
        is_subdir_list(entries@, out@),
        out@ == sorted_subdirs(entries@),
{
    let ghost all = entries@;
    let mut rest = entries;
    let mut out: Vec<RawEntry> = Vec::new();
    proof {
        assert(all.subrange(all.len() as int, all.len() as int) =~= Seq::<RawEntry>::empty());
        reveal(Seq::filter);
    }
    while rest.len() > 0
        invariant
            rest@ == all.subrange(0, rest@.len() as int),
            rest@.len() <= all.len(),
            sorted_by_name(out@),
            out@.to_multiset() == subdirs_of(all.subrange(rest@.len() as int, all.len() as int)).to_multiset(),
            out@ == sorted_subdirs(all.subrange(rest@.len() as int, all.len() as int)),
        decreases rest@.len(),
    {
        let ghost n = rest@.len() - 1;
        let e = rest.pop().unwrap();
        proof {
            let suffix = all.subrange(n + 1, all.len() as int);
            assert(all.subrange(n, all.len() as int) =~= seq![e] + suffix);
            assert(all.subrange(n, all.len() as int).drop_first() =~= suffix);
            assert(all.subrange(n, all.len() as int)[0] == e);
            suffix.lemma_filter_prepend(e, |x: RawEntry| is_subdir(x));
        }
        let hidden = e.name.len() > 0 && e.name[0] == 46u8;
        if e.is_dir && !hidden {
            // Insert after every name that sorts at or before this one.
            let mut j = out.len();
            proof {
                assert(out@.subrange(0, j as int) =~= out@);
            }
            while j > 0 && !bytes_le(&out[j - 1].name, &e.name)
                invariant
                    j <= out.len(),
                    sorted_by_name(out@),
                    forall|k: int| j <= k < out@.len() ==> lex_le(e.name@, #[trigger] out@[k].name@),
                    place_for(out@, e.name@) == place_for(out@.subrange(0, j as int), e.name@),
                decreases j,
            {
                proof {
                    lemma_lex_total(out@[j - 1].name@, e.name@);
                    assert(out@.subrange(0, j as int).drop_last() =~= out@.subrange(0, j - 1));
                }
                j = j - 1;
            }
            proof {
                assert(out@.subrange(0, out@.len() as int) =~= out@);
                if j > 0 {
                    assert(out@.subrange(0, j as int).last() == out@[j - 1]);
                }
                assert(place_for(out@, e.name@) == j);
            }
            let ghost old_out = out@;
            proof {
                if j > 0 {
                    assert forall|k: int| 0 <= k < j implies lex_le(#[trigger] old_out[k].name@, e.name@) by {
                        if k < j - 1 {
                            lemma_lex_trans(old_out[k].name@, old_out[j - 1].name@, e.name@);
                        }
                    }
                }
            }
            let ghost eg = e;
            out.insert(j, e);
            proof {
                assert(out@ == old_out.insert(j as int, eg));
                old_out.insert_ensures(j as int, eg);
                assert forall|a: int, b: int| 0 <= a < b < out@.len() implies lex_le(
                    #[trigger] out@[a].name@,
                    #[trigger] out@[b].name@,
                ) by {
                    if b < j {
                        assert(out@[a] == old_out[a]);
                        assert(out@[b] == old_out[b]);
                    } else if b == j {
                        assert(out@[a] == old_out[a]);
                        assert(out@[b] == eg);
                    } else if a < j {
                        assert(out@[a] == old_out[a]);
                        assert(out@[b] == old_out[b - 1]);
                        lemma_lex_trans(old_out[a].name@, eg.name@, old_out[b - 1].name@);
                    } else if a == j {
                        assert(out@[a] == eg);
                        assert(out@[b] == old_out[b - 1]);
                    } else {
                        assert(out@[b] == old_out[b - 1]);
                        assert(out@[a] == old_out[a - 1]);
                    }
                }
                let l = old_out.subrange(0, j as int);
                let r = old_out.subrange(j as int, old_out.len() as int);
                assert(old_out =~= l + r);
                assert(out@ =~= l.push(eg) + r);
                vstd::seq_lib::lemma_multiset_commutative(l, r);
                vstd::seq_lib::lemma_multiset_commutative(l.push(eg), r);
                l.to_multiset_ensures();
                vstd::seq_lib::lemma_multiset_commutative(seq![eg], subdirs_of(all.subrange(n + 1, all.len() as int)));
                seq![eg].to_multiset_ensures();
                Seq::<RawEntry>::empty().to_multiset_ensures();
                assert(seq![eg] =~= Seq::<RawEntry>::empty().push(eg));
            }
        } else {
            proof {
                assert(Seq::<RawEntry>::empty() + subdirs_of(all.subrange(n + 1, all.len() as int))
                    =~= subdirs_of(all.subrange(n + 1, all.len() as int)));
            }
        }
    }
    proof {
        assert(all.subrange(0, all.len() as int) =~= all);
    }
    out
}

/// `name` joined onto `parent` with a path separator when needed.
pub fn join(parent: &Vec<u8>, name: &Vec<u8>) -> (r: Vec<u8>)
    ensures
        r@ == join_path(parent@, name@),
{
    let mut r = copy_bytes(parent);
    if parent.len() > 0 && parent[parent.len() - 1] != 47u8 {
        r.push(47u8);
    }
    let mut i: usize = 0;
    let ghost base = r@;
    while i < name.len()
        invariant
            i <= name.len(),
            r@ == base + name@.subrange(0, i as int),
        decreases name.len() - i,
    {
        r.push(name[i]);
        i = i + 1;
        assert(r@ =~= base + name@.subrange(0, i as int));
    }
    assert(name@.subrange(0, name@.len() as int) =~= name@);
    r
}

/// The `DirInfo` for entry `e` of the directory at `dir`, at index `i` of the
/// sorted subdirectory list.
pub open spec fn dir_info_of(dir: Seq<u8>, e: RawEntry, i: int) -> (Seq<u8>, Seq<u8>, int, int) {
    (e.name@, join_path(dir, e.name@), i, e.subdir_count as int)
}

pub open spec fn info_view(d: DirInfo) -> (Seq<u8>, Seq<u8>, int, int) {
    (d.name@, d.full_path@, d.index as int, d.subdir_count as int)
}

fn to_dir_info(dir: &Vec<u8>, e: &RawEntry, index: usize) -> (d: DirInfo)
    ensures
        info_view(d) == dir_info_of(dir@, *e, index as int),
{
    DirInfo {
        name: copy_bytes(&e.name),
        full_path: join(dir, &e.name),
        index,
        subdir_count: e.subdir_count,
    }
}

/// `out` lists the non-hidden children of the directory at `dir` whose
/// entries are `entries`: one `DirInfo` per sorted subdirectory, with its
/// index in that order.
pub open spec fn lists_children(entries: Seq<RawEntry>, dir: Seq<u8>, out: Seq<DirInfo>) -> bool {
    exists|subs: Seq<RawEntry>|
        {
            &&& is_subdir_list(entries, subs)
            &&& subs == sorted_subdirs(entries)
            &&& out.len() == subs.len()
            &&& forall|i: int| 0 <= i < out.len() ==> info_view(#[trigger] out[i]) == dir_info_of(dir, subs[i], i)
        }
}

/// Every non-hidden child of the directory, in sorted order, unwindowed.
pub fn list_children(listing: DirListing) -> (out: Vec<DirInfo>)
    ensures
        lists_children(listing.entries@, listing.path@, out@),
{
    let subs = list_subdirs(listing.entries);
    let mut out: Vec<DirInfo> = Vec::new();
    let mut i: usize = 0;
    while i < subs.len()
        invariant
            i <= subs.len(),
            out@.len() == i,
            forall|k: int|
                0 <= k < i ==> info_view(#[trigger] out@[k]) == dir_info_of(
                    listing.path@,
                    subs@[k],
                    k,
                ),
        decreases subs.len() - i,
    {
        out.push(to_dir_info(&listing.path, &subs[i], i));
        i = i + 1;
    }
    out
}

/// Index of the sibling named `name` among the sorted subdirectories, if any.
pub open spec fn position_of(subs: Seq<RawEntry>, name: Seq<u8>) -> Option<int> {
    if exists|i: int| 0 <= i < subs.len() && subs[i].name@ == name {
        Some(choose|i: int| 0 <= i < subs.len() && subs[i].name@ == name
            && forall|k: int| 0 <= k < i ==> subs[k].name@ != name)
    } else {
        None
    }
}

/// Window bounds: `radius` either side of `center`, clamped to `[0, total)`.
pub open spec fn window_lo(center: int, radius: int) -> int {
    if center >= radius {
        center - radius
    } else {
        0
    }
}

pub open spec fn window_hi(center: int, radius: int, total: int) -> int {
    if center + radius < total - 1 {
        center + radius
    } else {
        total - 1
    }
}

/// What a sibling window holds, given the sorted siblings `subs`, the index
/// `s` of the directory itself, and the radius: the entries at indices
/// `window_lo..=window_hi`, in order, except `s` itself.
pub open spec fn sibling_window_ok(
    dir: Seq<u8>,
    subs: Seq<RawEntry>,
    s: int,
    radius: int,
    window: Seq<DirInfo>,
) -> bool {
    let lo = window_lo(s, radius);
    let hi = window_hi(s, radius, subs.len() as int);
    &&& window.len() == hi - lo
    &&& forall|k: int|
        0 <= k < window.len() ==> {
            let i = if lo + k < s {
                lo + k
            } else {
                lo + k + 1
            };
            info_view(#[trigger] window[k]) == dir_info_of(dir, subs[i], i)
        }
}

/// Window of a directory's siblings (its parent's children), `radius` either
/// side of its own position among them, excluding itself.
///
/// `parent` is the listing of the directory's parent, `None` when it has
/// none (a filesystem root); `self_name` is the directory's own last path
/// component, `None` when its path has none. Returns `(total, self_index,
/// window)`; when the directory is not among its parent's non-hidden
/// children, `self_index` is 0 and the window is empty.
pub fn siblings_window(parent: Option<DirListing>, self_name: &Option<Vec<u8>>, radius: usize) -> (r: (
    usize,
    usize,
    Vec<DirInfo>,
))
    ensures
        parent is None ==> r.0 == 0 && r.1 == 0 && r.2@.len() == 0,
        parent matches Some(l) ==> exists|subs: Seq<RawEntry>|
            {
                &&& is_subdir_list(l.entries@, subs)
                &&& subs == sorted_subdirs(l.entries@)
                &&& r.0 == subs.len()
                &&& match (if self_name is Some { position_of(subs, self_name->0@) } else { None }) {
                    None => r.1 == 0 && r.2@.len() == 0,
                    Some(s) => r.1 == s && sibling_window_ok(l.path@, subs, s, radius as int, r.2@),
                }
            },
{
    match parent {
        None => (0, 0, Vec::new()),
        Some(listing) => {
            let subs = list_subdirs(listing.entries);
            let total = subs.len();
            let name = match self_name {
                None => {
                    return (total, 0, Vec::new());
                },
                Some(n) => n,
            };
            let mut idx: usize = 0;
            while idx < total && !(bytes_le(&subs[idx].name, name) && bytes_le(name, &subs[idx].name))
                invariant
                    idx <= total,
                    total == subs@.len(),
                    forall|k: int| 0 <= k < idx ==> subs@[k].name@ != name@,
                decreases total - idx,
            {
                proof {
                    if subs@[idx as int].name@ == name@ {
                        lemma_lex_total(name@, name@);
                    }
                }
                idx = idx + 1;
            }
            if idx == total {
                return (total, 0, Vec::new());
            }
            proof {
                lemma_lex_antisym(subs@[idx as int].name@, name@);
                assert(position_of(subs@, name@) == Some(idx as int));
            }
            let lo = if idx >= radius { idx - radius } else { 0 };
            let hi = if radius < total - 1 - idx { idx + radius } else { total - 1 };
            let mut window: Vec<DirInfo> = Vec::new();
            let mut i = lo;
            while i <= hi
                invariant
                    lo <= i <= hi + 1,
                    lo <= idx <= hi < total,
                    total == subs@.len(),
                    lo == window_lo(idx as int, radius as int),
                    hi == window_hi(idx as int, radius as int, total as int),
                    window@.len() == if i <= idx { i - lo } else { i - lo - 1 },
                    forall|k: int|
                        0 <= k < window@.len() ==> {
                            let j = if lo + k < idx {
                                lo + k
                            } else {
                                lo + k + 1
                            };
                            info_view(#[trigger] window@[k]) == dir_info_of(listing.path@, subs@[j], j)
                        },
                decreases hi + 1 - i,
            {
                if i != idx {
                    window.push(to_dir_info(&listing.path, &subs[i], i));
                }
                i = i + 1;
            }
            (total, idx, window)
        },
    }
}

pub proof fn lemma_lex_antisym(a: Seq<u8>, b: Seq<u8>)
    requires
        lex_le(a, b),
        lex_le(b, a),
    ensures
        a == b,
    decreases a.len(),
{
    if a.len() > 0 && b.len() > 0 {
        lemma_lex_antisym(a.drop_first(), b.drop_first());
        assert(a =~= seq![a[0]] + a.drop_first());
        assert(b =~= seq![b[0]] + b.drop_first());
    } else {
        assert(a.len() == 0 && b.len() == 0);
        assert(a =~= b);
    }
}

/// What a child window holds: the entries at indices
/// `window_lo(sel)..=window_hi(sel)` of the sorted children, in order, where
/// `sel` is the selection clamped to the last index.
pub open spec fn child_window_ok(
    dir: Seq<u8>,
    subs: Seq<RawEntry>,
    selected: int,
    radius: int,
    window: Seq<DirInfo>,
) -> bool {
    let total = subs.len() as int;
    let sel = if selected < total - 1 {
        selected
    } else {
        total - 1
    };
    let lo = window_lo(sel, radius);
    let hi = window_hi(sel, radius, total);
    &&& window.len() == hi - lo + 1
    &&& forall|k: int|
        0 <= k < window.len() ==> info_view(#[trigger] window[k]) == dir_info_of(
            dir,
            subs[lo + k],
            lo + k,
        )
}

/// `(total, window)` is the child window of the directory at `dir` whose
/// entries are `entries`: `total` sorted subdirectories, and the window
/// `child_window_ok` describes around `selected` (empty without children).
pub open spec fn is_child_window(
    entries: Seq<RawEntry>,
    dir: Seq<u8>,
    selected: int,
    radius: int,
    total: int,
    window: Seq<DirInfo>,
) -> bool {
    exists|subs: Seq<RawEntry>|
        {
            &&& is_subdir_list(entries, subs)
            &&& subs == sorted_subdirs(entries)
            &&& total == subs.len()
            &&& if subs.len() == 0 {
                window.len() == 0
            } else {
                child_window_ok(dir, subs, selected, radius, window)
            }
        }
}

/// Window of a directory's own children, `radius` either side of `selected`
/// (an index into the sorted child list; out-of-range values clamp to the
/// last index). Returns `(total, window)`; with no non-hidden
/// subdirectories both are `0`/empty.
pub fn children_window(listing: DirListing, selected: usize, radius: usize) -> (r: (
    usize,
    Vec<DirInfo>,
))
    ensures
        is_child_window(listing.entries@, listing.path@, selected as int, radius as int, r.0 as int, r.1@),
{
    let subs = list_subdirs(listing.entries);
    let total = subs.len();
    if total == 0 {
        return (0, Vec::new());
    }
    let sel = if selected < total - 1 { selected } else { total - 1 };
    let lo = if sel >= radius { sel - radius } else { 0 };
    let hi = if radius < total - 1 - sel { sel + radius } else { total - 1 };
    let mut window: Vec<DirInfo> = Vec::new();
    let mut i = lo;
    while i <= hi
        invariant
            lo <= i <= hi + 1,
            hi < total,
            total == subs@.len(),
            window@.len() == i - lo,
            forall|k: int|
                0 <= k < window@.len() ==> info_view(#[trigger] window@[k]) == dir_info_of(
                    listing.path@,
                    subs@[lo + k],
                    lo + k,
                ),
        decreases hi + 1 - i,
    {
        window.push(to_dir_info(&listing.path, &subs[i], i));
        i = i + 1;
    }
    (total, window)
}


/// A sibling window never holds the directory itself, holds at most
/// `2 * radius` siblings, lists them in index order, and stays within the
/// sibling list however close to either end the directory is.
pub proof fn sibling_window_excludes_self(
    dir: Seq<u8>,
    subs: Seq<RawEntry>,
    s: int,
    radius: int,
    window: Seq<DirInfo>,
)
    requires
        0 <= s < subs.len(),
        0 <= radius,
        sibling_window_ok(dir, subs, s, radius, window),
    ensures
        window.len() <= 2 * radius,
        forall|k: int| 0 <= k < window.len() ==> #[trigger] window[k].index != s,
        forall|k: int|
            0 <= k < window.len() ==> 0 <= #[trigger] window[k].index < subs.len()
                && s - radius <= window[k].index <= s + radius,
        forall|k: int, l: int| 0 <= k < l < window.len() ==> window[k].index < window[l].index,
{
    assert forall|k: int| 0 <= k < window.len() implies #[trigger] window[k].index != s by {
        assert(info_view(window[k]) == info_view(window[k]));
    }
    assert forall|k: int, l: int| 0 <= k < l < window.len() implies window[k].index < window[l].index by {
        assert(info_view(window[k]).2 == window[k].index as int);
        assert(info_view(window[l]).2 == window[l].index as int);
    }
}

/// A child window is never empty when there are children, holds at most
/// `2 * radius + 1` of them in index order, and always holds the selection
/// (clamped to the last child).
pub proof fn child_window_holds_selection(
    dir: Seq<u8>,
    subs: Seq<RawEntry>,
    selected: int,
    radius: int,
    window: Seq<DirInfo>,
)
    requires
        subs.len() > 0,
        0 <= selected,
        0 <= radius,
        child_window_ok(dir, subs, selected, radius, window),
    ensures
        1 <= window.len() <= 2 * radius + 1,
        exists|k: int|
            0 <= k < window.len() && #[trigger] window[k].index == (if selected < subs.len() {
                selected
            } else {
                subs.len() - 1
            }),
        forall|k: int, l: int| 0 <= k < l < window.len() ==> window[k].index < window[l].index,
{
    let total = subs.len() as int;
    let sel = if selected < total - 1 {
        selected
    } else {
        total - 1
    };
    let lo = window_lo(sel, radius);
    let k = sel - lo;
    assert(info_view(window[k]).2 == window[k].index as int);
    assert forall|a: int, b: int| 0 <= a < b < window.len() implies window[a].index < window[b].index by {
        assert(info_view(window[a]).2 == window[a].index as int);
        assert(info_view(window[b]).2 == window[b].index as int);
    }
}


/// A child window is a run of the full child listing: when `list_children`
/// gives `out` for a listing, `children_window` on the same listing gives
/// `out`'s length as the total and, around the selection (clamped to the
/// last child), exactly the entries of `out` at indices
/// `window_lo..=window_hi`; with no children, an empty window.
pub proof fn child_window_is_a_run_of_the_children(
    entries: Seq<RawEntry>,
    dir: Seq<u8>,
    out: Seq<DirInfo>,
    selected: int,
    radius: int,
    total: int,
    window: Seq<DirInfo>,
)
    requires
        0 <= selected,
        0 <= radius,
        lists_children(entries, dir, out),
        is_child_window(entries, dir, selected, radius, total, window),
    ensures
        total == out.len(),
        out.len() == 0 ==> window.len() == 0,
        out.len() > 0 ==> {
            let sel = if selected < out.len() - 1 {
                selected
            } else {
                out.len() - 1
            };
            let lo = window_lo(sel, radius);
            &&& window.len() == window_hi(sel, radius, out.len() as int) - lo + 1
            &&& forall|k: int| 0 <= k < window.len() ==> info_view(#[trigger] window[k]) == info_view(out[lo + k])
        },
{
    let s1 = choose|subs: Seq<RawEntry>|
        {
            &&& is_subdir_list(entries, subs)
            &&& subs == sorted_subdirs(entries)
            &&& out.len() == subs.len()
            &&& forall|i: int| 0 <= i < out.len() ==> info_view(#[trigger] out[i]) == dir_info_of(dir, subs[i], i)
        };
    let s2 = choose|subs: Seq<RawEntry>|
        {
            &&& is_subdir_list(entries, subs)
            &&& subs == sorted_subdirs(entries)
            &&& total == subs.len()
            &&& if subs.len() == 0 {
                window.len() == 0
            } else {
                child_window_ok(dir, subs, selected, radius, window)
            }
        };
    if out.len() > 0 {
        let sel = if selected < out.len() - 1 {
            selected
        } else {
            out.len() - 1
        };
        let lo = window_lo(sel, radius);
        assert forall|k: int| 0 <= k < window.len() implies info_view(#[trigger] window[k]) == info_view(
            out[lo + k],
        ) by {
            assert(info_view(out[lo + k]) == dir_info_of(dir, s1[lo + k], lo + k));
        }
    }
}

/// A listing of subdirectories holds only directories, and never a hidden
/// one: hidden directories never become rooms.
pub proof fn listings_hold_no_hidden_entries(entries: Seq<RawEntry>, subs: Seq<RawEntry>)
    requires
        is_subdir_list(entries, subs),
    ensures
        forall|k: int| 0 <= k < subs.len() ==> (#[trigger] subs[k]).is_dir && !is_hidden(subs[k].name@),
{
    assert forall|k: int| 0 <= k < subs.len() implies (#[trigger] subs[k]).is_dir && !is_hidden(subs[k].name@) by {
        let f = subdirs_of(entries);
        subs.to_multiset_ensures();
        f.to_multiset_ensures();
        assert(subs.contains(subs[k]));
        assert(f.to_multiset().count(subs[k]) > 0);
        assert(f.contains(subs[k]));
        let i = choose|i: int| 0 <= i < f.len() && f[i] == subs[k];
        entries.lemma_filter_pred(|e: RawEntry| is_subdir(e), i);
    }
}

} // verus!
