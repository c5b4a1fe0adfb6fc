//! The NPC simulation rules' bookkeeping: for every site, the list of ever
//! larger sites nearest to it, which NPCs use to pick where to move; and
//! when a player character stops counting as present.
//!
//! Sites are given as plain values: an identifier, a world position, and the
//! number of plots the site has.
use vstd::prelude::*;

verus! {

/// The rule that moves simulated NPCs about the world.
pub struct SimulateNpcs;

/// The rule that keeps NPC and site records in step with the world.
pub struct SyncNpcs;

/// Whether a player character's presence has lapsed at `tick`: it was last
/// seen before the penultimate tick (the player has likely logged off).
/// Characters never seen keep their presence.
pub fn presence_lapsed(tick: u64, last_present_at: Option<u64>) -> (r: bool)
    requires
        last_present_at != Some(u64::MAX),
    ensures
        r == (match last_present_at {
            Some(last) => tick > last + 1,
            None => false,
        }),
{
    match last_present_at {
        Some(last) => tick > last + 1,
        None => false,
    }
}

/// A site as the nearest-by-size computation sees it.
#[derive(Clone, Copy, Debug, PartialEq, Eq, Structural)]
pub struct SiteEntry {
    pub id: u64,
    pub x: i32,
    pub y: i32,
    pub plots: usize,
}

/// Squared distance between two sites.
pub open spec fn dist2(a: SiteEntry, b: SiteEntry) -> int {
    (a.x - b.x) * (a.x - b.x) + (a.y - b.y) * (a.y - b.y)
}

/// The other sites with more plots than `c`, in their given order.
pub open spec fn larger_sites(sites: Seq<SiteEntry>, c: SiteEntry) -> Seq<SiteEntry>
    decreases sites.len(),
{
    if sites.len() == 0 {
        Seq::empty()
    } else {
        let rest = larger_sites(sites.drop_last(), c);
        let o = sites.last();
        if o.id != c.id && o.plots > c.plots {
            rest.push(o)
        } else {
            rest
        }
    }
}

/// Insert `x` into `s` after every element no farther from `c` than `x`.
pub open spec fn insert_by_dist(s: Seq<SiteEntry>, x: SiteEntry, c: SiteEntry) -> Seq<SiteEntry>
    decreases s.len(),
{
    if s.len() == 0 {
        seq![x]
    } else if dist2(s.last(), c) <= dist2(x, c) {
        s.push(x)
    } else {
        insert_by_dist(s.drop_last(), x, c).push(s.last())
    }
}

/// `s` stably sorted by distance from `c`: nearer first, equally near ones
/// in their given order.
pub open spec fn sort_by_dist(s: Seq<SiteEntry>, c: SiteEntry) -> Seq<SiteEntry>
    decreases s.len(),
{
    if s.len() == 0 {
        Seq::empty()
    } else {
        insert_by_dist(sort_by_dist(s.drop_last(), c), s.last(), c)
    }
}

/// The largest plot count in `s` (0 when empty).
pub open spec fn max_plots(s: Seq<SiteEntry>) -> nat
    decreases s.len(),
{
    if s.len() == 0 {
        0
    } else {
        let m = max_plots(s.drop_last());
        if s.last().plots > m {
            s.last().plots as nat
        } else {
            m
        }
    }
}

/// The identifiers of the elements of `s` that have more plots than every
/// element before them.
pub open spec fn growing_ids(s: Seq<SiteEntry>) -> Seq<u64>
    decreases s.len(),
{
    if s.len() == 0 {
        Seq::empty()
    } else {
        let rest = growing_ids(s.drop_last());
        if s.last().plots > max_plots(s.drop_last()) {
            rest.push(s.last().id)
        } else {
            rest
        }
    }
}

/// The sites nearest to `c` by size: of the larger sites, nearest first,
/// each one kept only if it is larger than all nearer ones kept before it.
pub open spec fn nearest_by_size_spec(sites: Seq<SiteEntry>, c: SiteEntry) -> Seq<u64> {
    growing_ids(sort_by_dist(larger_sites(sites, c), c))
}

/// A site and its nearest sites by size.
#[derive(Clone, Debug)]
pub struct SiteNeighbours {
    pub site: u64,
    pub nearest_by_size: Vec<u64>,
}

pub open spec fn neighbours_view(n: SiteNeighbours) -> (u64, Seq<u64>) {
    (n.site, n.nearest_by_size@)
}

fn dist2_exec(a: &SiteEntry, c: &SiteEntry) -> (d: i128)
    ensures
        d == dist2(*a, *c),
{
    let dx: i128 = (a.x as i128) - (c.x as i128);
    let dy: i128 = (a.y as i128) - (c.y as i128);
    assert(dx * dx <= 0x1_0000_0000 * 0x1_0000_0000) by (nonlinear_arith)
        requires
            -0x1_0000_0000 <= dx <= 0x1_0000_0000,
    ;
    assert(dy * dy <= 0x1_0000_0000 * 0x1_0000_0000) by (nonlinear_arith)
        requires
            -0x1_0000_0000 <= dy <= 0x1_0000_0000,
    ;
    assert(0 <= dx * dx) by (nonlinear_arith);
    assert(0 <= dy * dy) by (nonlinear_arith);
    dx * dx + dy * dy
}

/// Inserting at `j` is `insert_by_dist` when everything from `j` on is
/// farther than `x` and the element before `j` (if any) is not.
proof fn lemma_insert_at(s: Seq<SiteEntry>, x: SiteEntry, c: SiteEntry, j: int)
    requires
        0 <= j <= s.len(),
        forall|k: int| j <= k < s.len() ==> dist2(#[trigger] s[k], c) > dist2(x, c),
        j > 0 ==> dist2(s[j - 1], c) <= dist2(x, c),
    ensures
        insert_by_dist(s, x, c) == s.insert(j, x),
    decreases s.len(),
{
    if s.len() == 0 {
        assert(s.insert(j, x) =~= seq![x]);
    } else if j == s.len() {
        assert(s.insert(j, x) =~= s.push(x));
    } else {
        let t = s.drop_last();
        assert forall|k: int| j <= k < t.len() implies dist2(#[trigger] t[k], c) > dist2(x, c) by {
            assert(t[k] == s[k]);
        }
        lemma_insert_at(t, x, c, j);
        assert(s.insert(j, x) =~= t.insert(j, x).push(s.last()));
    }
}

/// Insert `x` into the distance-sorted `v`, keeping equally near elements in
/// arrival order.
fn insert_sorted(v: &mut Vec<SiteEntry>, x: SiteEntry, c: &SiteEntry)
    ensures
        final(v)@ == insert_by_dist(old(v)@, x, *c),
{
    let dx = dist2_exec(&x, c);
    let mut j: usize = v.len();
    while j > 0 && dist2_exec(&v[j - 1], c) > dx
        invariant
            j <= v.len(),
            dx == dist2(x, *c),
            forall|k: int| j <= k < v.len() ==> dist2(#[trigger] v@[k], *c) > dist2(x, *c),
        decreases j,
    {
        j -= 1;
    }
    proof {
        lemma_insert_at(v@, x, *c, j as int);
    }
    v.insert(j, x);
}

/// The sites nearest to `c` by size (see `nearest_by_size_spec`).
pub fn nearest_by_size(sites: &Vec<SiteEntry>, c: &SiteEntry) -> (r: Vec<u64>)
    ensures
        r@ == nearest_by_size_spec(sites@, *c),
{
    let mut sorted: Vec<SiteEntry> = Vec::new();
    let mut i: usize = 0;
    while i < sites.len()
        invariant
            i <= sites.len(),
            sorted@ == sort_by_dist(larger_sites(sites@.subrange(0, i as int), *c), *c),
        decreases sites.len() - i,
    {
        let o = sites[i];
        let ghost pre = sites@.subrange(0, i as int);
        assert(sites@.subrange(0, i + 1).drop_last() =~= pre);
        if o.id != c.id && o.plots > c.plots {
            let ghost before = larger_sites(pre, *c);
            assert(larger_sites(sites@.subrange(0, i + 1), *c) == before.push(o));
            assert(before.push(o).drop_last() =~= before);
            insert_sorted(&mut sorted, o, c);
        }
        i += 1;
    }
    assert(sites@.subrange(0, sites.len() as int) =~= sites@);
    let mut r: Vec<u64> = Vec::new();
    let mut max: usize = 0;
    let mut k: usize = 0;
    while k < sorted.len()
        invariant
            k <= sorted.len(),
            max == max_plots(sorted@.subrange(0, k as int)),
            r@ == growing_ids(sorted@.subrange(0, k as int)),
        decreases sorted.len() - k,
    {
        let o = sorted[k];
        assert(sorted@.subrange(0, k + 1).drop_last() =~= sorted@.subrange(0, k as int));
        if o.plots > max {
            r.push(o.id);
            max = o.plots;
        }
        k += 1;
    }
    assert(sorted@.subrange(0, sorted.len() as int) =~= sorted@);
    r
}

/// For each site, in order, its nearest sites by size among `sites`.
pub fn nearest_sites_by_size(sites: &Vec<SiteEntry>) -> (r: Vec<SiteNeighbours>)
    ensures
        r@.len() == sites@.len(),
        forall|i: int|
            0 <= i < sites@.len() ==> neighbours_view(#[trigger] r@[i]) == (
                sites@[i].id,
                nearest_by_size_spec(sites@, sites@[i]),
            ),
{
    let mut r: Vec<SiteNeighbours> = Vec::new();
    let mut i: usize = 0;
    while i < sites.len()
        invariant
            i <= sites.len(),
            r@.len() == i,
            forall|k: int|
                0 <= k < i ==> neighbours_view(#[trigger] r@[k]) == (
                    sites@[k].id,
                    nearest_by_size_spec(sites@, sites@[k]),
                ),
        decreases sites.len() - i,
    {
        let near = nearest_by_size(sites, &sites[i]);
        r.push(SiteNeighbours { site: sites[i].id, nearest_by_size: near });
        i += 1;
    }
    r
}


/// Every site in `larger_sites` is another site with more plots than `c`,
/// taken from `sites`.
proof fn lemma_larger_sites(sites: Seq<SiteEntry>, c: SiteEntry)
    ensures
        forall|k: int|
            0 <= k < larger_sites(sites, c).len() ==> {
                let o = #[trigger] larger_sites(sites, c)[k];
                &&& o.id != c.id
                &&& o.plots > c.plots
                &&& sites.contains(o)
            },
    decreases sites.len(),
{
    if sites.len() > 0 {
        lemma_larger_sites(sites.drop_last(), c);
        let rest = larger_sites(sites.drop_last(), c);
        assert forall|k: int| 0 <= k < rest.len() implies sites.contains(#[trigger] rest[k]) by {
            let o = rest[k];
            let j = choose|j: int| 0 <= j < sites.drop_last().len() && sites.drop_last()[j] == o;
            assert(sites[j] == o);
        }
        assert(sites[sites.len() - 1] == sites.last());
    }
}

/// Inserting keeps the elements (as a multiset) and adds `x`.
proof fn lemma_insert_elements(s: Seq<SiteEntry>, x: SiteEntry, c: SiteEntry)
    ensures
        insert_by_dist(s, x, c).to_multiset() == s.to_multiset().insert(x),
        insert_by_dist(s, x, c).len() == s.len() + 1,
    decreases s.len(),
{
    broadcast use vstd::multiset::group_multiset_axioms;
    s.to_multiset_ensures();
    if s.len() == 0 {
        seq![x].to_multiset_ensures();
        assert(seq![x] =~= Seq::<SiteEntry>::empty().push(x));
        Seq::<SiteEntry>::empty().to_multiset_ensures();
    } else if dist2(s.last(), c) <= dist2(x, c) {
    } else {
        let t = s.drop_last();
        lemma_insert_elements(t, x, c);
        t.to_multiset_ensures();
        insert_by_dist(t, x, c).to_multiset_ensures();
        assert(s =~= t.push(s.last()));
        assert(insert_by_dist(s, x, c).to_multiset() =~= s.to_multiset().insert(x));
    }
}

/// Sorting keeps the elements.
proof fn lemma_sort_elements(s: Seq<SiteEntry>, c: SiteEntry)
    ensures
        sort_by_dist(s, c).to_multiset() == s.to_multiset(),
        sort_by_dist(s, c).len() == s.len(),
    decreases s.len(),
{
    broadcast use vstd::multiset::group_multiset_axioms;
    if s.len() == 0 {
        s.to_multiset_ensures();
        Seq::<SiteEntry>::empty().to_multiset_ensures();
    } else {
        let t = s.drop_last();
        lemma_sort_elements(t, c);
        lemma_insert_elements(sort_by_dist(t, c), s.last(), c);
        t.to_multiset_ensures();
        assert(s =~= t.push(s.last()));
    }
}

/// Inserting into a distance-sorted sequence keeps it sorted.
proof fn lemma_insert_sorted(s: Seq<SiteEntry>, x: SiteEntry, c: SiteEntry)
    requires
        forall|i: int, j: int| 0 <= i <= j < s.len() ==> dist2(s[i], c) <= dist2(s[j], c),
    ensures
        forall|i: int, j: int|
            0 <= i <= j < insert_by_dist(s, x, c).len() ==> dist2(insert_by_dist(s, x, c)[i], c)
                <= dist2(insert_by_dist(s, x, c)[j], c),
    decreases s.len(),
{
    if s.len() > 0 && dist2(s.last(), c) > dist2(x, c) {
        let t = s.drop_last();
        lemma_insert_sorted(t, x, c);
        lemma_insert_elements(t, x, c);
        let u = insert_by_dist(t, x, c);
        assert forall|k: int| 0 <= k < u.len() implies dist2(#[trigger] u[k], c) <= dist2(s.last(), c) by {
            u.to_multiset_ensures();
            t.to_multiset_ensures();
            assert(u.to_multiset().count(u[k]) > 0);
            if u[k] != x {
                assert(t.to_multiset().count(u[k]) > 0);
                let j = choose|j: int| 0 <= j < t.len() && t[j] == u[k];
                assert(s[j] == t[j]);
            }
        }
    }
}

/// Sorting orders by distance.
proof fn lemma_sorted(s: Seq<SiteEntry>, c: SiteEntry)
    ensures
        forall|i: int, j: int|
            0 <= i <= j < sort_by_dist(s, c).len() ==> dist2(sort_by_dist(s, c)[i], c) <= dist2(
                sort_by_dist(s, c)[j],
                c,
            ),
    decreases s.len(),
{
    if s.len() > 0 {
        lemma_sorted(s.drop_last(), c);
        lemma_insert_sorted(sort_by_dist(s.drop_last(), c), s.last(), c);
    }
}

/// The identifiers `growing_ids` keeps come with strictly growing plot
/// counts, each above every earlier element's, and each from `s`.
proof fn lemma_growing(s: Seq<SiteEntry>)
    ensures
        exists|picked: Seq<int>|
            {
                &&& #[trigger] picked.len() == growing_ids(s).len()
                &&& forall|k: int|
                    0 <= k < picked.len() ==> 0 <= #[trigger] picked[k] < s.len() && s[picked[k]].id
                        == growing_ids(s)[k]
                &&& forall|k: int, l: int|
                    0 <= k < l < picked.len() ==> picked[k] < picked[l] && s[picked[k]].plots
                        < s[picked[l]].plots
                &&& forall|k: int| 0 <= k < picked.len() ==> s[#[trigger] picked[k]].plots <= max_plots(s)
            },
    decreases s.len(),
{
    if s.len() == 0 {
        assert(Seq::<int>::empty().len() == growing_ids(s).len());
    } else {
        let t = s.drop_last();
        lemma_growing(t);
        lemma_max_plots(t);
        let pt = choose|picked: Seq<int>|
            {
                &&& #[trigger] picked.len() == growing_ids(t).len()
                &&& forall|k: int|
                    0 <= k < picked.len() ==> 0 <= #[trigger] picked[k] < t.len() && t[picked[k]].id
                        == growing_ids(t)[k]
                &&& forall|k: int, l: int|
                    0 <= k < l < picked.len() ==> picked[k] < picked[l] && t[picked[k]].plots
                        < t[picked[l]].plots
                &&& forall|k: int| 0 <= k < picked.len() ==> t[#[trigger] picked[k]].plots <= max_plots(t)
            };
        if s.last().plots > max_plots(t) {
            let ps = pt.push(s.len() - 1);
            assert(ps.len() == growing_ids(s).len());
            assert forall|k: int| 0 <= k < ps.len() implies 0 <= #[trigger] ps[k] < s.len() && s[ps[k]].id
                == growing_ids(s)[k] by {
                if k < pt.len() {
                    assert(ps[k] == pt[k]);
                }
            }
            assert forall|k: int, l: int| 0 <= k < l < ps.len() implies ps[k] < ps[l] && s[ps[k]].plots
                < s[ps[l]].plots by {
                assert(ps[k] == pt[k]);
                if l < pt.len() {
                    assert(ps[l] == pt[l]);
                }
            }
            assert forall|k: int| 0 <= k < ps.len() implies s[#[trigger] ps[k]].plots <= max_plots(s) by {
                if k < pt.len() {
                    assert(ps[k] == pt[k]);
                }
            }
        } else {
            assert forall|k: int| 0 <= k < pt.len() implies 0 <= #[trigger] pt[k] < s.len() && s[pt[k]].id
                == growing_ids(s)[k] by {}
            assert forall|k: int| 0 <= k < pt.len() implies s[#[trigger] pt[k]].plots <= max_plots(s) by {}
        }
    }
}

proof fn lemma_max_plots(s: Seq<SiteEntry>)
    ensures
        forall|k: int| 0 <= k < s.len() ==> #[trigger] s[k].plots <= max_plots(s),
    decreases s.len(),
{
    if s.len() > 0 {
        lemma_max_plots(s.drop_last());
        assert forall|k: int| 0 <= k < s.len() implies #[trigger] s[k].plots <= max_plots(s) by {
            if k < s.len() - 1 {
                assert(s[k] == s.drop_last()[k]);
            }
        }
    }
}

/// What a site's nearest-by-size list promises: every listed site is
/// another site of `sites` with more plots than `c`; the list goes from
/// nearer to farther; and each listed site is strictly larger than the one
/// listed before it.
pub proof fn nearest_by_size_is_growing_and_nearest_first(sites: Seq<SiteEntry>, c: SiteEntry)
    ensures
        exists|picked: Seq<SiteEntry>|
            {
                &&& #[trigger] picked.len() == nearest_by_size_spec(sites, c).len()
                &&& forall|k: int|
                    0 <= k < picked.len() ==> {
                        let o = #[trigger] picked[k];
                        &&& o.id == nearest_by_size_spec(sites, c)[k]
                        &&& o.id != c.id
                        &&& o.plots > c.plots
                        &&& sites.contains(o)
                    }
                &&& forall|k: int, l: int|
                    0 <= k < l < picked.len() ==> dist2(picked[k], c) <= dist2(picked[l], c)
                        && picked[k].plots < picked[l].plots
            },
{
    let large = larger_sites(sites, c);
    let sorted = sort_by_dist(large, c);
    lemma_larger_sites(sites, c);
    lemma_sort_elements(large, c);
    lemma_sorted(large, c);
    lemma_growing(sorted);
    let idx = choose|picked: Seq<int>|
        {
            &&& #[trigger] picked.len() == growing_ids(sorted).len()
            &&& forall|k: int|
                0 <= k < picked.len() ==> 0 <= #[trigger] picked[k] < sorted.len() && sorted[picked[k]].id
                    == growing_ids(sorted)[k]
            &&& forall|k: int, l: int|
                0 <= k < l < picked.len() ==> picked[k] < picked[l] && sorted[picked[k]].plots
                    < sorted[picked[l]].plots
            &&& forall|k: int| 0 <= k < picked.len() ==> sorted[#[trigger] picked[k]].plots <= max_plots(sorted)
        };
    let picked = idx.map_values(|i: int| sorted[i]);
    assert forall|k: int| 0 <= k < picked.len() implies {
        let o = #[trigger] picked[k];
        &&& o.id == nearest_by_size_spec(sites, c)[k]
        &&& o.id != c.id
        &&& o.plots > c.plots
        &&& sites.contains(o)
    } by {
        let o = sorted[idx[k]];
        sorted.to_multiset_ensures();
        large.to_multiset_ensures();
        assert(sorted.to_multiset().count(o) > 0);
        assert(large.to_multiset().count(o) > 0);
        let j = choose|j: int| 0 <= j < large.len() && large[j] == o;
        assert(large[j] == o);
    }
    assert forall|k: int, l: int| 0 <= k < l < picked.len() implies dist2(picked[k], c) <= dist2(picked[l], c)
        && picked[k].plots < picked[l].plots by {
        assert(idx[k] < idx[l]);
    }
    assert(picked.len() == nearest_by_size_spec(sites, c).len());
}

/// Site `o` is another site than `c` with more plots.
pub open spec fn larger_than(o: SiteEntry, c: SiteEntry) -> bool {
    o.id != c.id && o.plots > c.plots
}

/// In `s`, the element at `a` comes before the one at `b` when ordered by
/// distance from `c`, equally near ones by their position.
pub open spec fn ahead(s: Seq<SiteEntry>, a: int, b: int, c: SiteEntry) -> bool {
    dist2(s[a], c) < dist2(s[b], c) || (dist2(s[a], c) == dist2(s[b], c) && a < b)
}

/// The larger sites are those of `sites` that are larger than `c`, in
/// order: `idx` gives each one's position in `sites`.
proof fn lemma_larger_positions(sites: Seq<SiteEntry>, c: SiteEntry) -> (idx: Seq<int>)
    ensures
        idx.len() == larger_sites(sites, c).len(),
        forall|m: int|
            0 <= m < idx.len() ==> 0 <= #[trigger] idx[m] < sites.len() && larger_sites(sites, c)[m]
                == sites[idx[m]],
        forall|m: int, l: int| 0 <= m < l < idx.len() ==> idx[m] < idx[l],
        forall|j: int|
            0 <= j < sites.len() && larger_than(#[trigger] sites[j], c) ==> exists|m: int|
                0 <= m < idx.len() && idx[m] == j,
    decreases sites.len(),
{
    if sites.len() == 0 {
        Seq::empty()
    } else {
        let t = sites.drop_last();
        let it = lemma_larger_positions(t, c);
        let n = t.len() as int;
        let idx = if larger_than(sites.last(), c) { it.push(n) } else { it };
        assert forall|m: int| 0 <= m < idx.len() implies 0 <= #[trigger] idx[m] < sites.len() && larger_sites(
            sites,
            c,
        )[m] == sites[idx[m]] by {
            if m < it.len() {
                assert(idx[m] == it[m]);
                assert(t[it[m]] == sites[it[m]]);
            }
        }
        assert forall|j: int| 0 <= j < sites.len() && larger_than(#[trigger] sites[j], c) implies exists|m: int|
            0 <= m < idx.len() && idx[m] == j by {
            if j < n {
                assert(t[j] == sites[j]);
                let m = choose|m: int| 0 <= m < it.len() && it[m] == j;
                assert(idx[m] == j);
            } else {
                assert(idx[idx.len() - 1] == j);
            }
        }
        idx
    }
}

/// Inserting `x` goes in after the last element no farther than `x`.
proof fn lemma_insert_place(s: Seq<SiteEntry>, x: SiteEntry, c: SiteEntry) -> (k: int)
    ensures
        0 <= k <= s.len(),
        insert_by_dist(s, x, c) == s.insert(k, x),
        forall|q: int| k <= q < s.len() ==> dist2(#[trigger] s[q], c) > dist2(x, c),
        k > 0 ==> dist2(s[k - 1], c) <= dist2(x, c),
    decreases s.len(),
{
    if s.len() == 0 {
        assert(s.insert(0, x) =~= seq![x]);
        0
    } else if dist2(s.last(), c) <= dist2(x, c) {
        assert(s.insert(s.len() as int, x) =~= s.push(x));
        s.len() as int
    } else {
        let t = s.drop_last();
        let k = lemma_insert_place(t, x, c);
        assert(s.insert(k, x) =~= t.insert(k, x).push(s.last()));
        assert forall|q: int| k <= q < s.len() implies dist2(#[trigger] s[q], c) > dist2(x, c) by {
            if q < t.len() {
                assert(s[q] == t[q]);
            }
        }
        if k > 0 {
            assert(s[k - 1] == t[k - 1]);
        }
        k
    }
}

/// Position `j` appears in `perm`.
spec fn takes_place(perm: Seq<int>, j: int) -> bool {
    exists|q: int| 0 <= q < perm.len() && perm[q] == j
}

/// Sorting by distance is stable: `perm` gives, for each place of the
/// sorted sequence, the position in `s` of the element there; nearer
/// elements, and equally near ones given earlier, come first.
proof fn lemma_sort_positions(s: Seq<SiteEntry>, c: SiteEntry) -> (perm: Seq<int>)
    ensures
        perm.len() == s.len(),
        sort_by_dist(s, c).len() == s.len(),
        forall|q: int| 0 <= q < perm.len() ==> 0 <= #[trigger] perm[q] < s.len() && sort_by_dist(s, c)[q] == s[perm[q]],
        forall|q: int, r: int| 0 <= q < r < perm.len() ==> ahead(s, #[trigger] perm[q], #[trigger] perm[r], c),
        forall|j: int| 0 <= j < s.len() ==> #[trigger] takes_place(perm, j),
    decreases s.len(),
{
    if s.len() == 0 {
        Seq::empty()
    } else {
        let t = s.drop_last();
        let x = s.last();
        let n = t.len() as int;
        let pt = lemma_sort_positions(t, c);
        let st = sort_by_dist(t, c);
        let k = lemma_insert_place(st, x, c);
        let perm = pt.insert(k, n);
        let ss = sort_by_dist(s, c);
        assert(ss == st.insert(k, x));
        assert forall|q: int| 0 <= q < k implies dist2(#[trigger] st[q], c) <= dist2(x, c) by {
            if q < k - 1 {
                assert(ahead(t, pt[q], pt[k - 1], c));
                assert(t[pt[q]] == s[pt[q]] && t[pt[k - 1]] == s[pt[k - 1]]);
            }
        }
        assert forall|q: int| 0 <= q < perm.len() implies 0 <= #[trigger] perm[q] < s.len() && ss[q] == s[perm[q]] by {
            if q < k {
                assert(perm[q] == pt[q]);
                assert(t[pt[q]] == s[pt[q]]);
            } else if q > k {
                assert(perm[q] == pt[q - 1]);
                assert(t[pt[q - 1]] == s[pt[q - 1]]);
            }
        }
        assert forall|q: int, r: int| 0 <= q < r < perm.len() implies ahead(s, #[trigger] perm[q], #[trigger] perm[r], c) by {
            if r < k {
                assert(perm[q] == pt[q] && perm[r] == pt[r]);
                assert(ahead(t, pt[q], pt[r], c));
                assert(t[pt[q]] == s[pt[q]] && t[pt[r]] == s[pt[r]]);
            } else if r == k {
                assert(perm[q] == pt[q]);
                assert(dist2(st[q], c) <= dist2(x, c));
                assert(t[pt[q]] == s[pt[q]]);
            } else if q == k {
                assert(perm[r] == pt[r - 1]);
                assert(dist2(st[r - 1], c) > dist2(x, c));
                assert(t[pt[r - 1]] == s[pt[r - 1]]);
            } else if q < k {
                assert(perm[q] == pt[q] && perm[r] == pt[r - 1]);
                assert(ahead(t, pt[q], pt[r - 1], c));
                assert(t[pt[q]] == s[pt[q]] && t[pt[r - 1]] == s[pt[r - 1]]);
            } else {
                assert(perm[q] == pt[q - 1] && perm[r] == pt[r - 1]);
                assert(ahead(t, pt[q - 1], pt[r - 1], c));
                assert(t[pt[q - 1]] == s[pt[q - 1]] && t[pt[r - 1]] == s[pt[r - 1]]);
            }
        }
        assert forall|j: int| 0 <= j < s.len() implies #[trigger] takes_place(perm, j) by {
            if j < n {
                assert(takes_place(pt, j));
                let q = choose|q: int| 0 <= q < pt.len() && pt[q] == j;
                if q < k {
                    assert(perm[q] == j);
                } else {
                    assert(perm[q + 1] == j);
                }
            } else {
                assert(perm[k] == j);
            }
        }
        perm
    }
}

/// `growing_ids` of a prefix is a prefix of `growing_ids`.
proof fn lemma_growing_prefix(s: Seq<SiteEntry>, m: int)
    requires
        0 <= m <= s.len(),
    ensures
        growing_ids(s.subrange(0, m)).len() <= growing_ids(s).len(),
        forall|i: int|
            0 <= i < growing_ids(s.subrange(0, m)).len() ==> #[trigger] growing_ids(s)[i] == growing_ids(
                s.subrange(0, m),
            )[i],
    decreases s.len(),
{
    if m == s.len() {
        assert(s.subrange(0, m) =~= s);
    } else {
        let t = s.drop_last();
        assert(t.subrange(0, m) =~= s.subrange(0, m));
        lemma_growing_prefix(t, m);
    }
}

/// Below a bound `v` above 0 when every element is below it.
proof fn lemma_max_below(s: Seq<SiteEntry>, v: nat)
    requires
        v > 0,
        forall|q: int| 0 <= q < s.len() ==> (#[trigger] s[q]).plots < v,
    ensures
        max_plots(s) < v,
    decreases s.len(),
{
    if s.len() > 0 {
        let t = s.drop_last();
        assert forall|q: int| 0 <= q < t.len() implies (#[trigger] t[q]).plots < v by {
            assert(t[q] == s[q]);
        }
        lemma_max_below(t, v);
        assert(s.last() == s[s.len() - 1]);
    }
}

/// A larger site with no larger-or-as-large site ahead of it is listed.
proof fn lemma_growing_site_listed(sites: Seq<SiteEntry>, c: SiteEntry, j: int)
    requires
        0 <= j < sites.len(),
        larger_than(sites[j], c),
        forall|i: int|
            0 <= i < sites.len() && larger_than(#[trigger] sites[i], c) && ahead(sites, i, j, c) ==> sites[i].plots
                < sites[j].plots,
    ensures
        nearest_by_size_spec(sites, c).contains(sites[j].id),
{
    let large = larger_sites(sites, c);
    let idx = lemma_larger_positions(sites, c);
    let perm = lemma_sort_positions(large, c);
    let sorted = sort_by_dist(large, c);
    let g = growing_ids(sorted);
    lemma_larger_sites(sites, c);
    let m = choose|m: int| 0 <= m < idx.len() && idx[m] == j;
    assert(takes_place(perm, m));
    let q0 = choose|q: int| 0 <= q < perm.len() && perm[q] == m;
    assert(sorted[q0] == sites[j]);
    let pre = sorted.subrange(0, q0);
    assert forall|q: int| 0 <= q < pre.len() implies (#[trigger] pre[q]).plots < sites[j].plots by {
        let p = perm[q];
        let i = idx[p];
        assert(pre[q] == sorted[q]);
        assert(sorted[q] == large[p]);
        assert(large[p] == sites[i]);
        assert(ahead(large, p, m, c));
        if p < m {
            assert(i < j);
        }
        assert(larger_than(large[p], c));
        assert(ahead(sites, i, j, c));
    }
    lemma_max_below(pre, sites[j].plots as nat);
    let upto = sorted.subrange(0, q0 + 1);
    assert(upto.drop_last() =~= pre);
    assert(upto.last() == sites[j]);
    lemma_growing_prefix(sorted, q0 + 1);
    let gu = growing_ids(upto);
    assert(gu[gu.len() - 1] == sites[j].id);
    assert(g[gu.len() - 1] == gu[gu.len() - 1]);
}

/// With any larger site, the list starts with the nearest one (the
/// earliest given among equally near ones).
proof fn lemma_nearest_listed_first(sites: Seq<SiteEntry>, c: SiteEntry, j1: int)
    requires
        0 <= j1 < sites.len(),
        larger_than(sites[j1], c),
    ensures
        exists|j: int|
            {
                &&& 0 <= j < sites.len()
                &&& larger_than(#[trigger] sites[j], c)
                &&& forall|i: int| 0 <= i < sites.len() && larger_than(sites[i], c) ==> !ahead(sites, i, j, c)
                &&& nearest_by_size_spec(sites, c).len() > 0
                &&& nearest_by_size_spec(sites, c)[0] == sites[j].id
            },
{
    let large = larger_sites(sites, c);
    let idx = lemma_larger_positions(sites, c);
    let perm = lemma_sort_positions(large, c);
    let sorted = sort_by_dist(large, c);
    let g = growing_ids(sorted);
    lemma_larger_sites(sites, c);
    assert(larger_than(sites[j1], c));
    assert(idx.len() > 0);
    let p0 = perm[0];
    let j0 = idx[p0];
    assert(sorted[0] == large[p0]);
    assert(large[p0] == sites[j0]);
    assert forall|i: int| 0 <= i < sites.len() && larger_than(sites[i], c) implies !ahead(sites, i, j0, c) by {
        assert(larger_than(sites[i], c));
        let mi = choose|m: int| 0 <= m < idx.len() && idx[m] == i;
        assert(takes_place(perm, mi));
        let qi = choose|q: int| 0 <= q < perm.len() && perm[q] == mi;
        if qi > 0 {
            assert(ahead(large, perm[0], perm[qi], c));
            assert(large[perm[qi]] == sites[i]);
            if p0 < mi {
                assert(j0 < i);
            } else {
                assert(i < j0);
            }
        }
    }
    let upto = sorted.subrange(0, 1);
    assert(upto.drop_last() =~= Seq::<SiteEntry>::empty());
    assert(upto.last() == sorted[0]);
    assert(larger_than(large[p0], c));
    assert(upto.last().plots > 0);
    assert(max_plots(upto.drop_last()) == 0);
    assert(growing_ids(upto.drop_last()).len() == 0);
    lemma_growing_prefix(sorted, 1);
    assert(growing_ids(upto).len() == 1);
    assert(g[0] == sites[j0].id);
}

/// Nothing larger is overlooked. Every other site with more plots than `c`
/// that is larger than every larger site ahead of it (nearer to `c`, or as
/// near and given earlier) is in `c`'s nearest-by-size list; in particular,
/// when `c` has any larger site, the list starts with the nearest of them
/// (the earliest given among equally near ones).
pub proof fn nearest_by_size_misses_no_larger_site(sites: Seq<SiteEntry>, c: SiteEntry)
    ensures
        forall|j: int|
            0 <= j < sites.len() && larger_than(#[trigger] sites[j], c) && (forall|i: int|
                0 <= i < sites.len() && larger_than(sites[i], c) && ahead(sites, i, j, c) ==> sites[i].plots
                    < sites[j].plots) ==> nearest_by_size_spec(sites, c).contains(sites[j].id),
        (exists|j: int| 0 <= j < sites.len() && larger_than(#[trigger] sites[j], c)) ==> exists|j: int|
            {
                &&& 0 <= j < sites.len()
                &&& larger_than(#[trigger] sites[j], c)
                &&& forall|i: int| 0 <= i < sites.len() && larger_than(sites[i], c) ==> !ahead(sites, i, j, c)
                &&& nearest_by_size_spec(sites, c).len() > 0
                &&& nearest_by_size_spec(sites, c)[0] == sites[j].id
            },
{
    assert forall|j: int|
        0 <= j < sites.len() && larger_than(#[trigger] sites[j], c) && (forall|i: int|
            0 <= i < sites.len() && larger_than(sites[i], c) && ahead(sites, i, j, c) ==> sites[i].plots
                < sites[j].plots) implies nearest_by_size_spec(sites, c).contains(sites[j].id) by {
        lemma_growing_site_listed(sites, c, j);
    }
    if exists|j: int| 0 <= j < sites.len() && larger_than(#[trigger] sites[j], c) {
        let j1 = choose|j: int| 0 <= j < sites.len() && larger_than(#[trigger] sites[j], c);
        lemma_nearest_listed_first(sites, c, j1);
    }
}

} // verus!
