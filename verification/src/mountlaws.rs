//! What the mount-link operations keep true of the three collections.
use crate::mounts::{
    entry_with, entry_without, first_pos, in_entry, listed, maintain_step, maintained, mount_slot_unshared,
    mounting_refusal, mounts_with, mounts_without, rebuilt_from, reload_ok, riders_of, sole_steerer,
};
use crate::mountstore::{key_slot, one_per_slot, takes_key, ActorLink};
use vstd::prelude::*;

verus! {

/// No actor is both a mount (has riders) and a rider: links never chain.
pub open spec fn no_chaining(mounts: Map<u64, (Option<u64>, Seq<u64>)>, riders: Map<u64, u64>) -> bool {
    forall|a: u64| #[trigger] mounts.contains_key(a) ==> !riders.contains_key(a)
}

/// Link `id` is listed in its mount's entry, in the place its steering
/// flag says.
pub open spec fn registered(
    links: Map<u64, ActorLink>,
    mounts: Map<u64, (Option<u64>, Seq<u64>)>,
    id: u64,
) -> bool {
    let l = links[id];
    &&& mounts.contains_key(l.mount)
    &&& if l.is_steering {
        mounts[l.mount].0 == Some(id)
    } else {
        mounts[l.mount].1.contains(id)
    }
}

/// The three collections agree: every rider's link exists, is that
/// rider's, and is listed with its mount; every mount's entry is non-empty,
/// lists each link once (its steerer not among its other riders), and only links of that mount whose riders point
/// back to them; and links never chain. (Links no entry lists may linger:
/// removing a mount leaves its links in place.)
pub open spec fn consistent(
    links: Map<u64, ActorLink>,
    mounts: Map<u64, (Option<u64>, Seq<u64>)>,
    riders: Map<u64, u64>,
) -> bool {
    &&& forall|r: u64|
        #[trigger] riders.contains_key(r) ==> {
            &&& links.contains_key(riders[r])
            &&& links[riders[r]].rider == r
            &&& registered(links, mounts, riders[r])
        }
    &&& forall|m: u64|
        #[trigger] mounts.contains_key(m) ==> {
            let e = mounts[m];
            &&& e.0 is Some || e.1.len() > 0
            &&& e.1.no_duplicates()
            &&& (e.0 matches Some(s) ==> !e.1.contains(s))
            &&& forall|id: u64|
                #[trigger] in_entry(e, id) ==> {
                    &&& links.contains_key(id)
                    &&& links[id].mount == m
                    &&& links[id].is_steering == (e.0 == Some(id))
                    &&& riders.contains_key(links[id].rider)
                    &&& riders[links[id].rider] == id
                }
        }
    &&& no_chaining(mounts, riders)
}

/// Making a link never chains links: whatever `add_mounting` accepts leaves
/// no actor both a mount and a rider.
pub proof fn mounting_never_chains(
    mounts: Map<u64, (Option<u64>, Seq<u64>)>,
    riders: Map<u64, u64>,
    mount: u64,
    rider: u64,
    steering: bool,
    id: u64,
)
    requires
        no_chaining(mounts, riders),
        mounting_refusal(mounts, riders, mount, rider, steering) is None,
    ensures
        no_chaining(mounts_with(mounts, mount, entry_with(mounts, mount, id, steering)), riders.insert(rider, id)),
{
    let m2 = mounts_with(mounts, mount, entry_with(mounts, mount, id, steering));
    assert forall|a: u64| #[trigger] m2.contains_key(a) implies !riders.insert(rider, id).contains_key(a) by {
        if a != mount {
            assert(mounts.contains_key(a));
        }
    }
}

/// Taking a link out of its mount's entry only ever removes that link.
proof fn lemma_entry_without(e: (Option<u64>, Seq<u64>), id: u64, steering: bool, other: u64)
    requires
        e.1.no_duplicates(),
        other != id,
    ensures
        in_entry(entry_without(e, id, steering), other) == in_entry(e, other),
        !(entry_without(e, id, steering).0 == Some(id) && steering && e.0 == Some(id)),
        entry_without(e, id, steering).1.no_duplicates(),
        entry_without(e, id, steering).0 == Some(other) <==> e.0 == Some(other),
        entry_without(e, id, steering).1.contains(other) ==> e.1.contains(other),
        e.1.contains(id) && !(steering && e.0 == Some(id)) ==> !entry_without(e, id, steering).1.contains(id),
{
    if !(steering && e.0 == Some(id)) && e.1.contains(id) {
        let p = first_pos(e.1, id);
        lemma_first_pos_in(e.1, id);
        let s2 = e.1.remove(p);
        assert forall|i: int, j: int| 0 <= i < j < s2.len() implies s2[i] != s2[j] by {
            let oi = if i < p { i } else { i + 1 };
            let oj = if j < p { j } else { j + 1 };
            assert(s2[i] == e.1[oi]);
            assert(s2[j] == e.1[oj]);
        }
        if s2.contains(other) {
            let k = choose|k: int| 0 <= k < s2.len() && s2[k] == other;
            let ok = if k < p { k } else { k + 1 };
            assert(e.1[ok] == other);
        }
        if e.1.contains(other) {
            let k = choose|k: int| 0 <= k < e.1.len() && e.1[k] == other;
            assert(k != p);
            let nk = if k < p { k } else { k - 1 };
            assert(s2[nk] == other);
        }
        if s2.contains(id) {
            let k = choose|k: int| 0 <= k < s2.len() && s2[k] == id;
            let ok = if k < p { k } else { k + 1 };
            assert(e.1[ok] == id);
            assert(e.1[p] == id);
        }
    }
}

proof fn lemma_first_pos_in(s: Seq<u64>, x: u64)
    requires
        s.contains(x),
    ensures
        0 <= first_pos(s, x) < s.len(),
        s[first_pos(s, x)] == x,
    decreases s.len(),
{
    if s[0] != x {
        let k = choose|k: int| 0 <= k < s.len() && s[k] == x;
        assert(s.drop_first()[k - 1] == x);
        lemma_first_pos_in(s.drop_first(), x);
    }
}

/// Making a link keeps the collections consistent, provided the mount's
/// slot holds no entry of an older actor (which the riders map would drop
/// together with that actor's links' listing).
pub proof fn mounting_keeps_consistency(
    links: Map<u64, ActorLink>,
    mounts: Map<u64, (Option<u64>, Seq<u64>)>,
    riders: Map<u64, u64>,
    mount: u64,
    rider: u64,
    steering: bool,
    id: u64,
)
    requires
        consistent(links, mounts, riders),
        mounting_refusal(mounts, riders, mount, rider, steering) is None,
        !links.contains_key(id),
        forall|j: u64| #[trigger] mounts.contains_key(j) && j != mount ==> key_slot(j) != key_slot(mount),
    ensures
        consistent(
            links.insert(id, ActorLink { mount, rider, is_steering: steering }),
            mounts_with(mounts, mount, entry_with(mounts, mount, id, steering)),
            riders.insert(rider, id),
        ),
{
    let l2 = links.insert(id, ActorLink { mount, rider, is_steering: steering });
    let e2 = entry_with(mounts, mount, id, steering);
    let m2 = mounts_with(mounts, mount, e2);
    let r2 = riders.insert(rider, id);
    assert(m2 =~= mounts.insert(mount, e2)) by {
        assert forall|j: u64| #[trigger] m2.contains_key(j) <==> mounts.insert(mount, e2).contains_key(j) by {}
    }
    let base = if mounts.contains_key(mount) { mounts[mount] } else { (None, Seq::<u64>::empty()) };
    assert forall|x: u64| #[trigger] in_entry(base, x) implies links.contains_key(x) by {}
    assert forall|x: u64| in_entry(e2, x) <==> (x == id || #[trigger] in_entry(base, x)) by {
        if !steering {
            if e2.1.contains(x) && x != id {
                let k = choose|k: int| 0 <= k < e2.1.len() && e2.1[k] == x;
                assert(base.1[k] == x);
            }
            if base.1.contains(x) {
                let k = choose|k: int| 0 <= k < base.1.len() && base.1[k] == x;
                assert(e2.1[k] == x);
            }
            assert(e2.1[e2.1.len() - 1] == id);
        }
    }
    assert forall|r: u64| #[trigger] r2.contains_key(r) implies {
        &&& l2.contains_key(r2[r])
        &&& l2[r2[r]].rider == r
        &&& registered(l2, m2, r2[r])
    } by {
        if r != rider {
            let lid = riders[r];
            assert(registered(links, mounts, lid));
            assert(lid != id);
            let lm = links[lid].mount;
            if lm == mount {
                if links[lid].is_steering {
                    assert(base.0 == Some(lid));
                    assert(!steering);
                } else {
                    assert(in_entry(base, lid));
                    assert(in_entry(e2, lid));
                    assert(e2.1.contains(lid));
                }
            }
        } else {
            if !steering {
                assert(e2.1[e2.1.len() - 1] == id);
            }
            assert(in_entry(e2, id));
        }
    }
    assert forall|m: u64| #[trigger] m2.contains_key(m) implies {
        let e = m2[m];
        &&& e.0 is Some || e.1.len() > 0
        &&& e.1.no_duplicates()
        &&& (e.0 matches Some(s) ==> !e.1.contains(s))
        &&& forall|x: u64|
            #[trigger] in_entry(e, x) ==> {
                &&& l2.contains_key(x)
                &&& l2[x].mount == m
                &&& l2[x].is_steering == (e.0 == Some(x))
                &&& r2.contains_key(l2[x].rider)
                &&& r2[l2[x].rider] == x
            }
    } by {
        if m == mount {
            if !steering {
                assert forall|i: int, j: int| 0 <= i < j < e2.1.len() implies e2.1[i] != e2.1[j] by {
                    if j == e2.1.len() - 1 {
                        assert(e2.1[i] == base.1[i]);
                        assert(base.1.contains(e2.1[i]));
                        assert(in_entry(base, e2.1[i]));
                    } else {
                        assert(e2.1[i] == base.1[i]);
                        assert(e2.1[j] == base.1[j]);
                    }
                }
                if base.0 is Some {
                    let s = base.0->0;
                    assert(in_entry(base, s));
                    if e2.1.contains(s) {
                        let k = choose|k: int| 0 <= k < e2.1.len() && e2.1[k] == s;
                        if k < base.1.len() {
                            assert(base.1[k] == s);
                        }
                    }
                }
            } else {
                if e2.1.contains(id) {
                    let k = choose|k: int| 0 <= k < e2.1.len() && e2.1[k] == id;
                    assert(in_entry(base, id));
                }
            }
            assert forall|x: u64| #[trigger] in_entry(e2, x) implies {
                &&& l2.contains_key(x)
                &&& l2[x].mount == mount
                &&& l2[x].is_steering == (e2.0 == Some(x))
                &&& r2.contains_key(l2[x].rider)
                &&& r2[l2[x].rider] == x
            } by {
                if x != id {
                    assert(in_entry(base, x));
                    assert(mounts.contains_key(mount));
                    let em = mounts[mount];
                    assert(in_entry(em, x));
                    assert(links.contains_key(x));
                    assert(riders.contains_key(links[x].rider));
                    assert(links[x].rider != rider);
                    if steering {
                        assert(em.0 is None);
                        assert(e2.0 == Some(id));
                    } else {
                        assert(e2.0 == em.0);
                    }
                } else {
                    if !steering {
                        if base.0 == Some(id) {
                            assert(in_entry(base, id));
                        }
                    }
                }
            }
        } else {
            assert(mounts.contains_key(m));
            let e = mounts[m];
            assert forall|x: u64| #[trigger] in_entry(e, x) implies {
                &&& l2.contains_key(x)
                &&& l2[x].mount == m
                &&& l2[x].is_steering == (e.0 == Some(x))
                &&& r2.contains_key(l2[x].rider)
                &&& r2[l2[x].rider] == x
            } by {
                assert(links.contains_key(x));
                assert(riders.contains_key(links[x].rider));
            }
        }
    }
    mounting_never_chains(mounts, riders, mount, rider, steering, id);
}

/// Ending a ride (or removing a link its rider still points to) keeps the
/// collections consistent.
pub proof fn unlinking_keeps_consistency(
    links: Map<u64, ActorLink>,
    mounts: Map<u64, (Option<u64>, Seq<u64>)>,
    riders: Map<u64, u64>,
    rider: u64,
)
    requires
        consistent(links, mounts, riders),
        riders.contains_key(rider),
    ensures
        consistent(
            links.remove(riders[rider]),
            mounts_without(mounts, riders[rider], links[riders[rider]]),
            riders.remove(rider),
        ),
{
    let id = riders[rider];
    let link = links[id];
    let l2 = links.remove(id);
    let m2 = mounts_without(mounts, id, link);
    let r2 = riders.remove(rider);
    assert(registered(links, mounts, id));
    let em = mounts[link.mount];
    assert(in_entry(em, id));
    assert(link.is_steering == (em.0 == Some(id)));
    assert forall|r: u64| #[trigger] r2.contains_key(r) implies {
        &&& l2.contains_key(r2[r])
        &&& l2[r2[r]].rider == r
        &&& registered(l2, m2, r2[r])
    } by {
        let lid = riders[r];
        assert(lid != id);
        assert(registered(links, mounts, lid));
        let lm = links[lid].mount;
        if lm == link.mount {
            lemma_entry_without(em, id, link.is_steering, lid);
            if links[lid].is_steering {
                assert(in_entry(em, lid));
            } else {
                assert(in_entry(em, lid));
                assert(in_entry(entry_without(em, id, link.is_steering), lid));
                assert(em.0 != Some(lid));
            }
        }
    }
    assert forall|m: u64| #[trigger] m2.contains_key(m) implies {
        let e = m2[m];
        &&& e.0 is Some || e.1.len() > 0
        &&& e.1.no_duplicates()
        &&& (e.0 matches Some(s) ==> !e.1.contains(s))
        &&& forall|x: u64|
            #[trigger] in_entry(e, x) ==> {
                &&& l2.contains_key(x)
                &&& l2[x].mount == m
                &&& l2[x].is_steering == (e.0 == Some(x))
                &&& r2.contains_key(l2[x].rider)
                &&& r2[l2[x].rider] == x
            }
    } by {
        if m == link.mount {
            let e = entry_without(em, id, link.is_steering);
            assert forall|x: u64| #[trigger] in_entry(e, x) implies {
                &&& l2.contains_key(x)
                &&& l2[x].mount == m
                &&& l2[x].is_steering == (e.0 == Some(x))
                &&& r2.contains_key(l2[x].rider)
                &&& r2[l2[x].rider] == x
            } by {
                if x == id {
                    lemma_entry_without(em, id, link.is_steering, if id == 0 { 1 } else { 0 });
                    if link.is_steering {
                        assert(e.0 != Some(id));
                        assert(!em.1.contains(id)) by {
                            if em.1.contains(id) {
                                assert(em.0 == Some(id));
                            }
                        }
                        assert(!e.1.contains(id));
                    } else {
                        assert(em.0 != Some(id));
                        assert(em.1.contains(id));
                    }
                    assert(false);
                }
                lemma_entry_without(em, id, link.is_steering, x);
                assert(in_entry(em, x));
                assert(links[x].rider != rider);
            }
            lemma_entry_without(em, id, link.is_steering, if id == 0 { 1 } else { 0 });
            if e.0 is Some {
                let sx = e.0->0;
                if sx != id {
                    lemma_entry_without(em, id, link.is_steering, sx);
                }
            }
        } else {
            let e = mounts[m];
            assert forall|x: u64| #[trigger] in_entry(e, x) implies {
                &&& l2.contains_key(x)
                &&& l2[x].mount == m
                &&& l2[x].is_steering == (e.0 == Some(x))
                &&& r2.contains_key(l2[x].rider)
                &&& r2[l2[x].rider] == x
            } by {
                assert(x != id);
                assert(links[x].rider != rider);
            }
        }
    }
}

/// Removing a mount keeps the collections consistent: the riders it had no
/// longer point anywhere, and every other mount keeps its riders.
pub proof fn removing_mount_keeps_consistency(
    links: Map<u64, ActorLink>,
    mounts: Map<u64, (Option<u64>, Seq<u64>)>,
    riders: Map<u64, u64>,
    mount: u64,
)
    requires
        consistent(links, mounts, riders),
        mounts.contains_key(mount),
    ensures
        consistent(links, mounts.remove(mount), riders.remove_keys(riders_of(links, mounts[mount]))),
{
    let gone = riders_of(links, mounts[mount]);
    let m2 = mounts.remove(mount);
    let r2 = riders.remove_keys(gone);
    assert forall|r: u64| #[trigger] r2.contains_key(r) implies {
        &&& links.contains_key(r2[r])
        &&& links[r2[r]].rider == r
        &&& registered(links, m2, r2[r])
    } by {
        let lid = riders[r];
        assert(registered(links, mounts, lid));
        if links[lid].mount == mount {
            assert(in_entry(mounts[mount], lid));
            assert(gone.contains(r));
        }
    }
    assert forall|m: u64| #[trigger] m2.contains_key(m) implies {
        let e = m2[m];
        &&& e.0 is Some || e.1.len() > 0
        &&& e.1.no_duplicates()
        &&& (e.0 matches Some(s) ==> !e.1.contains(s))
        &&& forall|x: u64|
            #[trigger] in_entry(e, x) ==> {
                &&& links.contains_key(x)
                &&& links[x].mount == m
                &&& links[x].is_steering == (e.0 == Some(x))
                &&& r2.contains_key(links[x].rider)
                &&& r2[links[x].rider] == x
            }
    } by {
        let e = mounts[m];
        assert forall|x: u64| #[trigger] in_entry(e, x) implies {
            &&& links.contains_key(x)
            &&& links[x].mount == m
            &&& links[x].is_steering == (e.0 == Some(x))
            &&& r2.contains_key(links[x].rider)
            &&& r2[links[x].rider] == x
        } by {
            let rx = links[x].rider;
            if gone.contains(rx) {
                let y = choose|y: u64| in_entry(mounts[mount], y) && #[trigger] links.contains_key(y) && links[y].rider == rx;
                assert(riders[links[y].rider] == y);
            }
        }
    }
}

/// Every key of `a` is a key of `b`, with the same value.
pub open spec fn shrinks<V>(a: Map<u64, V>, b: Map<u64, V>) -> bool {
    forall|k: u64| #[trigger] a.contains_key(k) ==> b.contains_key(k) && a[k] == b[k]
}

/// One upkeep step keeps the collections consistent, only ever removes
/// (links, mounts with riders, riders), and
/// leaves a visited link's dead mount without riders and its dead rider
/// (under a live mount) riding nothing.
proof fn lemma_upkeep_step(
    l: Map<u64, ActorLink>,
    m: Map<u64, (Option<u64>, Seq<u64>)>,
    r: Map<u64, u64>,
    id: u64,
    alive: Seq<u64>,
)
    requires
        consistent(l, m, r),
    ensures
        ({
            let s = maintain_step(l, m, r, id, alive);
            &&& consistent(s.0, s.1, s.2)
            &&& shrinks(s.0, l)
            &&& forall|k: u64| #[trigger] s.1.contains_key(k) ==> m.contains_key(k)
            &&& shrinks(s.2, r)
            &&& l.contains_key(id) && !alive.contains(l[id].mount) ==> !s.1.contains_key(l[id].mount)
            &&& l.contains_key(id) && alive.contains(l[id].mount) && !alive.contains(l[id].rider)
                ==> !s.2.contains_key(l[id].rider)
        }),
{
    if l.contains_key(id) {
        let link = l[id];
        if alive.contains(link.mount) && alive.contains(link.rider) {
        } else if alive.contains(link.mount) {
            if r.contains_key(link.rider) {
                unlinking_keeps_consistency(l, m, r, link.rider);
                let rid = r[link.rider];
            }
        } else {
            if m.contains_key(link.mount) {
                removing_mount_keeps_consistency(l, m, r, link.mount);
            } else {
                assert(m.remove(link.mount) =~= m);
            }
        }
    }
}

/// Upkeep over the links `ks`, one after another, keeps the collections
/// consistent and only removes; each visited link still present at the end
/// has a live mount if that mount still has riders, and a live rider if its
/// mount is alive and the rider still rides.
proof fn lemma_upkeep_run(
    l: Map<u64, ActorLink>,
    m: Map<u64, (Option<u64>, Seq<u64>)>,
    r: Map<u64, u64>,
    ks: Seq<u64>,
    alive: Seq<u64>,
)
    requires
        consistent(l, m, r),
    ensures
        ({
            let f = maintained(l, m, r, ks, alive);
            &&& consistent(f.0, f.1, f.2)
            &&& shrinks(f.0, l)
            &&& forall|k: u64| #[trigger] f.1.contains_key(k) ==> m.contains_key(k)
            &&& shrinks(f.2, r)
            &&& forall|j: int|
                0 <= j < ks.len() && #[trigger] f.0.contains_key(ks[j]) ==> {
                    &&& !alive.contains(l[ks[j]].mount) ==> !f.1.contains_key(l[ks[j]].mount)
                    &&& alive.contains(l[ks[j]].mount) && !alive.contains(l[ks[j]].rider)
                        ==> !f.2.contains_key(l[ks[j]].rider)
                }
        }),
    decreases ks.len(),
{
    if ks.len() > 0 {
        let front = ks.drop_last();
        let id = ks.last();
        lemma_upkeep_run(l, m, r, front, alive);
        let prev = maintained(l, m, r, front, alive);
        lemma_upkeep_step(prev.0, prev.1, prev.2, id, alive);
        let f = maintained(l, m, r, ks, alive);
        let st = maintain_step(prev.0, prev.1, prev.2, id, alive);
        assert(f.0 == st.0 && f.1 == st.1 && f.2 == st.2);
        assert forall|j: int|
            0 <= j < ks.len() && #[trigger] f.0.contains_key(ks[j]) implies {
                &&& !alive.contains(l[ks[j]].mount) ==> !f.1.contains_key(l[ks[j]].mount)
                &&& alive.contains(l[ks[j]].mount) && !alive.contains(l[ks[j]].rider)
                    ==> !f.2.contains_key(l[ks[j]].rider)
            } by {
            assert(prev.0.contains_key(ks[j]));
            if j < ks.len() - 1 {
                assert(front[j] == ks[j]);
                assert(prev.0.contains_key(front[j]));
            } else {
                assert(ks[j] == id);
                assert(prev.0[id] == l[id]);
            }
        }
    }
}

/// One tick's link upkeep, visiting every link once in any order, keeps
/// the collections consistent and leaves no dead actor linked: every actor
/// that still has riders is alive, and so is every actor still riding.
pub proof fn upkeep_leaves_only_live_actors_linked(
    l: Map<u64, ActorLink>,
    m: Map<u64, (Option<u64>, Seq<u64>)>,
    r: Map<u64, u64>,
    ks: Seq<u64>,
    alive: Seq<u64>,
)
    requires
        consistent(l, m, r),
        forall|id: u64| #[trigger] l.contains_key(id) ==> ks.contains(id),
    ensures
        ({
            let f = maintained(l, m, r, ks, alive);
            &&& consistent(f.0, f.1, f.2)
            &&& forall|a: u64| #[trigger] f.1.contains_key(a) ==> alive.contains(a)
            &&& forall|a: u64| #[trigger] f.2.contains_key(a) ==> alive.contains(a)
        }),
{
    lemma_upkeep_run(l, m, r, ks, alive);
    let f = maintained(l, m, r, ks, alive);
    assert forall|a: u64| #[trigger] f.1.contains_key(a) implies alive.contains(a) by {
        let e = f.1[a];
        let x = if e.0 is Some {
            e.0->0
        } else {
            e.1[0]
        };
        assert(in_entry(e, x));
        assert(f.0.contains_key(x) && f.0[x].mount == a);
        assert(l.contains_key(x));
        let j = choose|j: int| 0 <= j < ks.len() && ks[j] == x;
        assert(f.0.contains_key(ks[j]));
    }
    assert forall|a: u64| #[trigger] f.2.contains_key(a) implies alive.contains(a) by {
        let id = f.2[a];
        assert(f.0.contains_key(id) && f.0[id].rider == a);
        assert(registered(f.0, f.1, id));
        assert(l.contains_key(id));
        let j = choose|j: int| 0 <= j < ks.len() && ks[j] == id;
        assert(f.0.contains_key(ks[j]));
    }
}

/// Saving the links and loading them back answers every question as
/// before. When every link is listed with its mount (as `add_mounting`,
/// `remove_link` and `dismount` leave them) and an empty riders map takes
/// every mount's key, a rebuild from the links (`into_links`, then
/// `from_links`) holds the same links and the same rider index, has an
/// entry for the same mounts with the same steerer, and each entry lists
/// the same links (the order of the other riders aside).
pub proof fn reloading_saved_links_gives_them_back(
    links: Map<u64, ActorLink>,
    mounts: Map<u64, (Option<u64>, Seq<u64>)>,
    riders: Map<u64, u64>,
    fl: Map<u64, ActorLink>,
    fm: Map<u64, (Option<u64>, Seq<u64>)>,
    fr: Map<u64, u64>,
)
    requires
        consistent(links, mounts, riders),
        one_per_slot(mounts.dom()),
        forall|id: u64|
            #[trigger] links.contains_key(id) ==> registered(links, mounts, id) && takes_key(
                Map::empty(),
                links[id].mount,
            ),
        rebuilt_from(links, fl, fm, fr),
    ensures
        fl == links,
        fr == riders,
        fm.dom() == mounts.dom(),
        forall|m: u64|
            #[trigger] fm.contains_key(m) ==> fm[m].0 == mounts[m].0 && forall|id: u64|
                #![trigger in_entry(fm[m], id)]
                #![trigger in_entry(mounts[m], id)]
                in_entry(fm[m], id) == in_entry(mounts[m], id),
{
    assert forall|id: u64| #[trigger] links.contains_key(id) implies reload_ok(links, id) && (
    links[id].is_steering ==> sole_steerer(links, id)) by {
        let mid = links[id].mount;
        assert(registered(links, mounts, id));
        assert forall|j: u64| #[trigger] links.contains_key(j) implies links[j].mount == mid || key_slot(
            links[j].mount,
        ) != key_slot(mid) by {
            assert(registered(links, mounts, j));
        }
        assert(mount_slot_unshared(links, id));
        assert forall|j: u64|
            #[trigger] links.contains_key(j) && j != id && links[j].mount == mid implies !links[j].is_steering
            || !links[id].is_steering by {
            assert(registered(links, mounts, j));
        }
    }
    assert forall|id: u64| #[trigger] links.contains_key(id) implies fl.contains_key(id) && listed(
        fm,
        links,
        id,
    ) by {
        assert(reload_ok(links, id));
    }
    assert(fl =~= links);
    assert forall|r: u64| #[trigger] riders.contains_key(r) implies fr.contains_key(r) by {
        assert(links.contains_key(riders[r]) && links[riders[r]].rider == r);
    }
    assert forall|r: u64| #[trigger] fr.contains_key(r) implies riders.contains_key(r) && fr[r] == riders[r] by {
        let id = fr[r];
        assert(links.contains_key(id) && links[id].rider == r);
        assert(registered(links, mounts, id));
        let e = mounts[links[id].mount];
        assert(in_entry(e, id));
    }
    assert(fr =~= riders);
    assert forall|m: u64| #[trigger] mounts.contains_key(m) implies fm.contains_key(m) by {
        let e = mounts[m];
        let id = if e.0 is Some {
            e.0->0
        } else {
            e.1[0]
        };
        assert(in_entry(e, id));
        assert(links.contains_key(id));
        assert(listed(fm, links, id));
    }
    assert forall|m: u64| #[trigger] fm.contains_key(m) implies mounts.contains_key(m) && fm[m].0
        == mounts[m].0 && forall|id: u64|
        #![trigger in_entry(fm[m], id)]
        #![trigger in_entry(mounts[m], id)]
        in_entry(fm[m], id) == in_entry(mounts[m], id) by {
        let e = fm[m];
        let x = if e.0 is Some {
            e.0->0
        } else {
            e.1[0]
        };
        assert(in_entry(e, x));
        assert(fl.contains_key(x));
        assert(registered(links, mounts, x));
        assert(mounts.contains_key(m));
        let em = mounts[m];
        assert forall|id: u64|
            #![trigger in_entry(e, id)]
            #![trigger in_entry(em, id)]
            in_entry(e, id) == in_entry(em, id) by {
            if in_entry(e, id) {
                assert(fl.contains_key(id));
                assert(registered(links, mounts, id));
            }
            if in_entry(em, id) {
                assert(links.contains_key(id));
                assert(listed(fm, links, id));
            }
        }
        if em.0 is Some {
            let s = em.0->0;
            assert(in_entry(em, s));
            assert(links.contains_key(s));
            assert(listed(fm, links, s));
        }
        if e.0 is Some {
            let s = e.0->0;
            assert(in_entry(e, s));
            assert(fl.contains_key(s));
            assert(registered(links, mounts, s));
        }
    }
    assert(fm.dom() =~= mounts.dom());
}

} // verus!
