//! Mount links between simulated actors: which actor rides (or steers)
//! which, kept in three collections that must agree — the links, each
//! mount's riders, and each rider's link.
//!
//! Actor and link keys are slot map keys in their `as_ffi` encoding (see
//! `mountstore`).
use crate::mountstore::{
    index_contains, index_get, index_insert, index_new, index_remove, is_key, key_slot, key_version,
    link_entries, links_get, links_insert, links_keys, links_new, links_ok, links_remove,
    older, one_per_slot, rider_entries, rider_links, riders_contains, riders_entry_ok, riders_get,
    riders_insert, riders_keys, riders_new, riders_ok, riders_remove, riders_view, slot_version,
    takes_key, ActorLink, LinkStore, RiderIndex, RiderTable, Riders,
};
use vstd::prelude::*;

verus! {

/// Why a mount link could not be made.
#[derive(Clone, Copy, Debug, PartialEq, Eq, Structural)]
pub enum MountingError {
    MountDead,
    RiderDead,
    HasSteerer,
    AlreadyRiding,
    MountIsRiding,
    RiderIsMounted,
    MountSelf,
}

/// All mount links.
pub struct ActorLinks {
    links: LinkStore,
    mount_map: RiderTable,
    rider_map: RiderIndex,
}

/// A riders entry's link keys are all valid keys.
pub open spec fn entry_keys_ok(e: (Option<u64>, Seq<u64>)) -> bool {
    &&& (e.0 matches Some(s) ==> is_key(s))
    &&& forall|i: int| 0 <= i < e.1.len() ==> is_key(#[trigger] e.1[i])
}

/// Whether link `id` is one of the entry's: its steerer or among its other
/// riders.
pub open spec fn in_entry(e: (Option<u64>, Seq<u64>), id: u64) -> bool {
    e.0 == Some(id) || e.1.contains(id)
}

/// The riders of the links `e` names (those still present in `links`).
pub open spec fn riders_of(links: Map<u64, ActorLink>, e: (Option<u64>, Seq<u64>)) -> Set<u64> {
    Set::new(|r: u64| exists|id: u64| in_entry(e, id) && #[trigger] links.contains_key(id) && links[id].rider == r)
}

/// The first position of `x` in `s` (or `s.len()` when absent).
pub open spec fn first_pos(s: Seq<u64>, x: u64) -> int
    decreases s.len(),
{
    if s.len() == 0 {
        0
    } else if s[0] == x {
        0
    } else {
        1 + first_pos(s.drop_first(), x)
    }
}

/// A mount's entry once link `id` (with the given steering flag) is taken
/// out of it: as steerer if it steers and is the steerer, else its first
/// occurrence among the other riders.
pub open spec fn entry_without(e: (Option<u64>, Seq<u64>), id: u64, steering: bool) -> (
    Option<u64>,
    Seq<u64>,
) {
    if steering && e.0 == Some(id) {
        (None, e.1)
    } else if e.1.contains(id) {
        (e.0, e.1.remove(first_pos(e.1, id)))
    } else {
        e
    }
}

/// The riders map once link `id` of `link` is taken out of its mount's
/// entry; an entry left with no links is dropped.
pub open spec fn mounts_without(
    m: Map<u64, (Option<u64>, Seq<u64>)>,
    id: u64,
    link: ActorLink,
) -> Map<u64, (Option<u64>, Seq<u64>)> {
    if m.contains_key(link.mount) {
        let e = entry_without(m[link.mount], id, link.is_steering);
        if e.0 is None && e.1.len() == 0 {
            m.remove(link.mount)
        } else {
            m.insert(link.mount, e)
        }
    } else {
        m
    }
}

/// The riders map once `mount`'s entry is set to `e`, dropping an entry an
/// older actor left in the same slot.
pub open spec fn mounts_with(
    m: Map<u64, (Option<u64>, Seq<u64>)>,
    mount: u64,
    e: (Option<u64>, Seq<u64>),
) -> Map<u64, (Option<u64>, Seq<u64>)> {
    m.restrict(Set::new(|j: u64| key_slot(j) != key_slot(mount))).insert(mount, e)
}

impl ActorLinks {
    /// The links, by link key.
    pub closed spec fn link_map(&self) -> Map<u64, ActorLink> {
        link_entries(self.links)
    }

    /// Each mount's steerer link and other rider links, by mount key.
    pub closed spec fn mounts(&self) -> Map<u64, (Option<u64>, Seq<u64>)> {
        rider_entries(self.mount_map)
    }

    /// Each rider's link, by rider key.
    pub closed spec fn rider_index(&self) -> Map<u64, u64> {
        rider_links(self.rider_map)
    }

    /// What the three collections satisfy as stores: valid keys
    /// throughout, at most one riders entry per slot. Every constructor
    /// establishes it and every operation keeps it.
    pub closed spec fn stores_ok(self) -> bool {
        &&& links_ok(link_entries(self.links))
        &&& riders_ok(rider_entries(self.mount_map))
        &&& forall|m: u64|
            #[trigger] rider_entries(self.mount_map).contains_key(m) ==> is_key(m) && entry_keys_ok(
                rider_entries(self.mount_map)[m],
            )
        &&& forall|r: u64|
            #[trigger] rider_links(self.rider_map).contains_key(r) ==> is_key(r) && is_key(
                rider_links(self.rider_map)[r],
            )
    }

    /// No links.
    pub fn new() -> (s: Self)
        ensures
            s.link_map() =~= Map::empty(),
            s.mounts() =~= Map::empty(),
            s.rider_index() =~= Map::empty(),
            s.stores_ok(),
    {
        ActorLinks { links: links_new(), mount_map: riders_new(), rider_map: index_new() }
    }

    /// The link under `id`, if any.
    pub fn get(&self, id: u64) -> (r: Option<ActorLink>)
        requires
            is_key(id),
        ensures
            r == (if self.link_map().contains_key(id) {
                Some(self.link_map()[id])
            } else {
                None
            }),
    {
        links_get(&self.links, id)
    }

    /// Every link key, once each.
    pub fn ids(&self) -> (r: Vec<u64>)
        ensures
            r@.no_duplicates(),
            r@.to_set() == self.link_map().dom(),
    {
        links_keys(&self.links)
    }

    /// Every actor that currently has riders, once each.
    pub fn iter_mounts(&self) -> (r: Vec<u64>)
        ensures
            r@.no_duplicates(),
            r@.to_set() == self.mounts().dom(),
    {
        riders_keys(&self.mount_map)
    }

    /// The link `rider` rides by, if any.
    pub fn get_mount_link(&self, rider: u64) -> (r: Option<ActorLink>)
        requires
            self.stores_ok(),
        ensures
            r == (if self.rider_index().contains_key(rider) && self.link_map().contains_key(
                self.rider_index()[rider],
            ) {
                Some(self.link_map()[self.rider_index()[rider]])
            } else {
                None
            }),
    {
        match index_get(&self.rider_map, rider) {
            Some(id) => links_get(&self.links, id),
            None => None,
        }
    }

    /// The link by which `mount` is steered, if any.
    pub fn get_steerer_link(&self, mount: u64) -> (r: Option<ActorLink>)
        requires
            self.stores_ok(),
            is_key(mount),
        ensures
            r == (if self.mounts().contains_key(mount) && self.mounts()[mount].0 is Some
                && self.link_map().contains_key(self.mounts()[mount].0->0) {
                Some(self.link_map()[self.mounts()[mount].0->0])
            } else {
                None
            }),
    {
        match riders_get(&self.mount_map, mount) {
            Some(riders) => match riders.steerer {
                Some(id) => links_get(&self.links, id),
                None => None,
            },
            None => None,
        }
    }
}


/// A riders map takes any key it holds.
proof fn lemma_takes_held(e: Map<u64, (Option<u64>, Seq<u64>)>, k: u64)
    requires
        riders_ok(e),
        e.contains_key(k),
        is_key(k),
        key_slot(k) != 0xffff_ffff,
    ensures
        takes_key(e, k),
        mounts_with(e, k, (None, Seq::empty())).remove(k) =~= e.remove(k),
{
    let j = choose|j: u64| e.contains_key(j) && key_slot(j) == key_slot(k);
    assert(e.contains_key(k) && key_slot(k) == key_slot(k));
    assert(j == k);
    assert forall|x: u64| #[trigger] e.contains_key(x) && x != k implies key_slot(x) != key_slot(k) by {}
}

/// Where `x` first occurs in `s`.
fn find_first(s: &Vec<u64>, x: u64) -> (r: Option<usize>)
    ensures
        match r {
            Some(i) => s@.contains(x) && i == first_pos(s@, x) && i < s@.len(),
            None => !s@.contains(x),
        },
{
    let mut i: usize = 0;
    while i < s.len()
        invariant
            i <= s.len(),
            forall|k: int| 0 <= k < i ==> s@[k] != x,
        decreases s.len() - i,
    {
        if s[i] == x {
            proof {
                lemma_first_pos(s@, x, i as int);
            }
            return Some(i);
        }
        i += 1;
    }
    None
}

proof fn lemma_first_pos(s: Seq<u64>, x: u64, i: int)
    requires
        0 <= i < s.len(),
        s[i] == x,
        forall|k: int| 0 <= k < i ==> s[k] != x,
    ensures
        first_pos(s, x) == i,
        s.contains(x),
    decreases i,
{
    if i > 0 {
        lemma_first_pos(s.drop_first(), x, i - 1);
    }
}

impl ActorLinks {
    /// Take link `id` (of `link`) out of its mount's riders; drop the
    /// mount's entry once no links are left in it.
    fn remove_rider(&mut self, id: u64, link: ActorLink)
        requires
            old(self).stores_ok(),
            is_key(link.mount),
        ensures
            final(self).stores_ok(),
            final(self).link_map() == old(self).link_map(),
            final(self).rider_index() == old(self).rider_index(),
            final(self).mounts() == mounts_without(old(self).mounts(), id, link),
    {
        let ghost m0 = rider_entries(self.mount_map);
        match riders_get(&self.mount_map, link.mount) {
            None => {},
            Some(riders) => {
                let mut riders = riders;
                let steers = match riders.steerer {
                    Some(s) => s == id,
                    None => false,
                };
                if link.is_steering && steers {
                    riders.steerer = None;
                } else {
                    match find_first(&riders.riders, id) {
                        Some(i) => {
                            riders.riders.remove(i);
                        },
                        None => {},
                    }
                }
                proof {
                    assert(riders_view(riders) == entry_without(m0[link.mount], id, link.is_steering));
                    assert(entry_keys_ok(riders_view(riders))) by {
                        let e = m0[link.mount];
                        assert(entry_keys_ok(e));
                        if !(link.is_steering && steers) && e.1.contains(id) {
                            let p = first_pos(e.1, id);
                            assert forall|k: int| 0 <= k < riders.riders@.len() implies is_key(
                                #[trigger] riders.riders@[k],
                            ) by {
                                if k < p {
                                    assert(riders.riders@[k] == e.1[k]);
                                } else {
                                    assert(riders.riders@[k] == e.1[k + 1]);
                                }
                            }
                        }
                    }
                }
                if riders.steerer.is_none() && riders.riders.len() == 0 {
                    riders_remove(&mut self.mount_map, link.mount);
                } else {
                    proof {
                        lemma_takes_held(m0, link.mount);
                    }
                    riders_insert(&mut self.mount_map, link.mount, riders);
                    proof {
                        assert(rider_entries(self.mount_map) =~= m0.insert(link.mount, riders_view(riders)));
                    }
                }
            },
        }
    }
}


impl ActorLinks {
    /// End `rider`'s ride: its link is removed, and taken out of its mount's
    /// riders. Nothing happens to an actor that rides nothing.
    pub fn dismount(&mut self, rider: u64)
        requires
            old(self).stores_ok(),
        ensures
            final(self).stores_ok(),
            final(self).rider_index() == old(self).rider_index().remove(rider),
            old(self).rider_index().contains_key(rider) ==> {
                let id = old(self).rider_index()[rider];
                &&& final(self).link_map() == old(self).link_map().remove(id)
                &&& final(self).mounts() == if old(self).link_map().contains_key(id) {
                    mounts_without(old(self).mounts(), id, old(self).link_map()[id])
                } else {
                    old(self).mounts()
                }
            },
            !old(self).rider_index().contains_key(rider) ==> final(self).link_map() == old(
                self,
            ).link_map() && final(self).mounts() == old(self).mounts(),
    {
        match index_remove(&mut self.rider_map, rider) {
            Some(id) => {
                match links_remove(&mut self.links, id) {
                    Some(link) => {
                        self.remove_rider(id, link);
                    },
                    None => {},
                }
            },
            None => {},
        }
    }

    /// Remove link `id`: the link itself, its rider's entry, and the link
    /// from its mount's riders.
    pub fn remove_link(&mut self, id: u64)
        requires
            old(self).stores_ok(),
            is_key(id),
        ensures
            final(self).stores_ok(),
            final(self).link_map() == old(self).link_map().remove(id),
            old(self).link_map().contains_key(id) ==> {
                let link = old(self).link_map()[id];
                &&& final(self).rider_index() == old(self).rider_index().remove(link.rider)
                &&& final(self).mounts() == mounts_without(old(self).mounts(), id, link)
            },
            !old(self).link_map().contains_key(id) ==> final(self).rider_index() == old(
                self,
            ).rider_index() && final(self).mounts() == old(self).mounts(),
    {
        match links_remove(&mut self.links, id) {
            Some(link) => {
                index_remove(&mut self.rider_map, link.rider);
                self.remove_rider(id, link);
            },
            None => {},
        }
    }

    /// Remove `mount`'s riders entry, and the rider entries of the links it
    /// named; the links themselves stay.
    #[verifier::spinoff_prover]
    pub fn remove_mount(&mut self, mount: u64)
        requires
            old(self).stores_ok(),
            is_key(mount),
        ensures
            final(self).stores_ok(),
            final(self).link_map() == old(self).link_map(),
            final(self).mounts() == old(self).mounts().remove(mount),
            final(self).rider_index() == if old(self).mounts().contains_key(mount) {
                old(self).rider_index().remove_keys(
                    riders_of(old(self).link_map(), old(self).mounts()[mount]),
                )
            } else {
                old(self).rider_index()
            },
    {
        let ghost links = link_entries(self.links);
        let ghost r0 = rider_links(self.rider_map);
        match riders_remove(&mut self.mount_map, mount) {
            None => {},
            Some(riders) => {
                let ghost e = riders_view(riders);
                let ghost m1 = rider_entries(self.mount_map);
                let ghost mut gone: Set<u64> = Set::empty();
                let mut i: usize = 0;
                while i < riders.riders.len()
                    invariant
                        i <= riders.riders@.len(),
                        e == riders_view(riders),
                        entry_keys_ok(e),
                        m1 == rider_entries(self.mount_map),
                        links == link_entries(self.links),
                        links_ok(links),
                        riders_ok(rider_entries(self.mount_map)),
                        forall|m: u64|
                            #[trigger] rider_entries(self.mount_map).contains_key(m) ==> is_key(m)
                                && entry_keys_ok(rider_entries(self.mount_map)[m]),
                        forall|r: u64|
                            #[trigger] rider_links(self.rider_map).contains_key(r) ==> is_key(r)
                                && is_key(rider_links(self.rider_map)[r]),
                        rider_links(self.rider_map) == r0.remove_keys(gone),
                        gone == Set::new(
                            |r: u64|
                                exists|k: int|
                                    0 <= k < i && #[trigger] links.contains_key(e.1[k]) && links[e.1[k]].rider
                                        == r,
                        ),
                    decreases riders.riders@.len() - i,
                {
                    let id = riders.riders[i];
                    match links_get(&self.links, id) {
                        Some(link) => {
                            index_remove(&mut self.rider_map, link.rider);
                            proof {
                                gone = gone.insert(link.rider);
                            }
                        },
                        None => {},
                    }
                    i += 1;
                    proof {
                        assert(gone =~= Set::new(
                            |r: u64|
                                exists|k: int|
                                    0 <= k < i && #[trigger] links.contains_key(e.1[k]) && links[e.1[k]].rider
                                        == r,
                        )) by {
                            assert forall|r: u64| #[trigger] gone.contains(r) implies exists|k: int|
                                0 <= k < i && #[trigger] links.contains_key(e.1[k]) && links[e.1[k]].rider
                                    == r by {
                                if links.contains_key(id) && links[id].rider == r {
                                    assert(links.contains_key(e.1[i - 1]));
                                }
                            }
                        }
                        assert(rider_links(self.rider_map) =~= r0.remove_keys(gone));
                    }
                }
                match riders.steerer {
                    Some(id) => match links_get(&self.links, id) {
                        Some(link) => {
                            index_remove(&mut self.rider_map, link.rider);
                            proof {
                                gone = gone.insert(link.rider);
                            }
                        },
                        None => {},
                    },
                    None => {},
                }
                proof {
                    assert(gone =~= riders_of(links, e)) by {
                        assert forall|r: u64| riders_of(links, e).contains(r) implies #[trigger] gone.contains(r) by {
                            let id = choose|id: u64|
                                in_entry(e, id) && #[trigger] links.contains_key(id) && links[id].rider == r;
                            if e.1.contains(id) {
                                let k = choose|k: int| 0 <= k < e.1.len() && e.1[k] == id;
                                assert(links.contains_key(e.1[k]));
                            }
                        }
                        assert forall|r: u64| #[trigger] gone.contains(r) implies riders_of(links, e).contains(r) by {
                            if e.0 is Some && links.contains_key(e.0->0) && links[e.0->0].rider == r {
                                assert(in_entry(e, e.0->0));
                            } else {
                                let k = choose|k: int|
                                    0 <= k < riders.riders@.len() && #[trigger] links.contains_key(e.1[k])
                                        && links[e.1[k]].rider == r;
                                assert(in_entry(e, e.1[k]));
                            }
                        }
                    }
                    assert(rider_links(self.rider_map) =~= r0.remove_keys(gone));
                }
            },
        }
    }
}


/// Why `add_mounting` refuses to link `rider` onto `mount`, tested in this
/// order: an actor cannot mount itself; a rider must not itself be ridden,
/// nor a mount itself ride (so links never chain); the mount must still be
/// alive (the riders map must take its key); the rider must not ride
/// already; and a mount has at most one steerer.
pub open spec fn mounting_refusal(
    mounts: Map<u64, (Option<u64>, Seq<u64>)>,
    riders: Map<u64, u64>,
    mount: u64,
    rider: u64,
    steering: bool,
) -> Option<MountingError> {
    if mount == rider {
        Some(MountingError::MountSelf)
    } else if mounts.contains_key(rider) {
        Some(MountingError::RiderIsMounted)
    } else if riders.contains_key(mount) {
        Some(MountingError::MountIsRiding)
    } else if !takes_key(mounts, mount) {
        Some(MountingError::MountDead)
    } else if riders.contains_key(rider) {
        Some(MountingError::AlreadyRiding)
    } else if steering && mounts.contains_key(mount) && mounts[mount].0 is Some {
        Some(MountingError::HasSteerer)
    } else {
        None
    }
}

/// `mount`'s entry once link `id` joins it, as its steerer or as one more
/// rider.
pub open spec fn entry_with(
    mounts: Map<u64, (Option<u64>, Seq<u64>)>,
    mount: u64,
    id: u64,
    steering: bool,
) -> (Option<u64>, Seq<u64>) {
    let base = if mounts.contains_key(mount) {
        mounts[mount]
    } else {
        (None, Seq::empty())
    };
    if steering {
        (Some(id), base.1)
    } else {
        (base.0, base.1.push(id))
    }
}

impl ActorLinks {
    /// Link `rider` onto `mount` (as its steerer when `steering`): the only
    /// way links are made. Refused as `mounting_refusal` says; otherwise the
    /// new link's key is returned, the rider's entry points to it, and it
    /// joins the mount's entry.
    pub fn add_mounting(&mut self, mount: u64, rider: u64, steering: bool) -> (r: Result<
        u64,
        MountingError,
    >)
        requires
            old(self).stores_ok(),
            is_key(mount),
            is_key(rider),
            old(self).link_map().dom().len() < 0xffff_fffe,
        ensures
            final(self).stores_ok(),
            match mounting_refusal(old(self).mounts(), old(self).rider_index(), mount, rider, steering) {
                Some(e) => {
                    &&& r == Err::<u64, MountingError>(e)
                    &&& final(self).link_map() == old(self).link_map()
                    &&& final(self).mounts() == old(self).mounts()
                    &&& final(self).rider_index() == old(self).rider_index()
                },
                None => r matches Ok(id) && {
                    &&& !old(self).link_map().contains_key(id)
                    &&& final(self).link_map() == old(self).link_map().insert(
                        id,
                        ActorLink { mount, rider, is_steering: steering },
                    )
                    &&& final(self).rider_index() == old(self).rider_index().insert(rider, id)
                    &&& final(self).mounts() == mounts_with(
                        old(self).mounts(),
                        mount,
                        entry_with(old(self).mounts(), mount, id, steering),
                    )
                },
            },
    {
        let ghost m0 = rider_entries(self.mount_map);
        if mount == rider {
            return Err(MountingError::MountSelf);
        }
        if riders_contains(&self.mount_map, rider) {
            return Err(MountingError::RiderIsMounted);
        }
        if index_contains(&self.rider_map, mount) {
            return Err(MountingError::MountIsRiding);
        }
        if !riders_entry_ok(&mut self.mount_map, mount) {
            return Err(MountingError::MountDead);
        }
        if index_contains(&self.rider_map, rider) {
            return Err(MountingError::AlreadyRiding);
        }
        let mut riders = match riders_get(&self.mount_map, mount) {
            Some(r) => r,
            None => Riders { steerer: None, riders: Vec::new() },
        };
        let ghost base = riders_view(riders);
        if steering {
            if riders.steerer.is_some() {
                return Err(MountingError::HasSteerer);
            }
            let id = links_insert(&mut self.links, ActorLink { mount, rider, is_steering: true });
            proof {
                assert(link_entries(self.links).contains_key(id));
                assert(is_key(id));
                assert(entry_keys_ok(base));
            }
            riders.steerer = Some(id);
            proof {
                assert(riders_view(riders) == entry_with(m0, mount, id, steering));
            }
            riders_insert(&mut self.mount_map, mount, riders);
            index_insert(&mut self.rider_map, rider, id);
            proof {
                assert(rider_entries(self.mount_map) =~= mounts_with(m0, mount, entry_with(m0, mount, id, steering)));
                assert forall|m: u64| #[trigger] rider_entries(self.mount_map).contains_key(m) implies is_key(m)
                    && entry_keys_ok(rider_entries(self.mount_map)[m]) by {
                    if m != mount {
                        assert(m0.contains_key(m));
                    }
                }
            }
            Ok(id)
        } else {
            let id = links_insert(&mut self.links, ActorLink { mount, rider, is_steering: false });
            proof {
                assert(link_entries(self.links).contains_key(id));
                assert(is_key(id));
                assert(entry_keys_ok(base));
            }
            riders.riders.push(id);
            proof {
                assert(riders_view(riders) =~= entry_with(m0, mount, id, steering));
            }
            riders_insert(&mut self.mount_map, mount, riders);
            index_insert(&mut self.rider_map, rider, id);
            proof {
                assert(rider_entries(self.mount_map) =~= mounts_with(m0, mount, entry_with(m0, mount, id, steering)));
                assert forall|m: u64| #[trigger] rider_entries(self.mount_map).contains_key(m) implies is_key(m)
                    && entry_keys_ok(rider_entries(self.mount_map)[m]) by {
                    if m != mount {
                        assert(m0.contains_key(m));
                    }
                }
            }
            Ok(id)
        }
    }

    /// Make `rider` steer `mount`.
    pub fn steer(&mut self, mount: u64, rider: u64) -> (r: Result<u64, MountingError>)
        requires
            old(self).stores_ok(),
            is_key(mount),
            is_key(rider),
            old(self).link_map().dom().len() < 0xffff_fffe,
        ensures
            final(self).stores_ok(),
            match mounting_refusal(old(self).mounts(), old(self).rider_index(), mount, rider, true) {
                Some(e) => {
                    &&& r == Err::<u64, MountingError>(e)
                    &&& final(self).link_map() == old(self).link_map()
                    &&& final(self).mounts() == old(self).mounts()
                    &&& final(self).rider_index() == old(self).rider_index()
                },
                None => r matches Ok(id) && {
                    &&& !old(self).link_map().contains_key(id)
                    &&& final(self).link_map() == old(self).link_map().insert(
                        id,
                        ActorLink { mount, rider, is_steering: true },
                    )
                    &&& final(self).rider_index() == old(self).rider_index().insert(rider, id)
                    &&& final(self).mounts() == mounts_with(
                        old(self).mounts(),
                        mount,
                        entry_with(old(self).mounts(), mount, id, true),
                    )
                },
            },
    {
        self.add_mounting(mount, rider, true)
    }

    /// Make `rider` ride `mount` without steering it.
    pub fn ride(&mut self, mount: u64, rider: u64) -> (r: Result<u64, MountingError>)
        requires
            old(self).stores_ok(),
            is_key(mount),
            is_key(rider),
            old(self).link_map().dom().len() < 0xffff_fffe,
        ensures
            final(self).stores_ok(),
            match mounting_refusal(old(self).mounts(), old(self).rider_index(), mount, rider, false) {
                Some(e) => {
                    &&& r == Err::<u64, MountingError>(e)
                    &&& final(self).link_map() == old(self).link_map()
                    &&& final(self).mounts() == old(self).mounts()
                    &&& final(self).rider_index() == old(self).rider_index()
                },
                None => r matches Ok(id) && {
                    &&& !old(self).link_map().contains_key(id)
                    &&& final(self).link_map() == old(self).link_map().insert(
                        id,
                        ActorLink { mount, rider, is_steering: false },
                    )
                    &&& final(self).rider_index() == old(self).rider_index().insert(rider, id)
                    &&& final(self).mounts() == mounts_with(
                        old(self).mounts(),
                        mount,
                        entry_with(old(self).mounts(), mount, id, false),
                    )
                },
            },
    {
        self.add_mounting(mount, rider, false)
    }
}


impl ActorLinks {
    /// Every link, once each, in the link map's own order.
    pub fn iter(&self) -> (r: Vec<ActorLink>)
        requires
            self.stores_ok(),
        ensures
            exists|ks: Seq<u64>|
                {
                    &&& ks.no_duplicates()
                    &&& ks.to_set() == self.link_map().dom()
                    &&& #[trigger] ks.len() == r@.len()
                    &&& forall|i: int| 0 <= i < ks.len() ==> r@[i] == self.link_map()[#[trigger] ks[i]]
                },
    {
        let ks = links_keys(&self.links);
        let mut r: Vec<ActorLink> = Vec::new();
        let mut i: usize = 0;
        while i < ks.len()
            invariant
                i <= ks@.len(),
                self.stores_ok(),
                ks@.to_set() == self.link_map().dom(),
                r@.len() == i,
                forall|j: int| 0 <= j < i ==> r@[j] == self.link_map()[#[trigger] ks@[j]],
            decreases ks@.len() - i,
        {
            let k = ks[i];
            assert(ks@.to_set().contains(k)) by {
                assert(ks@[i as int] == k);
            }
            assert(self.link_map().contains_key(k));
            match links_get(&self.links, k) {
                Some(l) => r.push(l),
                None => {},
            }
            i += 1;
        }
        r
    }
}


/// No other link of `links` has a mount in the same slot as link `id`'s
/// mount but a different key: the mount is not a stale actor whose slot a
/// newer actor now holds.
pub open spec fn mount_slot_unshared(links: Map<u64, ActorLink>, id: u64) -> bool {
    forall|j: u64|
        #[trigger] links.contains_key(j) ==> links[j].mount == links[id].mount || key_slot(links[j].mount)
            != key_slot(links[id].mount)
}

/// An empty slot takes exactly the keys an empty riders map takes.
proof fn lemma_takes_vacant(e: Map<u64, (Option<u64>, Seq<u64>)>, k: u64)
    requires
        forall|j: u64| #[trigger] e.contains_key(j) ==> key_slot(j) != key_slot(k),
    ensures
        takes_key(e, k) == takes_key(Map::empty(), k),
{
    assert(!(exists|j: u64| e.contains_key(j) && key_slot(j) == key_slot(k)));
    assert(!(exists|j: u64| Map::<u64, (Option<u64>, Seq<u64>)>::empty().contains_key(j) && key_slot(j)
        == key_slot(k)));
}


/// Whether `x` is among the first `i` keys of `ks`.
pub open spec fn met_before(ks: Seq<u64>, i: int, x: u64) -> bool {
    exists|j: int| 0 <= j < i && ks[j] == x
}

/// A link `x` listed in entry `e` of mount `m`, during `from_links` after
/// `i` links: a link of `m` placed by its steering flag, not dropped, and
/// met already.
pub open spec fn entry_member_ok(
    l0: Map<u64, ActorLink>,
    ks: Seq<u64>,
    i: int,
    delete: Seq<u64>,
    e: (Option<u64>, Seq<u64>),
    m: u64,
    x: u64,
) -> bool {
    &&& l0.contains_key(x)
    &&& l0[x].mount == m
    &&& l0[x].is_steering == (e.0 == Some(x))
    &&& (e.1.contains(x) ==> !l0[x].is_steering)
    &&& !delete.contains(x)
    &&& exists|k: int| 0 <= k < i && ks[k] == x
}

/// Adding the `i`-th link to its mount's entry keeps every member as
/// `entry_member_ok` says.
proof fn lemma_entry_grows(
    l0: Map<u64, ActorLink>,
    ks: Seq<u64>,
    i: int,
    delete: Seq<u64>,
    base: (Option<u64>, Seq<u64>),
    ne: (Option<u64>, Seq<u64>),
    id: u64,
    link: ActorLink,
)
    requires
        0 <= i < ks.len(),
        ks.no_duplicates(),
        ks[i] == id,
        l0.contains_key(id),
        l0[id] == link,
        ne == (if link.is_steering {
            (Some(id), base.1)
        } else {
            (base.0, base.1.push(id))
        }),
        forall|x: u64| #[trigger] in_entry(base, x) ==> entry_member_ok(l0, ks, i, delete, base, link.mount, x),
        forall|q: int| 0 <= q < delete.len() ==> met_before(ks, i, #[trigger] delete[q]),
    ensures
        forall|x: u64|
            #[trigger] in_entry(ne, x) ==> {
                &&& l0.contains_key(x)
                &&& l0[x].mount == link.mount
                &&& l0[x].is_steering == (ne.0 == Some(x))
                &&& (ne.1.contains(x) ==> !l0[x].is_steering)
                &&& !delete.contains(x)
                &&& exists|k: int| 0 <= k < i + 1 && ks[k] == x
            },
{
    assert forall|x: u64| #[trigger] in_entry(ne, x) implies {
        &&& l0.contains_key(x)
        &&& l0[x].mount == link.mount
        &&& l0[x].is_steering == (ne.0 == Some(x))
        &&& (ne.1.contains(x) ==> !l0[x].is_steering)
        &&& !delete.contains(x)
        &&& exists|k: int| 0 <= k < i + 1 && ks[k] == x
    } by {
        if x == id {
            assert(ks[i] == id);
            if delete.contains(id) {
                let k = choose|k: int| 0 <= k < delete.len() && delete[k] == id;
                assert(met_before(ks, i, delete[k]));
                let j = choose|j: int| 0 <= j < i && ks[j] == delete[k];
                assert(ks[j] == ks[i]);
            }
            if base.0 == Some(id) {
                assert(in_entry(base, id));
                let k = choose|k: int| 0 <= k < i && ks[k] == id;
                assert(ks[k] == ks[i]);
            }
            if base.1.contains(id) {
                assert(in_entry(base, id));
                let k = choose|k: int| 0 <= k < i && ks[k] == id;
                assert(ks[k] == ks[i]);
            }
            if !link.is_steering {
                assert(ne.1[ne.1.len() - 1] == id);
            } else {
                assert(!ne.1.contains(id));
            }
        } else {
            if ne.1.contains(x) {
                let q = choose|q: int| 0 <= q < ne.1.len() && ne.1[q] == x;
                if !link.is_steering {
                    assert(q < base.1.len());
                    assert(base.1[q] == x);
                }
                assert(base.1.contains(x));
            }
            assert(in_entry(base, x));
            assert(entry_member_ok(l0, ks, i, delete, base, link.mount, x));
            let k = choose|k: int| 0 <= k < i && ks[k] == x;
            assert(0 <= k < i + 1 && ks[k] == x);
        }
    }
}

/// No other link of `links` steers link `id`'s mount.
pub open spec fn sole_steerer(links: Map<u64, ActorLink>, id: u64) -> bool {
    forall|j: u64|
        #[trigger] links.contains_key(j) && j != id && links[j].mount == links[id].mount ==> !links[j].is_steering
}

/// Link `id` of `links` is one a rebuild keeps for sure: its mount is no
/// stale actor, and an empty riders map takes the mount's key.
pub open spec fn reload_ok(links: Map<u64, ActorLink>, id: u64) -> bool {
    &&& links.contains_key(id)
    &&& mount_slot_unshared(links, id)
    &&& takes_key(Map::empty(), links[id].mount)
}

/// Link `id` of `links` is listed in its mount's entry of `mounts`: among
/// the other riders when it does not steer, and as the steerer when it is
/// the mount's only steering link.
pub open spec fn listed(mounts: Map<u64, (Option<u64>, Seq<u64>)>, links: Map<u64, ActorLink>, id: u64) -> bool {
    &&& mounts.contains_key(links[id].mount)
    &&& !links[id].is_steering ==> mounts[links[id].mount].1.contains(id)
    &&& links[id].is_steering && sole_steerer(links, id) ==> mounts[links[id].mount].0 == Some(id)
}

/// Adding the `i`-th link to its mount's entry keeps every link met before
/// listed, and lists the new one.
proof fn lemma_listed_grows(
    l0: Map<u64, ActorLink>,
    ks: Seq<u64>,
    i: int,
    f0: Map<u64, (Option<u64>, Seq<u64>)>,
    f1: Map<u64, (Option<u64>, Seq<u64>)>,
    base: (Option<u64>, Seq<u64>),
    ne: (Option<u64>, Seq<u64>),
    id: u64,
    link: ActorLink,
)
    requires
        0 <= i < ks.len(),
        ks.no_duplicates(),
        ks.to_set() == l0.dom(),
        ks[i] == id,
        l0.contains_key(id),
        l0[id] == link,
        base == (if f0.contains_key(link.mount) {
            f0[link.mount]
        } else {
            (None, Seq::empty())
        }),
        ne == (if link.is_steering {
            (Some(id), base.1)
        } else {
            (base.0, base.1.push(id))
        }),
        f1.contains_key(link.mount),
        f1[link.mount] == ne,
        forall|j: u64|
            j != link.mount ==> (#[trigger] f1.contains_key(j) <==> (f0.contains_key(j) && key_slot(j)
                != key_slot(link.mount))),
        forall|j: u64| j != link.mount && #[trigger] f1.contains_key(j) ==> f1[j] == f0[j],
        forall|k: int| 0 <= k < i && #[trigger] reload_ok(l0, ks[k]) ==> listed(f0, l0, ks[k]),
    ensures
        forall|k: int| 0 <= k < i + 1 && #[trigger] reload_ok(l0, ks[k]) ==> listed(f1, l0, ks[k]),
{
    assert forall|k: int| 0 <= k < i + 1 && #[trigger] reload_ok(l0, ks[k]) implies listed(f1, l0, ks[k]) by {
        let x = ks[k];
        let mx = l0[x].mount;
        if k == i {
            if !link.is_steering {
                assert(ne.1[ne.1.len() - 1] == id);
            }
        } else {
            assert(ks[k] != ks[i]);
            assert(listed(f0, l0, x));
            if mx == link.mount {
                assert(base == f0[mx]);
                if !l0[x].is_steering {
                    let q = choose|q: int| 0 <= q < base.1.len() && base.1[q] == x;
                    if !link.is_steering {
                        assert(ne.1[q] == x);
                    }
                } else if sole_steerer(l0, x) {
                    assert(!link.is_steering);
                }
            } else {
                assert(l0.contains_key(id));
                assert(key_slot(mx) != key_slot(link.mount));
                assert(f0.contains_key(mx));
                assert(f1.contains_key(mx));
                assert(f1[mx] == f0[mx]);
            }
        }
    }
}

/// What a rebuild from the links `links` leaves as the links `fl`, the
/// riders map `fm` and the rider index `fr`: a part of the links, keeping at
/// least those `reload_ok` keeps, each listed in its mount's entry; every
/// entry non-empty and listing only kept links of that mount, placed by
/// their steering flag; each link's rider pointing to one of its links.
pub open spec fn rebuilt_from(
    links: Map<u64, ActorLink>,
    fl: Map<u64, ActorLink>,
    fm: Map<u64, (Option<u64>, Seq<u64>)>,
    fr: Map<u64, u64>,
) -> bool {
    &&& forall|id: u64| #[trigger] fl.contains_key(id) ==> links.contains_key(id) && fl[id] == links[id]
    &&& forall|id: u64| #[trigger] reload_ok(links, id) ==> fl.contains_key(id) && listed(fm, links, id)
    &&& forall|r: u64|
        #[trigger] fr.contains_key(r) <==> exists|id: u64| #[trigger] links.contains_key(id) && links[id].rider == r
    &&& forall|r: u64|
        #[trigger] fr.contains_key(r) ==> links.contains_key(fr[r]) && links[fr[r]].rider == r
    &&& forall|m: u64|
        #[trigger] fm.contains_key(m) ==> {
            let e = fm[m];
            &&& e.0 is Some || e.1.len() > 0
            &&& forall|id: u64|
                #[trigger] in_entry(e, id) ==> {
                    &&& fl.contains_key(id)
                    &&& fl[id].mount == m
                    &&& fl[id].is_steering == (e.0 == Some(id))
                }
        }
}

impl ActorLinks {
    /// Hand the links over (to be saved); the other two collections are
    /// rebuilt from them by `from_links`.
    pub fn into_links(self) -> (l: LinkStore)
        requires
            self.stores_ok(),
        ensures
            link_entries(l) == self.link_map(),
            links_ok(link_entries(l)),
    {
        self.links
    }

    /// Rebuild the collections from a link map (as after loading saved
    /// links), walking the links in the map's own order: each link joins
    /// its mount's entry, a steering link replacing any steerer met before;
    /// a link whose mount the riders map no longer takes (a stale actor) is
    /// dropped; every link's rider points to the last link of it met.
    #[verifier::spinoff_prover]
    pub fn from_links(links: LinkStore) -> (s: Self)
        requires
            links_ok(link_entries(links)),
        ensures
            s.stores_ok(),
            forall|id: u64|
                #[trigger] s.link_map().contains_key(id) ==> link_entries(links).contains_key(id)
                    && s.link_map()[id] == link_entries(links)[id],
            forall|id: u64|
                #[trigger] link_entries(links).contains_key(id) && mount_slot_unshared(link_entries(links), id)
                    && takes_key(Map::empty(), link_entries(links)[id].mount) ==> s.link_map().contains_key(id),
            forall|r: u64|
                #[trigger] s.rider_index().contains_key(r) <==> exists|id: u64|
                    #[trigger] link_entries(links).contains_key(id) && link_entries(links)[id].rider == r,
            forall|r: u64|
                #[trigger] s.rider_index().contains_key(r) ==> link_entries(links).contains_key(
                    s.rider_index()[r],
                ) && link_entries(links)[s.rider_index()[r]].rider == r,
            forall|m: u64|
                #[trigger] s.mounts().contains_key(m) ==> {
                    let e = s.mounts()[m];
                    &&& e.0 is Some || e.1.len() > 0
                    &&& forall|id: u64|
                        #[trigger] in_entry(e, id) ==> {
                            &&& s.link_map().contains_key(id)
                            &&& s.link_map()[id].mount == m
                            &&& s.link_map()[id].is_steering == (e.0 == Some(id))
                        }
                },
            forall|id: u64|
                #[trigger] reload_ok(link_entries(links), id) ==> listed(s.mounts(), link_entries(links), id),
            rebuilt_from(link_entries(links), s.link_map(), s.mounts(), s.rider_index()),
    {
        let ghost l0 = link_entries(links);
        let ks = links_keys(&links);
        let mut from_map = riders_new();
        let mut to_map = index_new();
        let mut delete: Vec<u64> = Vec::new();
        let mut i: usize = 0;
        while i < ks.len()
            invariant
                i <= ks@.len(),
                l0 == link_entries(links),
                links_ok(l0),
                ks@.no_duplicates(),
                ks@.to_set() == l0.dom(),
                riders_ok(rider_entries(from_map)),
                forall|m: u64|
                    #[trigger] rider_entries(from_map).contains_key(m) ==> {
                        let e = rider_entries(from_map)[m];
                        &&& is_key(m)
                        &&& entry_keys_ok(e)
                        &&& e.0 is Some || e.1.len() > 0
                        &&& forall|id: u64|
                            #[trigger] in_entry(e, id) ==> {
                                &&& l0.contains_key(id)
                                &&& l0[id].mount == m
                                &&& l0[id].is_steering == (e.0 == Some(id))
                                &&& (e.1.contains(id) ==> !l0[id].is_steering)
                                &&& !delete@.contains(id)
                                &&& exists|k: int| 0 <= k < i && ks@[k] == id
                            }
                    },
                forall|m: u64|
                    #[trigger] rider_entries(from_map).contains_key(m) ==> exists|k: int|
                        0 <= k < i && l0[#[trigger] ks@[k]].mount == m,
                forall|k: int|
                    0 <= k < delete@.len() ==> met_before(ks@, i as int, #[trigger] delete@[k]),
                forall|k: int|
                    0 <= k < i && #[trigger] l0.contains_key(ks@[k]) && mount_slot_unshared(l0, ks@[k])
                        && takes_key(Map::empty(), l0[ks@[k]].mount) ==> !delete@.contains(ks@[k]),
                forall|r: u64|
                    #[trigger] rider_links(to_map).contains_key(r) <==> exists|k: int|
                        0 <= k < i && l0[#[trigger] ks@[k]].rider == r,
                forall|r: u64|
                    #[trigger] rider_links(to_map).contains_key(r) ==> l0.contains_key(rider_links(to_map)[r])
                        && l0[rider_links(to_map)[r]].rider == r && is_key(r) && is_key(rider_links(to_map)[r]),
                forall|k: int| 0 <= k < i && #[trigger] reload_ok(l0, ks@[k]) ==> listed(rider_entries(from_map), l0, ks@[k]),
            decreases ks@.len() - i,
        {
            let id = ks[i];
            proof {
                assert(ks@.to_set().contains(id)) by {
                    assert(ks@[i as int] == id);
                }
                assert(l0.contains_key(id));
                assert forall|k: int| 0 <= k < i implies ks@[k] != id by {
                    assert(ks@[i as int] == id);
                }
            }
            let link = match links_get(&links, id) {
                Some(l) => l,
                None => {
                    proof {
                        assert(false);
                    }
                    ActorLink { mount: 0, rider: 0, is_steering: false }
                },
            };
            let ghost f0 = rider_entries(from_map);
            let ghost d0 = delete@;
            proof {
                if mount_slot_unshared(l0, id) {
                    assert forall|j: u64| #[trigger] f0.contains_key(j) && j != link.mount implies key_slot(j)
                        != key_slot(link.mount) by {
                        let k = choose|k: int| 0 <= k < i && l0[#[trigger] ks@[k]].mount == j;
                        assert(ks@.to_set().contains(ks@[k]));
                        assert(l0.contains_key(ks@[k]));
                    }
                    if !f0.contains_key(link.mount) {
                        lemma_takes_vacant(f0, link.mount);
                    } else {
                        lemma_takes_held(f0, link.mount);
                    }
                }
            }
            if riders_entry_ok(&mut from_map, link.mount) {
                let mut riders = match riders_get(&from_map, link.mount) {
                    Some(r) => r,
                    None => Riders { steerer: None, riders: Vec::new() },
                };
                let ghost base = riders_view(riders);
                if link.is_steering {
                    riders.steerer = Some(id);
                } else {
                    riders.riders.push(id);
                }
                let ghost ne = riders_view(riders);
                proof {
                    assert forall|x: u64| #[trigger] in_entry(ne, x) implies x == id || in_entry(base, x) by {
                        if !link.is_steering && ne.1.contains(x) && x != id {
                            let k = choose|k: int| 0 <= k < ne.1.len() && ne.1[k] == x;
                            assert(k < base.1.len());
                            assert(base.1[k] == x);
                        }
                    }
                    assert(ne.0 is Some || ne.1.len() > 0) by {
                        if !link.is_steering {
                            assert(ne.1.len() == base.1.len() + 1);
                        }
                    }
                    assert(entry_keys_ok(ne)) by {
                        assert(entry_keys_ok(base) || !f0.contains_key(link.mount));
                        if !link.is_steering {
                            assert forall|k: int| 0 <= k < ne.1.len() implies is_key(#[trigger] ne.1[k]) by {
                                if k < base.1.len() {
                                    assert(ne.1[k] == base.1[k]);
                                }
                            }
                        }
                    }
                }
                riders_insert(&mut from_map, link.mount, riders);
                proof {
                    let f1 = rider_entries(from_map);
                    assert forall|m: u64| #[trigger] f1.contains_key(m) implies {
                        let e = f1[m];
                        &&& is_key(m)
                        &&& entry_keys_ok(e)
                        &&& e.0 is Some || e.1.len() > 0
                        &&& forall|x: u64|
                            #[trigger] in_entry(e, x) ==> {
                                &&& l0.contains_key(x)
                                &&& l0[x].mount == m
                                &&& l0[x].is_steering == (e.0 == Some(x))
                                &&& (e.1.contains(x) ==> !l0[x].is_steering)
                                &&& !delete@.contains(x)
                                &&& exists|k: int| 0 <= k < i + 1 && ks@[k] == x
                            }
                    } by {
                        if m == link.mount {
                            assert forall|x: u64| #[trigger] in_entry(base, x) implies entry_member_ok(
                                l0,
                                ks@,
                                i as int,
                                delete@,
                                base,
                                m,
                                x,
                            ) by {
                                assert(f0.contains_key(link.mount));
                            }
                            lemma_entry_grows(l0, ks@, i as int, delete@, base, ne, id, link);
                                                } else {
                            assert(f0.contains_key(m));
                        }
                    }
                    assert forall|m: u64| #[trigger] f1.contains_key(m) implies exists|k: int|
                        0 <= k < i + 1 && l0[#[trigger] ks@[k]].mount == m by {
                        if m == link.mount {
                            assert(l0[ks@[i as int]].mount == m);
                        } else {
                            assert(f0.contains_key(m));
                        }
                    }
                    lemma_listed_grows(l0, ks@, i as int, f0, f1, base, ne, id, link);
                }
            } else {
                delete.push(id);
                proof {
                    assert(!reload_ok(l0, id));
                    assert forall|m: u64| #[trigger] rider_entries(from_map).contains_key(m) implies exists|k: int|
                        0 <= k < i + 1 && l0[#[trigger] ks@[k]].mount == m by {
                        assert(f0.contains_key(m));
                    }
                }
            }
            index_insert(&mut to_map, link.rider, id);
            proof {
                assert(l0[ks@[i as int]].rider == link.rider);
                assert forall|k: int| 0 <= k < delete@.len() implies met_before(ks@, i + 1, #[trigger] delete@[k]) by {
                    if k == d0.len() {
                        assert(ks@[i as int] == delete@[k]);
                    } else {
                        assert(delete@[k] == d0[k]);
                        assert(met_before(ks@, i as int, d0[k]));
                    }
                }
                assert forall|k: int|
                    0 <= k < i + 1 && #[trigger] l0.contains_key(ks@[k]) && mount_slot_unshared(l0, ks@[k])
                        && takes_key(Map::empty(), l0[ks@[k]].mount) implies !delete@.contains(ks@[k]) by {
                    if k < i {
                        if delete@.contains(ks@[k]) {
                            let q = choose|q: int| 0 <= q < delete@.len() && delete@[q] == ks@[k];
                            if q == d0.len() {
                                assert(ks@[k] == id);
                                assert(ks@[i as int] == id);
                            } else {
                                assert(d0[q] == ks@[k]);
                                assert(d0.contains(ks@[k]));
                            }
                        }
                    }
                }
                assert forall|r: u64| #[trigger] rider_links(to_map).contains_key(r) <==> exists|k: int|
                    0 <= k < i + 1 && l0[#[trigger] ks@[k]].rider == r by {
                    if r != link.rider && exists|k: int| 0 <= k < i + 1 && l0[#[trigger] ks@[k]].rider == r {
                        let k = choose|k: int| 0 <= k < i + 1 && l0[#[trigger] ks@[k]].rider == r;
                        assert(k < i);
                    }
                }
                assert forall|m: u64| #[trigger] rider_entries(from_map).contains_key(m) implies forall|x: u64|
                    #[trigger] in_entry(rider_entries(from_map)[m], x) ==> exists|k: int|
                        0 <= k < i + 1 && ks@[k] == x by {
                }
            }
            i += 1;
        }
        proof {
            assert forall|x: u64| #[trigger] reload_ok(l0, x) implies listed(rider_entries(from_map), l0, x) by {
                assert(ks@.to_set().contains(x));
                let k = choose|k: int| 0 <= k < ks@.len() && ks@[k] == x;
                assert(reload_ok(l0, ks@[k]));
            }
            assert forall|q: int| 0 <= q < delete@.len() implies is_key(#[trigger] delete@[q]) by {
                assert(met_before(ks@, ks@.len() as int, delete@[q]));
                let j = choose|j: int| 0 <= j < ks@.len() && ks@[j] == delete@[q];
                assert(ks@.to_set().contains(ks@[j]));
                assert(l0.contains_key(delete@[q]));
            }
        }
        let mut links = links;
        let mut k: usize = 0;
        while k < delete.len()
            invariant
                k <= delete@.len(),
                links_ok(link_entries(links)),
                forall|x: u64|
                    #[trigger] link_entries(links).contains_key(x) <==> (l0.contains_key(x) && !(exists|q: int|
                        0 <= q < k && delete@[q] == x)),
                forall|x: u64| #[trigger] link_entries(links).contains_key(x) ==> link_entries(links)[x] == l0[x],
                forall|q: int| 0 <= q < delete@.len() ==> is_key(#[trigger] delete@[q]),
            decreases delete@.len() - k,
        {
            links_remove(&mut links, delete[k]);
            k += 1;
        }
        ActorLinks { links, mount_map: from_map, rider_map: to_map }
    }
}


/// Whether `link` is one of the links of `links`.
pub open spec fn is_link_of(links: Map<u64, ActorLink>, link: ActorLink) -> bool {
    exists|id: u64| #[trigger] links.contains_key(id) && links[id] == link
}

/// The links, riders map and rider index after `maintain_link` on link
/// `id` with the actors in `alive`, and the link it returns, if any.
pub open spec fn maintain_step(
    l: Map<u64, ActorLink>,
    m: Map<u64, (Option<u64>, Seq<u64>)>,
    r: Map<u64, u64>,
    id: u64,
    alive: Seq<u64>,
) -> (Map<u64, ActorLink>, Map<u64, (Option<u64>, Seq<u64>)>, Map<u64, u64>, Option<ActorLink>) {
    if !l.contains_key(id) {
        (l, m, r, None)
    } else {
        let link = l[id];
        if alive.contains(link.mount) && alive.contains(link.rider) {
            (l, m, r, Some(link))
        } else if alive.contains(link.mount) {
            if r.contains_key(link.rider) {
                let rid = r[link.rider];
                (
                    l.remove(rid),
                    if l.contains_key(rid) {
                        mounts_without(m, rid, l[rid])
                    } else {
                        m
                    },
                    r.remove(link.rider),
                    None,
                )
            } else {
                (l, m, r, None)
            }
        } else {
            (
                l,
                m.remove(link.mount),
                if m.contains_key(link.mount) {
                    r.remove_keys(riders_of(l, m[link.mount]))
                } else {
                    r
                },
                None,
            )
        }
    }
}

/// The collections after maintaining the links `ids` one after another,
/// and the links kept with both actors alive, in that order.
pub open spec fn maintained(
    l: Map<u64, ActorLink>,
    m: Map<u64, (Option<u64>, Seq<u64>)>,
    r: Map<u64, u64>,
    ids: Seq<u64>,
    alive: Seq<u64>,
) -> (Map<u64, ActorLink>, Map<u64, (Option<u64>, Seq<u64>)>, Map<u64, u64>, Seq<ActorLink>)
    decreases ids.len(),
{
    if ids.len() == 0 {
        (l, m, r, Seq::empty())
    } else {
        let prev = maintained(l, m, r, ids.drop_last(), alive);
        let next = maintain_step(prev.0, prev.1, prev.2, ids.last(), alive);
        (
            next.0,
            next.1,
            next.2,
            match next.3 {
                Some(k) => prev.3.push(k),
                None => prev.3,
            },
        )
    }
}

/// Maintaining the links in the order `ids` takes the collections
/// `(l, m, r)` to `(fl, fm, fr)` and returns `out`.
pub open spec fn maintains_in_order(
    l: Map<u64, ActorLink>,
    m: Map<u64, (Option<u64>, Seq<u64>)>,
    r: Map<u64, u64>,
    ids: Seq<u64>,
    alive: Seq<u64>,
    fl: Map<u64, ActorLink>,
    fm: Map<u64, (Option<u64>, Seq<u64>)>,
    fr: Map<u64, u64>,
    out: Seq<ActorLink>,
) -> bool {
    maintained(l, m, r, ids, alive) == (fl, fm, fr, out)
}

/// Whether `x` occurs in `v`.
fn contains_key_of(v: &Vec<u64>, x: u64) -> (r: bool)
    ensures
        r == v@.contains(x),
{
    let mut i: usize = 0;
    while i < v.len()
        invariant
            i <= v.len(),
            forall|k: int| 0 <= k < i ==> v@[k] != x,
        decreases v.len() - i,
    {
        if v[i] == x {
            return true;
        }
        i += 1;
    }
    false
}

impl ActorLinks {
    /// Keep link `id` in step with its actors: while both are alive it
    /// stays and is returned (the rider then moves with the mount); a dead
    /// rider is dismounted; a dead mount loses all its riders.
    pub fn maintain_link(&mut self, id: u64, mount_alive: bool, rider_alive: bool) -> (r: Option<
        ActorLink,
    >)
        requires
            old(self).stores_ok(),
            is_key(id),
        ensures
            final(self).stores_ok(),
            !old(self).link_map().contains_key(id) ==> r is None && final(self).link_map() == old(
                self,
            ).link_map() && final(self).mounts() == old(self).mounts() && final(self).rider_index()
                == old(self).rider_index(),
            old(self).link_map().contains_key(id) ==> {
                let link = old(self).link_map()[id];
                if mount_alive && rider_alive {
                    &&& r == Some(link)
                    &&& final(self).link_map() == old(self).link_map()
                    &&& final(self).mounts() == old(self).mounts()
                    &&& final(self).rider_index() == old(self).rider_index()
                } else if mount_alive {
                    &&& r is None
                    &&& final(self).rider_index() == old(self).rider_index().remove(link.rider)
                    &&& old(self).rider_index().contains_key(link.rider) ==> {
                        let rid = old(self).rider_index()[link.rider];
                        &&& final(self).link_map() == old(self).link_map().remove(rid)
                        &&& final(self).mounts() == if old(self).link_map().contains_key(rid) {
                            mounts_without(old(self).mounts(), rid, old(self).link_map()[rid])
                        } else {
                            old(self).mounts()
                        }
                    }
                    &&& !old(self).rider_index().contains_key(link.rider) ==> final(self).link_map()
                        == old(self).link_map() && final(self).mounts() == old(self).mounts()
                } else {
                    &&& r is None
                    &&& final(self).link_map() == old(self).link_map()
                    &&& final(self).mounts() == old(self).mounts().remove(link.mount)
                    &&& final(self).rider_index() == if old(self).mounts().contains_key(link.mount) {
                        old(self).rider_index().remove_keys(
                            riders_of(old(self).link_map(), old(self).mounts()[link.mount]),
                        )
                    } else {
                        old(self).rider_index()
                    }
                }
            },
    {
        match links_get(&self.links, id) {
            None => None,
            Some(link) => {
                if mount_alive {
                    if rider_alive {
                        Some(link)
                    } else {
                        self.dismount(link.rider);
                        None
                    }
                } else {
                    self.remove_mount(link.mount);
                    None
                }
            },
        }
    }

    /// Keep every link in step with its actors (`alive` lists the actors
    /// present and alive), one after another in the link map's order, as
    /// `maintain_link` does. Returns the links kept whose mount and rider
    /// are both alive, in that order.
    pub fn maintain_links(&mut self, alive: &Vec<u64>) -> (r: Vec<ActorLink>)
        requires
            old(self).stores_ok(),
        ensures
            final(self).stores_ok(),
            forall|k: int|
                #![trigger r@[k]]
                0 <= k < r@.len() ==> alive@.contains(r@[k].mount) && alive@.contains(r@[k].rider)
                    && is_link_of(old(self).link_map(), r@[k]),
            forall|id: u64|
                #[trigger] final(self).link_map().contains_key(id) ==> old(self).link_map().contains_key(id)
                    && final(self).link_map()[id] == old(self).link_map()[id],
            forall|m: u64| #[trigger] final(self).mounts().contains_key(m) ==> old(self).mounts().contains_key(m),
            forall|x: u64|
                #[trigger] final(self).rider_index().contains_key(x) ==> old(self).rider_index().contains_key(x)
                    && final(self).rider_index()[x] == old(self).rider_index()[x],
            exists|ks: Seq<u64>|
                {
                    &&& ks.no_duplicates()
                    &&& ks.to_set() == old(self).link_map().dom()
                    &&& #[trigger] maintains_in_order(
                        old(self).link_map(),
                        old(self).mounts(),
                        old(self).rider_index(),
                        ks,
                        alive@,
                        final(self).link_map(),
                        final(self).mounts(),
                        final(self).rider_index(),
                        r@,
                    )
                },
    {
        let ghost l0 = self.link_map();
        let ghost m0 = self.mounts();
        let ghost r0 = self.rider_index();
        let ids = self.ids();
        let mut out: Vec<ActorLink> = Vec::new();
        let mut i: usize = 0;
        while i < ids.len()
            invariant
                i <= ids@.len(),
                self.stores_ok(),
                ids@.to_set() == l0.dom(),
                links_ok(l0),
                forall|k: int|
                    #![trigger out@[k]]
                    0 <= k < out@.len() ==> alive@.contains(out@[k].mount) && alive@.contains(out@[k].rider)
                        && is_link_of(l0, out@[k]),
                forall|id: u64|
                    #[trigger] self.link_map().contains_key(id) ==> l0.contains_key(id) && self.link_map()[id]
                        == l0[id],
                forall|m: u64| #[trigger] self.mounts().contains_key(m) ==> m0.contains_key(m),
                forall|x: u64|
                    #[trigger] self.rider_index().contains_key(x) ==> r0.contains_key(x)
                        && self.rider_index()[x] == r0[x],
                maintained(l0, m0, r0, ids@.subrange(0, i as int), alive@) == (
                    self.link_map(),
                    self.mounts(),
                    self.rider_index(),
                    out@,
                ),
            decreases ids@.len() - i,
        {
            let id = ids[i];
            let ghost bl = self.link_map();
            let ghost bm = self.mounts();
            let ghost br = self.rider_index();
            let ghost bo = out@;
            proof {
                assert(ids@.subrange(0, i + 1).drop_last() =~= ids@.subrange(0, i as int));
                assert(ids@.subrange(0, i + 1).last() == id);
            }
            proof {
                assert(ids@.to_set().contains(id)) by {
                    assert(ids@[i as int] == id);
                }
            }
            match self.get(id) {
                None => {},
                Some(link) => {
                    let mount_alive = contains_key_of(alive, link.mount);
                    let rider_alive = contains_key_of(alive, link.rider);
                    let ghost before_l = self.link_map();
                    let ghost before_r = self.rider_index();
                    match self.maintain_link(id, mount_alive, rider_alive) {
                        Some(l) => {
                            out.push(l);
                        },
                        None => {},
                    }
                    proof {
                        assert forall|x: u64| #[trigger] self.rider_index().contains_key(x) implies r0.contains_key(x)
                            && self.rider_index()[x] == r0[x] by {
                            assert(before_r.contains_key(x));
                        }
                        assert forall|idx: u64| #[trigger] self.link_map().contains_key(idx) implies l0.contains_key(idx)
                            && self.link_map()[idx] == l0[idx] by {
                            assert(before_l.contains_key(idx));
                        }
                        if mount_alive && rider_alive {
                            assert(l0.contains_key(id) && l0[id] == link);
                            assert(is_link_of(l0, link));
                        }
                    }
                },
            }
            proof {
                let st = maintain_step(bl, bm, br, id, alive@);
                assert(st.0 == self.link_map());
                assert(st.1 == self.mounts());
                assert(st.2 =~= self.rider_index());
                assert(match st.3 {
                    Some(k) => bo.push(k),
                    None => bo,
                } =~= out@);
            }
            i += 1;
        }
        proof {
            assert(ids@.subrange(0, ids@.len() as int) =~= ids@);
            assert(maintains_in_order(l0, m0, r0, ids@, alive@, self.link_map(), self.mounts(), self.rider_index(), out@));
        }
        out
    }
}

} // verus!
