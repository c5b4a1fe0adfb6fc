//! The three collections behind the mount links: the links themselves in a
//! `slotmap::DenseSlotMap`, each mount's riders in a `slotmap::SecondaryMap`
//! keyed by actor, and each rider's link in a `hashbrown::HashMap`.
//!
//! Slot map keys are handled as the 64-bit values `KeyData::as_ffi` gives
//! them (the version in the high half, always odd, and the slot index in the
//! low half); the functions here convert back with `KeyData::from_ffi`.
use slotmap::{DefaultKey, DenseSlotMap, KeyData, SecondaryMap};
use vstd::prelude::*;

verus! {

/// A link between a mount and its rider.
#[derive(Clone, Copy, Debug, PartialEq, Eq, Structural)]
pub struct ActorLink {
    pub mount: u64,
    pub rider: u64,
    pub is_steering: bool,
}

/// The links, in a `slotmap::DenseSlotMap` (held where Verus does not look:
/// declaring the slot map types to Verus is refused, their key bound being
/// an outside trait; see `link_entries`).
#[verifier::external_body]
pub struct LinkStore {
    map: DenseSlotMap<DefaultKey, ActorLink>,
}

/// Each mount's riders, in a `slotmap::SecondaryMap` keyed by actor (held
/// where Verus does not look, as `LinkStore`; see `rider_entries`).
#[verifier::external_body]
pub struct RiderTable {
    map: SecondaryMap<DefaultKey, Riders>,
}

/// The links of one mount: its steerer, if any, and its other riders.
#[derive(Clone, Debug)]
pub struct Riders {
    pub steerer: Option<u64>,
    pub riders: Vec<u64>,
}

pub open spec fn riders_view(r: Riders) -> (Option<u64>, Seq<u64>) {
    (r.steerer, r.riders@)
}

/// Whether `v` is a key as `as_ffi` encodes it: its version is odd.
pub open spec fn is_key(v: u64) -> bool {
    ((v as int) / 0x1_0000_0000) % 2 == 1
}

/// The slot index of an encoded key.
pub open spec fn key_slot(v: u64) -> int {
    (v as int) % 0x1_0000_0000
}

/// No two keys of `dom` share a slot.
pub open spec fn one_per_slot(dom: Set<u64>) -> bool {
    forall|a: u64, b: u64| dom.contains(a) && dom.contains(b) && key_slot(a) == key_slot(b) ==> a == b
}

/// What a link map holds, by encoded key.
pub uninterp spec fn link_entries(m: LinkStore) -> Map<u64, ActorLink>;

/// What a riders map holds, by encoded actor key.
pub uninterp spec fn rider_entries(m: RiderTable) -> Map<u64, (Option<u64>, Seq<u64>)>;

/// The version half of an encoded key.
pub open spec fn key_version(v: u64) -> int {
    (v as int) / 0x1_0000_0000
}

/// Slot map versions compare modulo 2^32: `a` is older than `b` when
/// `a - b` wraps to the upper half.
pub open spec fn older(a: int, b: int) -> bool {
    (a - b) % 0x1_0000_0000 >= 0x8000_0000
}

/// The version a riders map holds in slot `s`: that of its key there, or 0
/// for an empty slot.
pub open spec fn slot_version(e: Map<u64, (Option<u64>, Seq<u64>)>, s: int) -> int {
    if exists|j: u64| e.contains_key(j) && key_slot(j) == s {
        key_version(choose|j: u64| e.contains_key(j) && key_slot(j) == s)
    } else {
        0
    }
}

/// Whether a riders map takes an entry for an encoded key: not for the null
/// key, and not when the key is older than what its slot holds (the actor
/// was removed from its slot map and the slot reused).
pub open spec fn takes_key(e: Map<u64, (Option<u64>, Seq<u64>)>, k: u64) -> bool {
    &&& key_slot(k) != 0xffff_ffff
    &&& key_version(k) == slot_version(e, key_slot(k)) || !older(key_version(k), slot_version(e, key_slot(k)))
}

/// A link between two actors names both by valid keys.
pub open spec fn link_ok(l: ActorLink) -> bool {
    is_key(l.mount) && is_key(l.rider)
}

/// What a link map always is: finitely many keys, all valid, none null,
/// each link naming its actors by valid keys.
pub open spec fn links_ok(e: Map<u64, ActorLink>) -> bool {
    &&& e.dom().finite()
    &&& forall|k: u64| #[trigger] e.contains_key(k) ==> is_key(k) && key_slot(k) != 0xffff_ffff && link_ok(e[k])
}

/// What a riders map always is: finitely many keys, none null, at most one
/// per slot.
pub open spec fn riders_ok(e: Map<u64, (Option<u64>, Seq<u64>)>) -> bool {
    &&& e.dom().finite()
    &&& one_per_slot(e.dom())
    &&& forall|k: u64| #[trigger] e.contains_key(k) ==> key_slot(k) != 0xffff_ffff
}

/// `DenseSlotMap::new`: an empty map.
#[verifier::external_body]
pub(crate) fn links_new() -> (store: LinkStore)
    ensures
        link_entries(store) =~= Map::empty(),
{
    LinkStore { map: DenseSlotMap::new() }
}

/// `DenseSlotMap::insert`: stores the link under a key no other entry has.
/// (The map panics when it already holds 2^32 - 2 entries.)
#[verifier::external_body]
pub(crate) fn links_insert(m: &mut LinkStore, link: ActorLink) -> (k: u64)
    requires
        links_ok(link_entries(*old(m))),
        link_ok(link),
        link_entries(*old(m)).dom().len() < 0xffff_fffe,
    ensures
        !link_entries(*old(m)).contains_key(k),
        link_entries(*final(m)) == link_entries(*old(m)).insert(k, link),
        links_ok(link_entries(*final(m))),
{
    slotmap::Key::data(&m.map.insert(link)).as_ffi()
}

/// `DenseSlotMap::get`: the link under the key, if any.
#[verifier::external_body]
pub(crate) fn links_get(m: &LinkStore, k: u64) -> (r: Option<ActorLink>)
    requires
        is_key(k),
    ensures
        r == (if link_entries(*m).contains_key(k) {
            Some(link_entries(*m)[k])
        } else {
            None
        }),
{
    m.map.get(DefaultKey::from(KeyData::from_ffi(k))).copied()
}

/// `DenseSlotMap::remove`: takes the link under the key out, if any.
#[verifier::external_body]
pub(crate) fn links_remove(m: &mut LinkStore, k: u64) -> (r: Option<ActorLink>)
    requires
        is_key(k),
        links_ok(link_entries(*old(m))),
    ensures
        r == (if link_entries(*old(m)).contains_key(k) {
            Some(link_entries(*old(m))[k])
        } else {
            None
        }),
        link_entries(*final(m)) == link_entries(*old(m)).remove(k),
        links_ok(link_entries(*final(m))),
{
    m.map.remove(DefaultKey::from(KeyData::from_ffi(k)))
}

/// `DenseSlotMap::keys`: every key, once each, in the map's own order.
#[verifier::external_body]
pub(crate) fn links_keys(m: &LinkStore) -> (r: Vec<u64>)
    ensures
        r@.no_duplicates(),
        r@.to_set() == link_entries(*m).dom(),
{
    m.map.keys().map(|k| slotmap::Key::data(&k).as_ffi()).collect()
}

/// `SecondaryMap::new`: an empty map.
#[verifier::external_body]
pub(crate) fn riders_new() -> (table: RiderTable)
    ensures
        rider_entries(table) =~= Map::empty(),
{
    RiderTable { map: SecondaryMap::new() }
}

/// `SecondaryMap::get`: a copy of the riders stored for the actor, if any.
#[verifier::external_body]
pub(crate) fn riders_get(m: &RiderTable, k: u64) -> (r: Option<Riders>)
    requires
        is_key(k),
    ensures
        match r {
            Some(v) => rider_entries(*m).contains_key(k) && riders_view(v) == rider_entries(*m)[k],
            None => !rider_entries(*m).contains_key(k),
        },
{
    m.map.get(DefaultKey::from(KeyData::from_ffi(k))).cloned()
}

/// `SecondaryMap::contains_key`.
#[verifier::external_body]
pub(crate) fn riders_contains(m: &RiderTable, k: u64) -> (r: bool)
    requires
        is_key(k),
    ensures
        r == rider_entries(*m).contains_key(k),
{
    m.map.contains_key(DefaultKey::from(KeyData::from_ffi(k)))
}

/// `SecondaryMap::remove`: takes the actor's riders out, if any.
#[verifier::external_body]
pub(crate) fn riders_remove(m: &mut RiderTable, k: u64) -> (r: Option<Riders>)
    requires
        is_key(k),
        riders_ok(rider_entries(*old(m))),
    ensures
        match r {
            Some(v) => rider_entries(*old(m)).contains_key(k) && riders_view(v) == rider_entries(*old(m))[k],
            None => !rider_entries(*old(m)).contains_key(k),
        },
        rider_entries(*final(m)) == rider_entries(*old(m)).remove(k),
        riders_ok(rider_entries(*final(m))),
{
    m.map.remove(DefaultKey::from(KeyData::from_ffi(k)))
}

/// `SecondaryMap::entry`: whether the map takes an entry for the actor (see
/// `takes_key`). Only the map's slot storage may grow; what it holds is
/// unchanged.
#[verifier::external_body]
pub(crate) fn riders_entry_ok(m: &mut RiderTable, k: u64) -> (ok: bool)
    requires
        is_key(k),
    ensures
        rider_entries(*final(m)) == rider_entries(*old(m)),
        ok == takes_key(rider_entries(*old(m)), k),
{
    m.map.entry(DefaultKey::from(KeyData::from_ffi(k))).is_some()
}

/// `SecondaryMap::insert` for a key the map takes: the actor now has these
/// riders; an entry left over in the same slot from an older actor is
/// dropped, every other entry stays. (This is what filling the entry
/// `SecondaryMap::entry` opens for the key does.)
#[verifier::external_body]
pub(crate) fn riders_insert(m: &mut RiderTable, k: u64, v: Riders)
    requires
        is_key(k),
        takes_key(rider_entries(*old(m)), k),
        riders_ok(rider_entries(*old(m))),
    ensures
        rider_entries(*final(m)).contains_key(k),
        rider_entries(*final(m))[k] == riders_view(v),
        forall|j: u64|
            j != k ==> (#[trigger] rider_entries(*final(m)).contains_key(j) <==> (rider_entries(
                *old(m),
            ).contains_key(j) && key_slot(j) != key_slot(k))),
        forall|j: u64|
            j != k && #[trigger] rider_entries(*final(m)).contains_key(j) ==> rider_entries(*final(m))[j]
                == rider_entries(*old(m))[j],
        riders_ok(rider_entries(*final(m))),
{
    m.map.insert(DefaultKey::from(KeyData::from_ffi(k)), v);
}

/// `SecondaryMap::keys`: every actor with riders, once each.
#[verifier::external_body]
pub(crate) fn riders_keys(m: &RiderTable) -> (r: Vec<u64>)
    ensures
        r@.no_duplicates(),
        r@.to_set() == rider_entries(*m).dom(),
{
    m.map.keys().map(|k| slotmap::Key::data(&k).as_ffi()).collect()
}

/// Each rider's link, kept in a `hashbrown::HashMap` keyed by the encoded
/// rider key (held where Verus does not look; see `rider_links`).
#[verifier::external_body]
pub struct RiderIndex {
    map: hashbrown::HashMap<u64, u64>,
}

/// What a `RiderIndex` holds: rider to link.
pub uninterp spec fn rider_links(m: RiderIndex) -> Map<u64, u64>;

/// `hashbrown::HashMap::new`: an empty index.
#[verifier::external_body]
pub(crate) fn index_new() -> (map: RiderIndex)
    ensures
        rider_links(map) =~= Map::empty(),
{
    RiderIndex { map: hashbrown::HashMap::new() }
}

/// `hashbrown::HashMap::get`: the rider's link, if any.
#[verifier::external_body]
pub(crate) fn index_get(m: &RiderIndex, rider: u64) -> (r: Option<u64>)
    ensures
        r == (if rider_links(*m).contains_key(rider) {
            Some(rider_links(*m)[rider])
        } else {
            None
        }),
{
    m.map.get(&rider).copied()
}

/// `hashbrown::HashMap::contains_key`.
#[verifier::external_body]
pub(crate) fn index_contains(m: &RiderIndex, rider: u64) -> (r: bool)
    ensures
        r == rider_links(*m).contains_key(rider),
{
    m.map.contains_key(&rider)
}

/// `hashbrown::HashMap::insert`: the rider now maps to the link.
#[verifier::external_body]
pub(crate) fn index_insert(m: &mut RiderIndex, rider: u64, link: u64)
    ensures
        rider_links(*final(m)) == rider_links(*old(m)).insert(rider, link),
{
    m.map.insert(rider, link);
}

/// `hashbrown::HashMap::remove`: takes the rider's link out, if any.
#[verifier::external_body]
pub(crate) fn index_remove(m: &mut RiderIndex, rider: u64) -> (r: Option<u64>)
    ensures
        r == (if rider_links(*old(m)).contains_key(rider) {
            Some(rider_links(*old(m))[rider])
        } else {
            None
        }),
        rider_links(*final(m)) == rider_links(*old(m)).remove(rider),
{
    m.map.remove(&rider)
}

} // verus!
