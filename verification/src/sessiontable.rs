//! The table of active OS Dungeon visits, kept in a `hashbrown::HashMap`
//! keyed by player uid.
//!
//! As with `CellMap`, the map is held in a private field that Verus does not
//! look into; what each function does to it is stated over
//! `session_entries`.
use crate::session::OsDungeonSession;
use vstd::prelude::*;

verus! {

#[verifier::external_body]
pub struct SessionTable {
    map: hashbrown::HashMap<u64, OsDungeonSession>,
}

/// What a `SessionTable` holds.
pub uninterp spec fn session_entries(t: SessionTable) -> Map<u64, OsDungeonSession>;

pub open spec fn table_is_empty(m: Map<u64, OsDungeonSession>) -> bool {
    forall|k: u64| !#[trigger] m.contains_key(k)
}

/// `hashbrown::HashMap::new`: the new table is empty.
#[verifier::external_body]
pub(crate) fn table_new() -> (table: SessionTable)
    ensures
        table_is_empty(session_entries(table)),
{
    SessionTable { map: hashbrown::HashMap::new() }
}

/// `hashbrown::HashMap::get`: the value stored under the key, if any.
#[verifier::external_body]
pub(crate) fn table_get(t: &SessionTable, uid: u64) -> (r: Option<&OsDungeonSession>)
    ensures
        r == (if session_entries(*t).contains_key(uid) {
            Some(&session_entries(*t)[uid])
        } else {
            None
        }),
{
    t.map.get(&uid)
}

/// `hashbrown::HashMap::contains_key`.
#[verifier::external_body]
pub(crate) fn table_contains(t: &SessionTable, uid: u64) -> (r: bool)
    ensures
        r == session_entries(*t).contains_key(uid),
{
    t.map.contains_key(&uid)
}

/// `hashbrown::HashMap::insert`: the key now maps to the value; the value it
/// replaced, if any, is dropped.
#[verifier::external_body]
pub(crate) fn table_insert(t: &mut SessionTable, uid: u64, s: OsDungeonSession)
    ensures
        session_entries(*final(t)) == session_entries(*old(t)).insert(uid, s),
{
    t.map.insert(uid, s);
}

/// `hashbrown::HashMap::remove`: the key is gone and its value returned.
#[verifier::external_body]
pub(crate) fn table_remove(t: &mut SessionTable, uid: u64) -> (r: Option<OsDungeonSession>)
    ensures
        session_entries(*final(t)) == session_entries(*old(t)).remove(uid),
        r == (if session_entries(*old(t)).contains_key(uid) {
            Some(session_entries(*old(t))[uid])
        } else {
            None
        }),
{
    t.map.remove(&uid)
}

/// `hashbrown::HashMap::keys`, collected: every key once, in an order the
/// map does not promise.
#[verifier::external_body]
pub(crate) fn table_uids(t: &SessionTable) -> (r: Vec<u64>)
    ensures
        forall|i: int, j: int| 0 <= i < j < r@.len() ==> r@[i] != r@[j],
        forall|k: u64| session_entries(*t).contains_key(k) <==> r@.contains(k),
{
    t.map.keys().copied().collect()
}

} // verus!
