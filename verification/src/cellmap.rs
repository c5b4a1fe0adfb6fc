//! A hash map from voxel positions to blocks, kept in a `hashbrown::HashMap`.
//!
//! `hashbrown::HashMap` cannot be declared to Verus here (its allocator bound
//! names a trait of a crate this library does not depend on), so the map is
//! held in a private field of a struct Verus does not look into; what the
//! functions below do to it is stated over `cell_contents`.
use crate::geometry::{Block, BlockWrite, Pos};
use vstd::prelude::*;

verus! {

/// Voxel cells claimed so far, keyed by `(x, y, z)`.
#[verifier::external_body]
pub struct CellMap {
    cells: hashbrown::HashMap<(i32, i32, i32), Block>,
}

/// What a `CellMap` holds.
pub uninterp spec fn cell_contents(m: CellMap) -> Map<(i32, i32, i32), Block>;

pub open spec fn key_of(p: Pos) -> (i32, i32, i32) {
    (p.x, p.y, p.z)
}

pub open spec fn holds_nothing(m: Map<(i32, i32, i32), Block>) -> bool {
    forall|k: (i32, i32, i32)| !#[trigger] m.contains_key(k)
}

/// `hashbrown::HashMap::new`: the new map is empty.
#[verifier::external_body]
pub(crate) fn cells_new() -> (map: CellMap)
    ensures
        holds_nothing(cell_contents(map)),
{
    CellMap { cells: hashbrown::HashMap::new() }
}

/// `hashbrown::HashMap::insert`: the key now maps to the value, whatever it
/// mapped to before.
#[verifier::external_body]
pub(crate) fn cells_insert(m: &mut CellMap, k: (i32, i32, i32), v: Block)
    ensures
        cell_contents(*final(m)) == cell_contents(*old(m)).insert(k, v),
{
    m.cells.insert(k, v);
}

/// `hashbrown::HashMap::entry` followed by `Entry::or_insert`: the value is
/// stored only when the key is absent; a present key keeps its value.
#[verifier::external_body]
pub(crate) fn cells_or_insert(m: &mut CellMap, k: (i32, i32, i32), v: Block)
    ensures
        cell_contents(*final(m)) == (if cell_contents(*old(m)).contains_key(k) {
            cell_contents(*old(m))
        } else {
            cell_contents(*old(m)).insert(k, v)
        }),
{
    m.cells.entry(k).or_insert(v);
}

/// `hashbrown::HashMap::into_iter`, collected: every entry once, each key
/// once, in an order the map does not promise.
#[verifier::external_body]
pub(crate) fn cells_into_writes(m: CellMap) -> (ws: Vec<BlockWrite>)
    ensures
        forall|i: int, j: int|
            0 <= i < j < ws@.len() ==> #[trigger] ws@[i].pos != #[trigger] ws@[j].pos,
        forall|i: int|
            0 <= i < ws@.len() ==> cell_contents(m).contains_key(key_of(#[trigger] ws@[i].pos))
                && cell_contents(m)[key_of(ws@[i].pos)] == ws@[i].block,
        forall|k: (i32, i32, i32)|
            #[trigger] cell_contents(m).contains_key(k) ==> exists|i: int|
                0 <= i < ws@.len() && key_of(#[trigger] ws@[i].pos) == k,
{
    m.cells.into_iter().map(|((x, y, z), block)| BlockWrite { pos: Pos { x, y, z }, block }).collect()
}

} // verus!
