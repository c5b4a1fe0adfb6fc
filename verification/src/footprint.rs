//! The layout never reaches outside the box `clear_layout` blanks (save for
//! the safety net one layer below it), however many siblings and children
//! are drawn.
use crate::corridor::{corridor_block, lemma_corridor_in_box, max2, min2, straight, CORRIDOR_HEADROOM};
use crate::geometry::{fill_block, in_box, Block, Fill, Pos};
use crate::layout::{
    bounds_hi, bounds_lo, child_shapes, children_ok, door_block, layout_shapes, lemma_peer_chain_in_range,
    net_shape, one_child_shapes, one_peer_shapes, parent_shapes, peer_chain, peer_offset, peer_shapes,
    peers_ok, room_shape, shape_block, shapes_block, shift, anchor_ok, Shape, wall_current, wall_parent,
    wall_peer, wall_child, child_center, peer_center, parent_center,
};
use crate::windows::DirInfo;
use vstd::prelude::*;

verus! {

/// Whether `p` lies in the box cleared around `anchor`, or on the safety
/// net's layer just below it.
pub open spec fn within_footprint(anchor: Pos, p: Pos) -> bool {
    let lo = bounds_lo(anchor);
    let hi = bounds_hi(anchor);
    in_box(lo, hi, p) || (p.z == lo.z - 5 && lo.x <= p.x <= hi.x && lo.y <= p.y <= hi.y)
}

pub open spec fn shape_within(anchor: Pos, s: Shape) -> bool {
    forall|p: Pos| #[trigger] shape_block(s, p) is Some ==> within_footprint(anchor, p)
}

/// The box `[x0, x1] × [y0, y1] × [z0, z1]` (offsets from `anchor`) lies in
/// the cleared box.
pub open spec fn offsets_inside(x0: int, x1: int, y0: int, y1: int, z0: int, z1: int) -> bool {
    &&& -64 <= x0 && x1 <= 64
    &&& -132 <= y0 && y1 <= 132
    &&& -24 <= z0 && z1 <= 24
}

proof fn lemma_shapes_within(anchor: Pos, ss: Seq<Shape>, p: Pos)
    requires
        forall|k: int| 0 <= k < ss.len() ==> shape_within(anchor, #[trigger] ss[k]),
        shapes_block(ss, p) is Some,
    ensures
        within_footprint(anchor, p),
    decreases ss.len(),
{
    let n = ss.len() - 1;
    if shape_block(ss.last(), p) is Some {
        assert(shape_within(anchor, ss[n]));
    } else {
        assert forall|k: int| 0 <= k < ss.drop_last().len() implies shape_within(
            anchor,
            #[trigger] ss.drop_last()[k],
        ) by {
            assert(ss.drop_last()[k] == ss[k]);
        }
        lemma_shapes_within(anchor, ss.drop_last(), p);
    }
}

proof fn lemma_room_within(anchor: Pos, c: Pos, wall: Block, dx: int, dy: int, dz: int)
    requires
        anchor_ok(anchor),
        c.x == anchor.x + dx,
        c.y == anchor.y + dy,
        c.z == anchor.z + dz,
        offsets_inside(dx - 10, dx + 10, dy - 10, dy + 10, dz - 6, dz + 6),
    ensures
        shape_within(anchor, room_shape(c, wall)),
{
    assert forall|p: Pos| #[trigger] shape_block(room_shape(c, wall), p) is Some implies within_footprint(
        anchor,
        p,
    ) by {
        assert(in_box(shift(c, -10, -10, -6), shift(c, 10, 10, 6), p));
    }
}

proof fn lemma_door_within(
    anchor: Pos,
    center: Pos,
    axis: usize,
    sign: i32,
    along: i32,
    dx: int,
    dy: int,
    dz: int,
)
    requires
        anchor_ok(anchor),
        center.x == anchor.x + dx,
        center.y == anchor.y + dy,
        center.z == anchor.z + dz,
        axis == 0 ==> offsets_inside(dx - 10, dx + 10, dy + along - 2, dy + along + 2, dz - 5, dz - 1),
        axis != 0 ==> offsets_inside(dx + along - 2, dx + along + 2, dy - 10, dy + 10, dz - 5, dz - 1),
    ensures
        shape_within(anchor, Shape::Doorway { center, axis, sign, along, width: 4 }),
{
}

proof fn lemma_tunnel_within(anchor: Pos, from: Pos, to: Pos, wall: Block)
    requires
        anchor_ok(anchor),
        straight(from, to),
        offsets_inside(
            min2(from.x - anchor.x, to.x - anchor.x) - 3,
            max2(from.x - anchor.x, to.x - anchor.x) + 3,
            min2(from.y - anchor.y, to.y - anchor.y) - 3,
            max2(from.y - anchor.y, to.y - anchor.y) + 3,
            min2(from.z - anchor.z, to.z - anchor.z) - 1,
            max2(from.z - anchor.z, to.z - anchor.z) + CORRIDOR_HEADROOM,
        ),
    ensures
        shape_within(anchor, Shape::Tunnel { from, to, wall }),
{
    assert forall|p: Pos| #[trigger] shape_block(Shape::Tunnel { from, to, wall }, p) is Some implies within_footprint(
        anchor,
        p,
    ) by {
        lemma_corridor_in_box(from, to, wall, p);
    }
}

proof fn lemma_parent_within(anchor: Pos)
    requires
        anchor_ok(anchor),
    ensures
        forall|k: int| 0 <= k < parent_shapes(anchor).len() ==> shape_within(anchor, #[trigger] parent_shapes(anchor)[k]),
{
    let ss = parent_shapes(anchor);
    let c = shift(anchor, -52, 0, 16);
    lemma_room_within(anchor, c, wall_parent(), -52, 0, 16);
    lemma_door_within(anchor, anchor, 0, -1i32, 0i32, 0, 0, 0);
    lemma_door_within(anchor, c, 0, 1i32, 0i32, -52, 0, 16);
    lemma_tunnel_within(anchor, shift(anchor, -10, 0, -5), shift(c, 10, 0, -5), wall_parent());
}

/// `from` is the centre of the current room or of a peer room.
pub open spec fn peer_slot(anchor: Pos, from: Pos) -> bool {
    exists|o: int| -2 <= o <= 2 && from == #[trigger] shift(anchor, 0, o * 30, 0)
}

proof fn lemma_one_peer_within(anchor: Pos, from: Pos, off: int)
    requires
        anchor_ok(anchor),
        peer_slot(anchor, from),
        -2 <= off <= 2,
        off != 0,
    ensures
        forall|k: int| 0 <= k < one_peer_shapes(anchor, from, off).len() ==> shape_within(
            anchor,
            #[trigger] one_peer_shapes(anchor, from, off)[k],
        ),
{
    let o = choose|o: int| -2 <= o <= 2 && from == #[trigger] shift(anchor, 0, o * 30, 0);
    let ss = one_peer_shapes(anchor, from, off);
    let c = shift(anchor, 0, off * 30, 0);
    let dir: int = if off > 0 { 1 } else { -1 };
    lemma_room_within(anchor, c, wall_peer(), 0, off * 30, 0);
    lemma_door_within(anchor, from, 1, dir as i32, 0i32, 0, o * 30, 0);
    lemma_door_within(anchor, c, 1, -dir as i32, 0i32, 0, off * 30, 0);
    lemma_tunnel_within(anchor, shift(from, 0, dir * 10, -5), shift(c, 0, -dir * 10, -5), wall_peer());
}


proof fn lemma_peers_within(
    anchor: Pos,
    peers: Seq<DirInfo>,
    self_index: usize,
    chain: Seq<int>,
    k: int,
    north: Pos,
    south: Pos,
)
    requires
        anchor_ok(anchor),
        peers_ok(peers, self_index),
        forall|j: int| 0 <= j < chain.len() ==> 0 <= #[trigger] chain[j] < peers.len(),
        peer_slot(anchor, north),
        peer_slot(anchor, south),
    ensures
        forall|j: int|
            0 <= j < peer_shapes(anchor, peers, self_index, chain, k, north, south).len() ==> shape_within(
                anchor,
                #[trigger] peer_shapes(anchor, peers, self_index, chain, k, north, south)[j],
            ),
    decreases chain.len() - k,
{
    if k < chain.len() && k >= 0 {
        let off = peer_offset(peers[chain[k]], self_index);
        assert(1 <= off <= 2 || -2 <= off <= -1) by {
            let i = chain[k];
            assert(0 <= i < peers.len());
        }
        let from = if off >= 0 { north } else { south };
        let c = shift(anchor, 0, off * 30, 0);
        assert(peer_slot(anchor, c));
        lemma_one_peer_within(anchor, from, off);
        let n2 = if off >= 0 { c } else { north };
        let s2 = if off >= 0 { south } else { c };
        lemma_peers_within(anchor, peers, self_index, chain, k + 1, n2, s2);
        let a = one_peer_shapes(anchor, from, off);
        let b = peer_shapes(anchor, peers, self_index, chain, k + 1, n2, s2);
        assert(peer_shapes(anchor, peers, self_index, chain, k, north, south) == a + b);
        assert forall|j: int| 0 <= j < (a + b).len() implies shape_within(anchor, #[trigger] (a + b)[j]) by {
            if j < a.len() {
                assert((a + b)[j] == a[j]);
            } else {
                assert((a + b)[j] == b[j - a.len()]);
            }
        }
    }
}

proof fn lemma_children_within(anchor: Pos, children: Seq<DirInfo>, k: int)
    requires
        anchor_ok(anchor),
        children_ok(children),
    ensures
        forall|j: int|
            0 <= j < child_shapes(anchor, children, k).len() ==> shape_within(
                anchor,
                #[trigger] child_shapes(anchor, children, k)[j],
            ),
    decreases children.len() - k,
{
    if k < children.len() && k >= 0 {
        let row = children[k].index as int;
        assert(0 <= row <= 4);
        let a = one_child_shapes(anchor, row);
        let c = shift(anchor, 52, row * 30, -16);
        lemma_room_within(anchor, c, wall_child(), 52, row * 30, -16);
        lemma_door_within(anchor, anchor, 0, 1i32, (row * 30) as i32, 0, 0, 0);
        lemma_door_within(anchor, c, 0, -1i32, 0i32, 52, row * 30, -16);
        lemma_tunnel_within(anchor, shift(anchor, 10, row * 30, -5), shift(c, -10, 0, -5), wall_child());
        lemma_children_within(anchor, children, k + 1);
        let b = child_shapes(anchor, children, k + 1);
        assert forall|j: int| 0 <= j < (a + b).len() implies shape_within(anchor, #[trigger] (a + b)[j]) by {
            if j < a.len() {
                assert((a + b)[j] == a[j]);
            } else {
                assert((a + b)[j] == b[j - a.len()]);
            }
        }
    }
}

/// Whatever the layout draws lies in the box `clear_layout` blanks (or on
/// the safety net's layer just below it): the cleared box covers the whole
/// layout, however many siblings and children are drawn.
pub proof fn layout_stays_in_cleared_box(
    anchor: Pos,
    has_parent: bool,
    self_index: usize,
    peers: Seq<DirInfo>,
    children: Seq<DirInfo>,
    p: Pos,
)
    requires
        anchor_ok(anchor),
        peers_ok(peers, self_index),
        children_ok(children),
        shapes_block(layout_shapes(anchor, has_parent, self_index, peers, children), p) is Some,
    ensures
        within_footprint(anchor, p),
{
    let head = seq![net_shape(anchor), room_shape(anchor, wall_current())];
    let par = if has_parent { parent_shapes(anchor) } else { Seq::empty() };
    let chain = peer_chain(peers, self_index);
    let ps = peer_shapes(anchor, peers, self_index, chain, 0, anchor, anchor);
    let cs = child_shapes(anchor, children, 0);
    let all = layout_shapes(anchor, has_parent, self_index, peers, children);
    assert(all == head + par + ps + cs);
    assert forall|p: Pos| #[trigger] shape_block(net_shape(anchor), p) is Some implies within_footprint(anchor, p) by {}
    lemma_room_within(anchor, anchor, wall_current(), 0, 0, 0);
    if has_parent {
        lemma_parent_within(anchor);
    }
    assert forall|j: int| 0 <= j < chain.len() implies 0 <= #[trigger] chain[j] < peers.len() by {
        lemma_peer_chain_in_range(peers, self_index, j);
    }
    assert(anchor == shift(anchor, 0, 0int * 30, 0));
    assert(peer_slot(anchor, anchor));
    lemma_peers_within(anchor, peers, self_index, chain, 0, anchor, anchor);
    lemma_children_within(anchor, children, 0);
    assert forall|j: int| 0 <= j < all.len() implies shape_within(anchor, #[trigger] all[j]) by {
        let n0 = head.len() as int;
        let n1 = n0 + par.len();
        let n2 = n1 + ps.len();
        if j < n0 {
            assert(all[j] == head[j]);
        } else if j < n1 {
            assert(all[j] == par[j - n0]);
        } else if j < n2 {
            assert(all[j] == ps[j - n1]);
        } else {
            assert(all[j] == cs[j - n2]);
        }
    }
    lemma_shapes_within(anchor, all, p);
}


/// Rooms on different rows never overlap, shells included: peers (north
/// and south of the current room) and children (east of it) are spaced
/// `ROW_SPACING` apart, more than a room's width; and the doorways open
/// exactly as high as a corridor's headroom.
pub proof fn neighbouring_rooms_do_not_overlap(anchor: Pos, row1: int, row2: int, p: Pos)
    requires
        anchor_ok(anchor),
        -2 <= row1 <= 4,
        -2 <= row2 <= 4,
        row1 != row2,
    ensures
        !(in_box(shift(peer_center(anchor, row1), -10, -10, -6), shift(peer_center(anchor, row1), 10, 10, 6), p)
            && in_box(shift(peer_center(anchor, row2), -10, -10, -6), shift(peer_center(anchor, row2), 10, 10, 6), p)),
        !(in_box(shift(child_center(anchor, row1), -10, -10, -6), shift(child_center(anchor, row1), 10, 10, 6), p)
            && in_box(shift(child_center(anchor, row2), -10, -10, -6), shift(child_center(anchor, row2), 10, 10, 6), p)),
        crate::layout::DOOR_HEIGHT == CORRIDOR_HEADROOM,
{
}

} // verus!
