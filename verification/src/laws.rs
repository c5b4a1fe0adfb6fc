//! Properties of the dungeon layout that hold for every anchor and every
//! window of siblings and children.
use crate::corridor::{
    along, corridor_block, corridor_ok, corridor_steps, lemma_round_ratio_exact, lemma_slice_pos,
    ramp_height, slice_pos, straight, CORRIDOR_HEADROOM,
};
use crate::geometry::{air, final_block, overlay, Block, BlockKind, BlockWrite, Pos};
use crate::layout::{
    Shape, net_shape, room_shape, wall_parent, wall_child,
    anchor_ok, child_center, child_shapes, children_ok, layout_shapes, lemma_shapes_block_append,
    lemma_shapes_block_push, one_child_shapes, one_peer_shapes, parent_center, parent_shapes,
    peer_center, peer_chain, peer_offset, peer_shapes, peers_ok, shape_block, shapes_block, shift,
    wall_current, lemma_peer_chain_in_range, spawn_point, DOOR_HEIGHT, DOOR_Z,
};
use crate::windows::DirInfo;
use vstd::prelude::*;

verus! {

proof fn lemma_four(a: Shape, b: Shape, c: Shape, d: Shape, p: Pos)
    ensures
        shapes_block(seq![a, b, c, d], p) == overlay(
            shape_block(d, p),
            overlay(shape_block(c, p), overlay(shape_block(b, p), overlay(shape_block(a, p), None))),
        ),
{
    let s0 = Seq::<Shape>::empty();
    assert(seq![a, b, c, d] =~= s0.push(a).push(b).push(c).push(d));
    lemma_shapes_block_push(s0, a, p);
    lemma_shapes_block_push(s0.push(a), b, p);
    lemma_shapes_block_push(s0.push(a).push(b), c, p);
    lemma_shapes_block_push(s0.push(a).push(b).push(c), d, p);
}

/// The walkable interior at both ends of a corridor is air: a corridor never
/// reseals the doorways it connects.
pub proof fn corridor_ends_are_open(from: Pos, to: Pos, wall: Block, w: int, dz: int)
    requires
        corridor_ok(from, to),
        -2 <= w <= 2,
        0 <= dz < CORRIDOR_HEADROOM,
    ensures
        corridor_block(from, to, wall, slice_pos(from, to, 0, w, from.z + dz)) == Some(air()),
        corridor_block(from, to, wall, slice_pos(from, to, corridor_steps(from, to), w, to.z + dz))
            == Some(air()),
{
    let s = corridor_steps(from, to);
    lemma_slice_pos(from, to, 0, w, from.z + dz);
    lemma_slice_pos(from, to, s, w, to.z + dz);
    lemma_round_ratio_exact(from.z as int, s);
    assert(from.z * s + (to.z - from.z) * s == to.z * s) by (nonlinear_arith);
    assert(from.z * s + (to.z - from.z) * 0 == from.z * s) by (nonlinear_arith);
    lemma_round_ratio_exact(to.z as int, s);
    assert(ramp_height(from, to, 0) == from.z);
    assert(ramp_height(from, to, s) == to.z);
}

/// Peers never touch the band of positions within 10 blocks of the current
/// room's centre line (north/south).
proof fn lemma_peers_clear(
    anchor: Pos,
    peers: Seq<DirInfo>,
    si: usize,
    k: int,
    mn: int,
    ms: int,
    p: Pos,
)
    requires
        anchor_ok(anchor),
        peers_ok(peers, si),
        0 <= k,
        0 <= mn <= 2,
        -2 <= ms <= 0,
        -10 < p.y - anchor.y < 10,
    ensures
        shapes_block(
            peer_shapes(
                anchor,
                peers,
                si,
                peer_chain(peers, si),
                k,
                peer_center(anchor, mn),
                peer_center(anchor, ms),
            ),
            p,
        ) is None,
    decreases peer_chain(peers, si).len() - k,
{
    let chain = peer_chain(peers, si);
    let north = peer_center(anchor, mn);
    let south = peer_center(anchor, ms);
    if k < chain.len() {
        lemma_peer_chain_in_range(peers, si, k);
        let d = peers[chain[k]];
        let off = peer_offset(d, si);
        assert(1 <= off <= 2 || -2 <= off <= -1);
        let from = if off >= 0 {
            north
        } else {
            south
        };
        let c = peer_center(anchor, off);
        let one = one_peer_shapes(anchor, from, off);
        let nmn = if off >= 0 {
            off
        } else {
            mn
        };
        let nms = if off >= 0 {
            ms
        } else {
            off
        };
        lemma_peers_clear(anchor, peers, si, k + 1, nmn, nms, p);
        let rest = peer_shapes(anchor, peers, si, chain, k + 1, peer_center(anchor, nmn), peer_center(anchor, nms));
        assert(peer_shapes(anchor, peers, si, chain, k, north, south) == one + rest);
        lemma_shapes_block_append(one, rest, p);
        lemma_four(one[0], one[1], one[2], one[3], p);
        assert(one =~= seq![one[0], one[1], one[2], one[3]]);
        assert(shape_block(one[0], p) is None);
        assert(shape_block(one[1], p) is None);
        assert(shape_block(one[2], p) is None);
        assert(shape_block(one[3], p) is None);
    }
}

/// Children never touch positions west of the current room's east wall.
proof fn lemma_children_clear_west(anchor: Pos, children: Seq<DirInfo>, k: int, p: Pos)
    requires
        anchor_ok(anchor),
        children_ok(children),
        0 <= k,
        p.x < anchor.x + 10,
    ensures
        shapes_block(child_shapes(anchor, children, k), p) is None,
    decreases children.len() - k,
{
    if k < children.len() {
        let one = one_child_shapes(anchor, children[k].index as int);
        let rest = child_shapes(anchor, children, k + 1);
        lemma_children_clear_west(anchor, children, k + 1, p);
        lemma_shapes_block_append(one, rest, p);
        lemma_four(one[0], one[1], one[2], one[3], p);
        assert(one =~= seq![one[0], one[1], one[2], one[3]]);
        assert(shape_block(one[0], p) is None);
        assert(shape_block(one[1], p) is None);
        assert(shape_block(one[2], p) is None);
        assert(shape_block(one[3], p) is None);
    }
}

/// Children on rows other than the first never touch positions within two
/// blocks of the current room's centre line.
proof fn lemma_later_rows_clear(anchor: Pos, children: Seq<DirInfo>, k: int, p: Pos)
    requires
        anchor_ok(anchor),
        children_ok(children),
        0 <= k,
        forall|j: int| k <= j < children.len() ==> #[trigger] children[j].index >= 1,
        -2 <= p.y - anchor.y <= 2,
    ensures
        shapes_block(child_shapes(anchor, children, k), p) is None,
    decreases children.len() - k,
{
    if k < children.len() {
        let row = children[k].index as int;
        assert(1 <= row <= 4);
        let one = one_child_shapes(anchor, row);
        let rest = child_shapes(anchor, children, k + 1);
        lemma_later_rows_clear(anchor, children, k + 1, p);
        lemma_shapes_block_append(one, rest, p);
        lemma_four(one[0], one[1], one[2], one[3], p);
        assert(one =~= seq![one[0], one[1], one[2], one[3]]);
        assert(shape_block(one[0], p) is None);
        assert(shape_block(one[1], p) is None);
        assert(shape_block(one[2], p) is None);
        assert(shape_block(one[3], p) is None);
    }
}

/// Splits the layout into its parts: `head` (net, current room), the parent,
/// the peers, the children.
proof fn lemma_layout_parts(
    anchor: Pos,
    has_parent: bool,
    si: usize,
    peers: Seq<DirInfo>,
    children: Seq<DirInfo>,
    p: Pos,
)
    ensures
        shapes_block(layout_shapes(anchor, has_parent, si, peers, children), p) == overlay(
            shapes_block(child_shapes(anchor, children, 0), p),
            overlay(
                shapes_block(
                    peer_shapes(anchor, peers, si, peer_chain(peers, si), 0, anchor, anchor),
                    p,
                ),
                overlay(
                    shapes_block(
                        if has_parent {
                            parent_shapes(anchor)
                        } else {
                            Seq::empty()
                        },
                        p,
                    ),
                    shapes_block(seq![net_shape(anchor), room_shape(anchor, wall_current())], p),
                ),
            ),
        ),
{
    let h = seq![net_shape(anchor), room_shape(anchor, wall_current())];
    let par = if has_parent {
        parent_shapes(anchor)
    } else {
        Seq::<Shape>::empty()
    };
    let q = peer_shapes(anchor, peers, si, peer_chain(peers, si), 0, anchor, anchor);
    let kids = child_shapes(anchor, children, 0);
    lemma_shapes_block_append(h + par + q, kids, p);
    lemma_shapes_block_append(h + par, q, p);
    lemma_shapes_block_append(h, par, p);
}

/// With a parent directory, the doorway toward it is open at both ends (the
/// whole opening, in the current room's west wall and in the parent room's
/// east wall), the ramp is walkable partway along, and the current room's
/// wall away from the doorway stays solid; whatever siblings and children
/// are drawn.
pub proof fn parent_doorway_is_walkable(
    anchor: Pos,
    si: usize,
    peers: Seq<DirInfo>,
    children: Seq<DirInfo>,
)
    requires
        anchor_ok(anchor),
        peers_ok(peers, si),
        children_ok(children),
    ensures
        forall|w: int, dz: int|
            -2 <= w <= 2 && 0 <= dz < DOOR_HEIGHT ==> shapes_block(
                layout_shapes(anchor, true, si, peers, children),
                #[trigger] shift(anchor, -10, w, DOOR_Z + dz),
            ) == Some(air()),
        forall|w: int, dz: int|
            -2 <= w <= 2 && 0 <= dz < DOOR_HEIGHT ==> shapes_block(
                layout_shapes(anchor, true, si, peers, children),
                #[trigger] shift(parent_center(anchor), 10, w, DOOR_Z + dz),
            ) == Some(air()),
        shapes_block(layout_shapes(anchor, true, si, peers, children), shift(anchor, -12, 0, DOOR_Z + 1))
            == Some(air()),
        shapes_block(layout_shapes(anchor, true, si, peers, children), shift(anchor, -26, 0, 3))
            == Some(air()),
        shapes_block(layout_shapes(anchor, true, si, peers, children), shift(anchor, -10, 8, 0))
            == Some(wall_current()),
{
    let c = parent_center(anchor);
    let from = shift(anchor, -10, 0, DOOR_Z as int);
    let to = shift(c, 10, 0, DOOR_Z as int);
    let par = parent_shapes(anchor);
    assert(corridor_ok(from, to));
    assert(corridor_steps(from, to) == 32);
    assert forall|q: Pos| #![trigger shapes_block(par, q)]
        corridor_block(from, to, wall_parent(), q) is Some ==> shapes_block(par, q)
            == corridor_block(from, to, wall_parent(), q) by {
        lemma_four(par[0], par[1], par[2], par[3], q);
        assert(par =~= seq![par[0], par[1], par[2], par[3]]);
    }
    assert forall|w: int, dz: int|
        -2 <= w <= 2 && 0 <= dz < DOOR_HEIGHT implies shapes_block(
            layout_shapes(anchor, true, si, peers, children),
            #[trigger] shift(anchor, -10, w, DOOR_Z + dz),
        ) == Some(air()) by {
        let p = shift(anchor, -10, w, DOOR_Z + dz);
        corridor_ends_are_open(from, to, wall_parent(), w, dz);
        assert(slice_pos(from, to, 0, w, from.z + dz) == p);
        lemma_layout_parts(anchor, true, si, peers, children, p);
        lemma_children_clear_west(anchor, children, 0, p);
        lemma_peers_clear(anchor, peers, si, 0, 0, 0, p);
        assert(shapes_block(par, p) == Some(air()));
    }
    assert forall|w: int, dz: int|
        -2 <= w <= 2 && 0 <= dz < DOOR_HEIGHT implies shapes_block(
            layout_shapes(anchor, true, si, peers, children),
            #[trigger] shift(c, 10, w, DOOR_Z + dz),
        ) == Some(air()) by {
        let p = shift(c, 10, w, DOOR_Z + dz);
        corridor_ends_are_open(from, to, wall_parent(), w, dz);
        assert(slice_pos(from, to, 32, w, to.z + dz) == p);
        lemma_layout_parts(anchor, true, si, peers, children, p);
        lemma_children_clear_west(anchor, children, 0, p);
        lemma_peers_clear(anchor, peers, si, 0, 0, 0, p);
        assert(shapes_block(par, p) == Some(air()));
    }
    // Partway along the ramp: two steps out, and half way.
    let p2 = shift(anchor, -12, 0, DOOR_Z + 1);
    lemma_round_ratio_exact(from.z + 1, 32);
    assert(from.z * 32 + 16 * 2 == (from.z + 1) * 32);
    assert(ramp_height(from, to, 2) == from.z + 1);
    lemma_layout_parts(anchor, true, si, peers, children, p2);
    lemma_children_clear_west(anchor, children, 0, p2);
    lemma_peers_clear(anchor, peers, si, 0, 0, 0, p2);
    assert(shapes_block(par, p2) == Some(air()));
    let p16 = shift(anchor, -26, 0, 3);
    lemma_round_ratio_exact(from.z + 8, 32);
    assert(from.z * 32 + 16 * 16 == (from.z + 8) * 32);
    assert(ramp_height(from, to, 16) == from.z + 8);
    lemma_layout_parts(anchor, true, si, peers, children, p16);
    lemma_children_clear_west(anchor, children, 0, p16);
    lemma_peers_clear(anchor, peers, si, 0, 0, 0, p16);
    assert(shapes_block(par, p16) == Some(air()));
    // The west wall beside the doorway.
    let pw = shift(anchor, -10, 8, 0);
    lemma_layout_parts(anchor, true, si, peers, children, pw);
    lemma_children_clear_west(anchor, children, 0, pw);
    lemma_peers_clear(anchor, peers, si, 0, 0, 0, pw);
    lemma_four(par[0], par[1], par[2], par[3], pw);
    assert(par =~= seq![par[0], par[1], par[2], par[3]]);
    let h = seq![net_shape(anchor), room_shape(anchor, wall_current())];
    assert(h =~= Seq::<Shape>::empty().push(net_shape(anchor)).push(room_shape(anchor, wall_current())));
    lemma_shapes_block_push(Seq::<Shape>::empty(), net_shape(anchor), pw);
    lemma_shapes_block_push(Seq::<Shape>::empty().push(net_shape(anchor)), room_shape(anchor, wall_current()), pw);
}

/// The doorway toward the first child is open at both ends (the whole
/// opening, in the current room's east wall and in the child room's west
/// wall), whatever siblings are drawn and whether there is a parent, when
/// the children are those of the first rows in order.
pub proof fn first_child_doorway_is_walkable(
    anchor: Pos,
    has_parent: bool,
    si: usize,
    peers: Seq<DirInfo>,
    children: Seq<DirInfo>,
)
    requires
        anchor_ok(anchor),
        peers_ok(peers, si),
        children_ok(children),
        children.len() > 0,
        children[0].index == 0,
        forall|j: int| 1 <= j < children.len() ==> #[trigger] children[j].index >= 1,
    ensures
        forall|w: int, dz: int|
            -2 <= w <= 2 && 0 <= dz < DOOR_HEIGHT ==> shapes_block(
                layout_shapes(anchor, has_parent, si, peers, children),
                #[trigger] shift(anchor, 10, w, DOOR_Z + dz),
            ) == Some(air()),
        forall|w: int, dz: int|
            -2 <= w <= 2 && 0 <= dz < DOOR_HEIGHT ==> shapes_block(
                layout_shapes(anchor, has_parent, si, peers, children),
                #[trigger] shift(child_center(anchor, 0), -10, w, DOOR_Z + dz),
            ) == Some(air()),
{
    let c = child_center(anchor, 0);
    let from = shift(anchor, 10, 0, DOOR_Z as int);
    let to = shift(c, -10, 0, DOOR_Z as int);
    let one = one_child_shapes(anchor, 0);
    let rest = child_shapes(anchor, children, 1);
    assert(child_shapes(anchor, children, 0) == one + rest);
    assert(corridor_ok(from, to));
    assert(corridor_steps(from, to) == 32);
    assert forall|w: int, dz: int|
        -2 <= w <= 2 && 0 <= dz < DOOR_HEIGHT implies shapes_block(
            layout_shapes(anchor, has_parent, si, peers, children),
            #[trigger] shift(anchor, 10, w, DOOR_Z + dz),
        ) == Some(air()) by {
        let p = shift(anchor, 10, w, DOOR_Z + dz);
        corridor_ends_are_open(from, to, wall_child(), w, dz);
        assert(slice_pos(from, to, 0, w, from.z + dz) == p);
        lemma_layout_parts(anchor, has_parent, si, peers, children, p);
        lemma_later_rows_clear(anchor, children, 1, p);
        lemma_shapes_block_append(one, rest, p);
        lemma_four(one[0], one[1], one[2], one[3], p);
        assert(one =~= seq![one[0], one[1], one[2], one[3]]);
    }
    assert forall|w: int, dz: int|
        -2 <= w <= 2 && 0 <= dz < DOOR_HEIGHT implies shapes_block(
            layout_shapes(anchor, has_parent, si, peers, children),
            #[trigger] shift(c, -10, w, DOOR_Z + dz),
        ) == Some(air()) by {
        let p = shift(c, -10, w, DOOR_Z + dz);
        corridor_ends_are_open(from, to, wall_child(), w, dz);
        assert(slice_pos(from, to, 32, w, to.z + dz) == p);
        lemma_layout_parts(anchor, has_parent, si, peers, children, p);
        lemma_later_rows_clear(anchor, children, 1, p);
        lemma_shapes_block_append(one, rest, p);
        lemma_four(one[0], one[1], one[2], one[3], p);
        assert(one =~= seq![one[0], one[1], one[2], one[3]]);
    }
}

/// A player placed at the spawn point is inside the height band of every
/// doorway of the current room, and of every corridor's headroom.
pub proof fn spawn_height_is_within_doorways(anchor: Pos)
    requires
        anchor_ok(anchor),
    ensures
        anchor.z + DOOR_Z <= spawn_point(anchor).z < anchor.z + DOOR_Z + DOOR_HEIGHT,
        spawn_point(anchor).x == anchor.x && spawn_point(anchor).y == anchor.y,
        DOOR_HEIGHT == CORRIDOR_HEADROOM,
{
}

} // verus!
