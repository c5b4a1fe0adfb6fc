//! The OS Dungeon's voxel layout around one directory: the current room, its
//! parent (west, up), its siblings ("peers", north/south) and its children
//! (east, down), joined by doorways and corridors; plus the doorway trigger
//! zones.
use crate::corridor::{
    carve_corridor, corridor_block, corridor_ok, door_light, door_light_spec, floor, floor_spec,
    CORRIDOR_HEADROOM, CORRIDOR_WIDTH,
};
use crate::geometry::{
    air, air_block, fill_block, final_block, in_box, overlay, pos, put, fill_box, rock, Block,
    BlockKind, BlockWrite, Fill, Pos,
};
use crate::windows::{copy_bytes, DirInfo};
use vstd::prelude::*;

verus! {

/// Half-extents of a room (a room spans `-half..=half` around its centre).
pub const ROOM_HALF_X: i32 = 10;

pub const ROOM_HALF_Y: i32 = 10;

pub const ROOM_HALF_Z: i32 = 6;

/// Horizontal run of the corridor between two room walls.
pub const CORRIDOR_LEN: i32 = 32;

/// Spacing between adjacent peer/child rooms along their row.
pub const ROW_SPACING: i32 = 30;

/// How much higher the parent room sits, and how much lower child rooms sit.
pub const LEVEL_SHIFT: i32 = 16;

/// How far straight up from the player the dungeon is anchored on entry.
pub const ANCHOR_UP: i32 = 500;

/// Whether corridors are carved behind the doorways.
pub const DRAW_CORRIDORS: bool = true;

/// How many siblings/children either side of "current"/"selected" to draw.
pub const WINDOW_RADIUS: usize = 2;

/// Height of a floor-level doorway, relative to its room's centre: one block
/// above the room's floor.
pub const DOOR_Z: i32 = -ROOM_HALF_Z + 1;

/// Doorway height in blocks; equal to the corridor headroom.
pub const DOOR_HEIGHT: i32 = CORRIDOR_HEADROOM;

/// How far the layout reaches from its anchor along each axis, at most.
pub const REACH_X: i32 = ROOM_HALF_X * 2 + CORRIDOR_LEN + ROOM_HALF_X + 2;

pub const REACH_Y: i32 = ROOM_HALF_Y + 2 * (WINDOW_RADIUS as i32) * ROW_SPACING + 2;

pub const REACH_Z: i32 = ROOM_HALF_Z + LEVEL_SHIFT + 2;

pub open spec fn room_half() -> Pos {
    Pos { x: 10, y: 10, z: 6 }
}

pub open spec fn wall_current() -> Block {
    rock(225, 225, 210)
}

pub open spec fn wall_parent() -> Block {
    rock(80, 200, 210)
}

pub open spec fn wall_peer() -> Block {
    rock(140, 140, 140)
}

pub open spec fn wall_child() -> Block {
    rock(90, 190, 110)
}

pub open spec fn shift(p: Pos, dx: int, dy: int, dz: int) -> Pos {
    pos(p.x + dx, p.y + dy, p.z + dz)
}

/// An anchor far enough from the ends of the coordinate range for every
/// coordinate of the layout to be representable.
pub open spec fn anchor_ok(a: Pos) -> bool {
    &&& i32::MIN + 64 <= a.x <= i32::MAX - 64
    &&& i32::MIN + 132 <= a.y <= i32::MAX - 132
    &&& i32::MIN + 29 <= a.z <= i32::MAX - 29
}

/// Where a player entering at `anchor` is placed: the centre of the current
/// room, two blocks above the doorways' floor level.
pub open spec fn spawn_point(anchor: Pos) -> Pos {
    shift(anchor, 0, 0, DOOR_Z + 2)
}

/// The spawn position for a layout drawn at `anchor`. It lies inside the
/// height band every doorway of the current room opens.
pub fn spawn_pos(anchor: Pos) -> (r: Pos)
    requires
        anchor_ok(anchor),
    ensures
        r == spawn_point(anchor),
        anchor.z + DOOR_Z <= r.z < anchor.z + DOOR_Z + DOOR_HEIGHT,
{
    Pos { x: anchor.x, y: anchor.y, z: anchor.z + DOOR_Z + 2 }
}

/// One drawing step of the layout.
pub enum Shape {
    /// A filled box.
    Boxed { lo: Pos, hi: Pos, fill: Fill },
    /// A doorway through one wall of the room centred at `center`.
    Doorway { center: Pos, axis: usize, sign: i32, along: i32, width: i32 },
    /// A corridor between two doorway thresholds.
    Tunnel { from: Pos, to: Pos, wall: Block },
}

/// Position of the wall a doorway goes through, along the wall's normal axis.
pub open spec fn door_wall(center: Pos, axis: usize, sign: i32) -> int {
    if axis == 0 {
        if sign > 0 {
            center.x + 10
        } else {
            center.x - 10
        }
    } else {
        if sign > 0 {
            center.y + 10
        } else {
            center.y - 10
        }
    }
}

/// Centre of a doorway's opening along the wall.
pub open spec fn door_mid(center: Pos, axis: usize, along: i32) -> int {
    if axis == 0 {
        center.y + along
    } else {
        center.x + along
    }
}

/// What a doorway puts at `p`: air in an opening through the wall exactly
/// `width` columns wide (from `width / 2` before its middle) and
/// `DOOR_HEIGHT` tall, starting `DOOR_Z` above the centre, and a light just
/// above the opening's middle.
pub open spec fn door_block(
    center: Pos,
    axis: usize,
    sign: i32,
    along: i32,
    width: i32,
    p: Pos,
) -> Option<Block> {
    let hw = width / 2;
    let base = center.z + DOOR_Z;
    let normal = if axis == 0 {
        p.x as int
    } else {
        p.y as int
    };
    let lateral = if axis == 0 {
        p.y as int
    } else {
        p.x as int
    };
    let wallc = door_wall(center, axis, sign);
    let mid = door_mid(center, axis, along);
    if normal == wallc && mid - hw <= lateral < mid - hw + width && base <= p.z < base + DOOR_HEIGHT {
        Some(air())
    } else if normal == wallc && lateral == mid && p.z == base + DOOR_HEIGHT {
        Some(door_light_spec())
    } else {
        None
    }
}

pub open spec fn shape_block(s: Shape, p: Pos) -> Option<Block> {
    match s {
        Shape::Boxed { lo, hi, fill } => fill_block(fill, lo, hi, p),
        Shape::Doorway { center, axis, sign, along, width } => door_block(
            center,
            axis,
            sign,
            along,
            width,
            p,
        ),
        Shape::Tunnel { from, to, wall } => corridor_block(from, to, wall, p),
    }
}

/// What drawing `shapes` in order leaves at `p`.
pub open spec fn shapes_block(shapes: Seq<Shape>, p: Pos) -> Option<Block>
    decreases shapes.len(),
{
    if shapes.len() == 0 {
        None
    } else {
        overlay(shape_block(shapes.last(), p), shapes_block(shapes.drop_last(), p))
    }
}

pub proof fn lemma_shapes_block_push(ss: Seq<Shape>, s: Shape, p: Pos)
    ensures
        shapes_block(ss.push(s), p) == overlay(shape_block(s, p), shapes_block(ss, p)),
{
    assert(ss.push(s).drop_last() =~= ss);
}

pub proof fn lemma_shapes_block_append(a: Seq<Shape>, b: Seq<Shape>, p: Pos)
    ensures
        shapes_block(a + b, p) == overlay(shapes_block(b, p), shapes_block(a, p)),
    decreases b.len(),
{
    if b.len() == 0 {
        assert(a + b =~= a);
    } else {
        assert((a + b).drop_last() =~= a + b.drop_last());
        lemma_shapes_block_append(a, b.drop_last(), p);
    }
}

pub open spec fn room_shape(center: Pos, wall: Block) -> Shape {
    Shape::Boxed {
        lo: shift(center, -10, -10, -6),
        hi: shift(center, 10, 10, 6),
        fill: Fill::Shell(wall),
    }
}

/// The bounding box cleared before every redraw: it covers every room,
/// doorway and corridor the layout can draw.
pub open spec fn bounds_lo(anchor: Pos) -> Pos {
    shift(anchor, -REACH_X as int, -REACH_Y as int, -REACH_Z as int)
}

pub open spec fn bounds_hi(anchor: Pos) -> Pos {
    shift(anchor, REACH_X as int, REACH_Y as int, REACH_Z as int)
}

pub open spec fn net_shape(anchor: Pos) -> Shape {
    let lo = bounds_lo(anchor);
    let hi = bounds_hi(anchor);
    Shape::Boxed {
        lo: pos(lo.x as int, lo.y as int, lo.z - 5),
        hi: pos(hi.x as int, hi.y as int, lo.z - 5),
        fill: Fill::Solid(floor_spec()),
    }
}

/// Position of the parent room.
pub open spec fn parent_center(anchor: Pos) -> Pos {
    shift(anchor, -(ROOM_HALF_X * 2 + CORRIDOR_LEN) as int, 0, LEVEL_SHIFT as int)
}

pub open spec fn parent_shapes(anchor: Pos) -> Seq<Shape> {
    let c = parent_center(anchor);
    seq![
        room_shape(c, wall_parent()),
        Shape::Doorway { center: anchor, axis: 0, sign: -1i32, along: 0, width: CORRIDOR_WIDTH },
        Shape::Doorway { center: c, axis: 0, sign: 1, along: 0, width: CORRIDOR_WIDTH },
        Shape::Tunnel {
            from: shift(anchor, -10, 0, DOOR_Z as int),
            to: shift(c, 10, 0, DOOR_Z as int),
            wall: wall_parent(),
        },
    ]
}

/// Offset of a peer from the current directory in the sorted sibling list.
pub open spec fn peer_offset(d: DirInfo, self_index: usize) -> int {
    d.index - self_index
}

/// Positions (in `peers`, among the first `n`) of the peers `dist` slots away.
pub open spec fn at_distance(peers: Seq<DirInfo>, self_index: usize, dist: int, n: int) -> Seq<int>
    decreases n,
{
    if n <= 0 {
        Seq::empty()
    } else {
        let rest = at_distance(peers, self_index, dist, n - 1);
        let off = peer_offset(peers[n - 1], self_index);
        if off == dist || off == -dist {
            rest.push(n - 1)
        } else {
            rest
        }
    }
}

pub proof fn lemma_at_distance_in_range(peers: Seq<DirInfo>, self_index: usize, dist: int, n: int)
    requires
        n <= peers.len(),
    ensures
        forall|k: int| 0 <= k < at_distance(peers, self_index, dist, n).len() ==>
            0 <= #[trigger] at_distance(peers, self_index, dist, n)[k] < n,
    decreases n,
{
    if n > 0 {
        lemma_at_distance_in_range(peers, self_index, dist, n - 1);
        let rest = at_distance(peers, self_index, dist, n - 1);
        let all = at_distance(peers, self_index, dist, n);
        assert forall|k: int| 0 <= k < all.len() implies 0 <= #[trigger] all[k] < n by {
            if k < rest.len() {
                assert(all[k] == rest[k]);
            }
        }
    }
}

pub proof fn lemma_peer_chain_in_range(peers: Seq<DirInfo>, self_index: usize, k: int)
    requires
        0 <= k < peer_chain(peers, self_index).len(),
    ensures
        0 <= peer_chain(peers, self_index)[k] < peers.len(),
{
    let n = peers.len() as int;
    lemma_at_distance_in_range(peers, self_index, 1, n);
    lemma_at_distance_in_range(peers, self_index, 2, n);
    let a = at_distance(peers, self_index, 1, n);
    if k >= a.len() {
        assert(peer_chain(peers, self_index)[k] == at_distance(peers, self_index, 2, n)[k - a.len()]);
    }
}

/// The order peers are drawn in: nearest first, and for equal distance in
/// their sibling order (a stable sort by distance).
pub open spec fn peer_chain(peers: Seq<DirInfo>, self_index: usize) -> Seq<int> {
    at_distance(peers, self_index, 1, peers.len() as int) + at_distance(
        peers,
        self_index,
        2,
        peers.len() as int,
    )
}

pub open spec fn sgn(v: int) -> int {
    if v > 0 {
        1
    } else if v < 0 {
        -1
    } else {
        0
    }
}

/// Centre of a peer room at `offset` slots from the current room.
pub open spec fn peer_center(anchor: Pos, offset: int) -> Pos {
    shift(anchor, 0, offset * ROW_SPACING, 0)
}

/// The shapes of one peer reached from the room centred at `from`.
pub open spec fn one_peer_shapes(anchor: Pos, from: Pos, offset: int) -> Seq<Shape> {
    let dir = sgn(offset);
    let c = peer_center(anchor, offset);
    seq![
        room_shape(c, wall_peer()),
        Shape::Doorway { center: from, axis: 1, sign: dir as i32, along: 0, width: CORRIDOR_WIDTH },
        Shape::Doorway { center: c, axis: 1, sign: -dir as i32, along: 0, width: CORRIDOR_WIDTH },
        Shape::Tunnel {
            from: shift(from, 0, dir * 10, DOOR_Z as int),
            to: shift(c, 0, -dir * 10, DOOR_Z as int),
            wall: wall_peer(),
        },
    ]
}

/// Shapes of the peers at chain positions `k..`, where the last rooms drawn
/// northwards and southwards are `north` and `south`. Each peer connects to
/// the previous room in its own direction.
pub open spec fn peer_shapes(
    anchor: Pos,
    peers: Seq<DirInfo>,
    self_index: usize,
    chain: Seq<int>,
    k: int,
    north: Pos,
    south: Pos,
) -> Seq<Shape>
    decreases chain.len() - k,
{
    if k >= chain.len() || k < 0 {
        Seq::empty()
    } else {
        let off = peer_offset(peers[chain[k]], self_index);
        let from = if off >= 0 {
            north
        } else {
            south
        };
        let c = peer_center(anchor, off);
        one_peer_shapes(anchor, from, off) + peer_shapes(
            anchor,
            peers,
            self_index,
            chain,
            k + 1,
            if off >= 0 {
                c
            } else {
                north
            },
            if off >= 0 {
                south
            } else {
                c
            },
        )
    }
}

/// Centre of the child room on row `row`.
pub open spec fn child_center(anchor: Pos, row: int) -> Pos {
    shift(anchor, (ROOM_HALF_X * 2 + CORRIDOR_LEN) as int, row * ROW_SPACING, -LEVEL_SHIFT as int)
}

pub open spec fn one_child_shapes(anchor: Pos, row: int) -> Seq<Shape> {
    let c = child_center(anchor, row);
    seq![
        room_shape(c, wall_child()),
        Shape::Doorway {
            center: anchor,
            axis: 0,
            sign: 1,
            along: (row * ROW_SPACING) as i32,
            width: CORRIDOR_WIDTH,
        },
        Shape::Doorway { center: c, axis: 0, sign: -1i32, along: 0, width: CORRIDOR_WIDTH },
        Shape::Tunnel {
            from: shift(anchor, 10, row * ROW_SPACING, DOOR_Z as int),
            to: shift(c, -10, 0, DOOR_Z as int),
            wall: wall_child(),
        },
    ]
}

/// Shapes of the children from position `k` on; each child sits on the row
/// of its index.
pub open spec fn child_shapes(anchor: Pos, children: Seq<DirInfo>, k: int) -> Seq<Shape>
    decreases children.len() - k,
{
    if k >= children.len() || k < 0 {
        Seq::empty()
    } else {
        one_child_shapes(anchor, children[k].index as int) + child_shapes(anchor, children, k + 1)
    }
}

/// Every drawing step of the layout, in order: the safety net, the current
/// room, the parent (if any), the peers, the children.
pub open spec fn layout_shapes(
    anchor: Pos,
    has_parent: bool,
    self_index: usize,
    peers: Seq<DirInfo>,
    children: Seq<DirInfo>,
) -> Seq<Shape> {
    seq![net_shape(anchor), room_shape(anchor, wall_current())] + (if has_parent {
        parent_shapes(anchor)
    } else {
        Seq::empty()
    }) + peer_shapes(anchor, peers, self_index, peer_chain(peers, self_index), 0, anchor, anchor)
        + child_shapes(anchor, children, 0)
}

/// Peers as siblings_window gives them at radius `WINDOW_RADIUS`: each one or
/// two slots away from the current directory.
pub open spec fn peers_ok(peers: Seq<DirInfo>, self_index: usize) -> bool {
    forall|i: int|
        0 <= i < peers.len() ==> {
            let off = peer_offset(#[trigger] peers[i], self_index);
            1 <= off <= 2 || -2 <= off <= -1
        }
}

/// Children as children_window gives them for the first rows: on rows
/// `0..=2 * WINDOW_RADIUS`.
pub open spec fn children_ok(children: Seq<DirInfo>) -> bool {
    forall|i: int| 0 <= i < children.len() ==> #[trigger] children[i].index <= 4
}

/// A region a player can walk into to navigate to another directory.
#[derive(Debug)]
pub struct TriggerZone {
    pub min: Pos,
    pub max: Pos,
    pub target: Vec<u8>,
}

pub open spec fn zone_view(z: TriggerZone) -> (Pos, Pos, Seq<u8>) {
    (z.min, z.max, z.target@)
}

impl TriggerZone {
    /// Whether `p` lies in the zone (bounds inclusive).
    pub fn contains(&self, p: Pos) -> (r: bool)
        ensures
            r == in_box(self.min, self.max, p),
    {
        self.min.x <= p.x && p.x <= self.max.x && self.min.y <= p.y && p.y <= self.max.y
            && self.min.z <= p.z && p.z <= self.max.z
    }
}

pub open spec fn parent_zone(anchor: Pos, parent: Seq<u8>) -> (Pos, Pos, Seq<u8>) {
    (
        shift(anchor, -10 - CORRIDOR_LEN / 2, -1, DOOR_Z - 1),
        shift(anchor, -11, 1, DOOR_Z + 2),
        parent,
    )
}

pub open spec fn peer_zones(
    anchor: Pos,
    peers: Seq<DirInfo>,
    self_index: usize,
    chain: Seq<int>,
    k: int,
    north: Pos,
    south: Pos,
) -> Seq<(Pos, Pos, Seq<u8>)>
    decreases chain.len() - k,
{
    if k >= chain.len() || k < 0 {
        Seq::empty()
    } else {
        let d = peers[chain[k]];
        let off = peer_offset(d, self_index);
        let dir = sgn(off);
        let from = if off >= 0 {
            north
        } else {
            south
        };
        let c = peer_center(anchor, off);
        seq![
            (
                shift(from, -1, if dir > 0 { 10 } else { -(10 + CORRIDOR_LEN) }, DOOR_Z - 1),
                shift(from, 1, if dir > 0 { 10 + CORRIDOR_LEN } else { -10 }, DOOR_Z + 2),
                d.full_path@,
            ),
        ] + peer_zones(
            anchor,
            peers,
            self_index,
            chain,
            k + 1,
            if off >= 0 {
                c
            } else {
                north
            },
            if off >= 0 {
                south
            } else {
                c
            },
        )
    }
}

pub open spec fn child_zones(anchor: Pos, children: Seq<DirInfo>, k: int) -> Seq<
    (Pos, Pos, Seq<u8>),
>
    decreases children.len() - k,
{
    if k >= children.len() || k < 0 {
        Seq::empty()
    } else {
        let row = children[k].index as int;
        seq![
            (
                shift(anchor, 11, row * ROW_SPACING - 1, DOOR_Z - 1),
                shift(anchor, 10 + CORRIDOR_LEN / 2, row * ROW_SPACING + 1, DOOR_Z + 2),
                children[k].full_path@,
            ),
        ] + child_zones(anchor, children, k + 1)
    }
}

/// The doorway zones of the layout: the parent's, then the peers' (in drawing
/// order), then the children's.
pub open spec fn layout_zones(
    anchor: Pos,
    parent: Option<Seq<u8>>,
    self_index: usize,
    peers: Seq<DirInfo>,
    children: Seq<DirInfo>,
) -> Seq<(Pos, Pos, Seq<u8>)> {
    (match parent {
        Some(p) => seq![parent_zone(anchor, p)],
        None => Seq::empty(),
    }) + peer_zones(anchor, peers, self_index, peer_chain(peers, self_index), 0, anchor, anchor)
        + child_zones(anchor, children, 0)
}

fn at(p: Pos, dx: i32, dy: i32, dz: i32) -> (r: Pos)
    requires
        i32::MIN <= p.x + dx <= i32::MAX,
        i32::MIN <= p.y + dy <= i32::MAX,
        i32::MIN <= p.z + dz <= i32::MAX,
    ensures
        r == shift(p, dx as int, dy as int, dz as int),
{
    Pos { x: p.x + dx, y: p.y + dy, z: p.z + dz }
}

/// Invariant of the drawing loop: the writes so far leave, at every
/// position, `shapes` painted over what was there before.
pub open spec fn drawn(ws: Seq<BlockWrite>, w0: Seq<BlockWrite>, shapes: Seq<Shape>) -> bool {
    forall|p: Pos|
        #![trigger final_block(ws, p)]
        final_block(ws, p) == overlay(shapes_block(shapes, p), final_block(w0, p))
}

/// Draw one shape.
fn draw_shape(ws: &mut Vec<BlockWrite>, s: Shape, Ghost(w0): Ghost<Seq<BlockWrite>>, Ghost(done): Ghost<Seq<Shape>>)
    requires
        drawn(old(ws)@, w0, done),
        shape_ok(s),
    ensures
        drawn(final(ws)@, w0, done.push(s)),
{
    let ghost before = ws@;
    match s {
        Shape::Boxed { lo, hi, fill } => fill_box(ws, lo, hi, fill),
        Shape::Doorway { center, axis, sign, along, width } => punch_doorway(
            ws,
            center,
            axis,
            sign,
            along,
            width,
        ),
        Shape::Tunnel { from, to, wall } => carve_corridor(ws, from, to, wall),
    }
    proof {
        assert forall|p: Pos| #![trigger final_block(ws@, p)]
            final_block(ws@, p) == overlay(shapes_block(done.push(s), p), final_block(w0, p)) by {
            lemma_shapes_block_push(done, s, p);
            assert(final_block(before, p) == overlay(shapes_block(done, p), final_block(w0, p)));
        }
    }
}

/// Shapes whose every coordinate is representable.
pub open spec fn shape_ok(s: Shape) -> bool {
    match s {
        Shape::Boxed { .. } => true,
        Shape::Doorway { center, axis, sign, along, width } => {
            &&& sign == 1 || sign == -1
            &&& 0 <= width <= 8
            &&& i32::MIN + 10 <= center.x <= i32::MAX - 10
            &&& i32::MIN + 10 <= center.y <= i32::MAX - 10
            &&& i32::MIN + 5 <= center.z <= i32::MAX - 5
            &&& i32::MIN + 8 <= door_mid(center, axis, along) <= i32::MAX - 8
        },
        Shape::Tunnel { from, to, .. } => corridor_ok(from, to),
    }
}

/// Punch a rectangular doorway through one wall of the room centred at
/// `center`: `axis` 0 is the pair of x-facing walls, 1 the y-facing ones;
/// `sign` picks the wall of the pair; `along` shifts the opening along the
/// wall. The opening is exactly `width` blocks wide, starting `width / 2`
/// before the opening's middle, and `DOOR_HEIGHT` tall, with a light above
/// its middle.
fn punch_doorway(
    ws: &mut Vec<BlockWrite>,
    center: Pos,
    axis: usize,
    sign: i32,
    along: i32,
    width: i32,
)
    requires
        shape_ok(Shape::Doorway { center, axis, sign, along, width }),
    ensures
        forall|p: Pos|
            #![trigger final_block(final(ws)@, p)]
            final_block(final(ws)@, p) == overlay(
                door_block(center, axis, sign, along, width, p),
                final_block(old(ws)@, p),
            ),
{
    let hw = width / 2;
    let base = center.z + DOOR_Z;
    let wallc = if axis == 0 {
        if sign > 0 {
            center.x + 10
        } else {
            center.x - 10
        }
    } else {
        if sign > 0 {
            center.y + 10
        } else {
            center.y - 10
        }
    };
    let mid = if axis == 0 {
        center.y + along
    } else {
        center.x + along
    };
    let (lo, hi, light) = if axis == 0 {
        (
            Pos { x: wallc, y: mid - hw, z: base },
            Pos { x: wallc, y: mid - hw + width - 1, z: base + DOOR_HEIGHT - 1 },
            Pos { x: wallc, y: mid, z: base + DOOR_HEIGHT },
        )
    } else {
        (
            Pos { x: mid - hw, y: wallc, z: base },
            Pos { x: mid - hw + width - 1, y: wallc, z: base + DOOR_HEIGHT - 1 },
            Pos { x: mid, y: wallc, z: base + DOOR_HEIGHT },
        )
    };
    let ghost w0 = ws@;
    fill_box(ws, lo, hi, Fill::Solid(air_block()));
    let ghost w1 = ws@;
    put(ws, light, door_light());
    proof {
        assert forall|p: Pos| #![trigger final_block(ws@, p)]
            final_block(ws@, p) == overlay(
                door_block(center, axis, sign, along, width, p),
                final_block(w0, p),
            ) by {
            assert(final_block(w1, p) == overlay(fill_block(Fill::Solid(air()), lo, hi, p), final_block(w0, p)));
        }
    }
}


/// The box that `clear_layout` blanks and the safety net spans: it covers
/// every room, doorway and corridor the layout can draw.
pub fn layout_bounds(anchor: Pos) -> (r: (Pos, Pos))
    requires
        anchor_ok(anchor),
    ensures
        r.0 == bounds_lo(anchor),
        r.1 == bounds_hi(anchor),
{
    (at(anchor, -REACH_X, -REACH_Y, -REACH_Z), at(anchor, REACH_X, REACH_Y, REACH_Z))
}

/// Blank the whole possible layout footprint at `anchor` back to air.
pub fn clear_layout(ws: &mut Vec<BlockWrite>, anchor: Pos)
    requires
        anchor_ok(anchor),
    ensures
        forall|p: Pos|
            #![trigger final_block(final(ws)@, p)]
            final_block(final(ws)@, p) == overlay(
                fill_block(Fill::Solid(air()), bounds_lo(anchor), bounds_hi(anchor), p),
                final_block(old(ws)@, p),
            ),
{
    let (lo, hi) = layout_bounds(anchor);
    fill_box(ws, lo, hi, Fill::Solid(air_block()));
}

fn wall_current_exec() -> (b: Block)
    ensures
        b == wall_current(),
{
    Block { kind: BlockKind::Rock, r: 225, g: 225, b: 210 }
}

fn wall_parent_exec() -> (b: Block)
    ensures
        b == wall_parent(),
{
    Block { kind: BlockKind::Rock, r: 80, g: 200, b: 210 }
}

fn wall_peer_exec() -> (b: Block)
    ensures
        b == wall_peer(),
{
    Block { kind: BlockKind::Rock, r: 140, g: 140, b: 140 }
}

fn wall_child_exec() -> (b: Block)
    ensures
        b == wall_child(),
{
    Block { kind: BlockKind::Rock, r: 90, g: 190, b: 110 }
}

fn room(center: Pos, wall: Block) -> (s: Shape)
    requires
        i32::MIN + 10 <= center.x <= i32::MAX - 10,
        i32::MIN + 10 <= center.y <= i32::MAX - 10,
        i32::MIN + 10 <= center.z <= i32::MAX - 10,
    ensures
        s == room_shape(center, wall),
{
    Shape::Boxed { lo: at(center, -10, -10, -6), hi: at(center, 10, 10, 6), fill: Fill::Shell(wall) }
}

/// Signed distance of a peer from the current directory's slot.
fn offset_of(d: &DirInfo, self_index: usize) -> (off: i32)
    requires
        1 <= peer_offset(*d, self_index) <= 2 || -2 <= peer_offset(*d, self_index) <= -1,
    ensures
        off == peer_offset(*d, self_index),
{
    if d.index >= self_index {
        (d.index - self_index) as i32
    } else {
        -((self_index - d.index) as i32)
    }
}

/// The peers of the chain at distances below `dist`.
pub open spec fn chain_before(peers: Seq<DirInfo>, self_index: usize, dist: int) -> Seq<int> {
    if dist <= 1 {
        Seq::empty()
    } else if dist == 2 {
        at_distance(peers, self_index, 1, peers.len() as int)
    } else {
        peer_chain(peers, self_index)
    }
}

pub open spec fn chain_partial(peers: Seq<DirInfo>, self_index: usize, dist: int, j: int) -> Seq<int> {
    chain_before(peers, self_index, dist) + at_distance(peers, self_index, dist, j)
}

/// Positions of the peers in drawing order (see `peer_chain`).
fn peer_chain_exec(peers: &Vec<DirInfo>, self_index: usize) -> (chain: Vec<usize>)
    requires
        peers_ok(peers@, self_index),
    ensures
        chain@.len() == peer_chain(peers@, self_index).len(),
        forall|k: int| 0 <= k < chain@.len() ==> chain@[k] as int == #[trigger] peer_chain(peers@, self_index)[k],
{
    let mut chain: Vec<usize> = Vec::new();
    let mut dist: i32 = 1;
    while dist <= 2
        invariant
            1 <= dist <= 3,
            peers_ok(peers@, self_index),
            chain@.len() == chain_before(peers@, self_index, dist as int).len(),
            forall|k: int| 0 <= k < chain@.len() ==> chain@[k] as int == #[trigger] chain_before(peers@, self_index, dist as int)[k],
        decreases 3 - dist,
    {
        let mut j: usize = 0;
        proof {
            assert(chain_partial(peers@, self_index, dist as int, 0) =~= chain_before(peers@, self_index, dist as int));
        }
        while j < peers.len()
            invariant
                1 <= dist <= 2,
                j <= peers@.len(),
                peers_ok(peers@, self_index),
                chain@.len() == chain_partial(peers@, self_index, dist as int, j as int).len(),
                forall|k: int| 0 <= k < chain@.len() ==> chain@[k] as int == #[trigger] chain_partial(peers@, self_index, dist as int, j as int)[k],
            decreases peers@.len() - j,
        {
            let off = offset_of(&peers[j], self_index);
            if off == dist || off == -dist {
                chain.push(j);
            }
            proof {
                let pre = chain_before(peers@, self_index, dist as int);
                let a = at_distance(peers@, self_index, dist as int, j as int);
                let b = at_distance(peers@, self_index, dist as int, j + 1);
                if off == dist || off == -dist {
                    assert(b == a.push(j as int));
                    assert(chain_partial(peers@, self_index, dist as int, j + 1) =~= chain_partial(peers@, self_index, dist as int, j as int).push(j as int));
                } else {
                    assert(b == a);
                }
            }
            j = j + 1;
        }
        proof {
            assert(chain_partial(peers@, self_index, dist as int, peers@.len() as int) =~= chain_before(peers@, self_index, dist + 1));
        }
        dist = dist + 1;
    }
    chain
}

fn zone(min: Pos, max: Pos, target: &Vec<u8>) -> (z: TriggerZone)
    ensures
        zone_view(z) == (min, max, target@),
{
    TriggerZone { min, max, target: copy_bytes(target) }
}

/// Draw the layout for a directory at `anchor`: the safety net, the current
/// room, the parent room (when `parent` is given) west and up, the peers
/// (`peers`, the window of siblings around the directory's own index
/// `self_index`) north and south, each chained to the previous room in its
/// direction, and the children (`children`) east and down on the rows of
/// their indices; each joined to its neighbour by doorways and a corridor.
/// Returns the doorway trigger zones. Does not clear the area first (see
/// `clear_layout`).
pub fn render_layout(
    ws: &mut Vec<BlockWrite>,
    anchor: Pos,
    parent: &Option<Vec<u8>>,
    self_index: usize,
    peers: &Vec<DirInfo>,
    children: &Vec<DirInfo>,
) -> (zones: Vec<TriggerZone>)
    requires
        anchor_ok(anchor),
        peers_ok(peers@, self_index),
        children_ok(children@),
    ensures
        drawn(final(ws)@, old(ws)@, layout_shapes(anchor, parent is Some, self_index, peers@, children@)),
        zones@.map_values(|z: TriggerZone| zone_view(z)) == layout_zones(
            anchor,
            match parent {
                Some(p) => Some(p@),
                None => None,
            },
            self_index,
            peers@,
            children@,
        ),
{
    let ghost w0 = ws@;
    let ghost mut done: Seq<Shape> = Seq::empty();
    let ghost pview: Option<Seq<u8>> = match parent {
        Some(p) => Some(p@),
        None => None,
    };
    let mut zones: Vec<TriggerZone> = Vec::new();
    proof {
        assert forall|p: Pos| #![trigger final_block(ws@, p)]
            final_block(ws@, p) == overlay(shapes_block(done, p), final_block(w0, p)) by {}
    }
    // Safety net well below the whole layout.
    let (lo, hi) = layout_bounds(anchor);
    let net = Shape::Boxed {
        lo: Pos { x: lo.x, y: lo.y, z: lo.z - 5 },
        hi: Pos { x: hi.x, y: hi.y, z: lo.z - 5 },
        fill: Fill::Solid(floor()),
    };
    draw_shape(ws, net, Ghost(w0), Ghost(done));
    proof { done = done.push(net); }
    let cur = room(anchor, wall_current_exec());
    draw_shape(ws, cur, Ghost(w0), Ghost(done));
    proof { done = done.push(cur); }
    let ghost head = done;
    assert(head =~= seq![net_shape(anchor), room_shape(anchor, wall_current())]);

    // Parent: west and up.
    if let Some(par) = parent {
        let c = at(anchor, -(ROOM_HALF_X * 2 + CORRIDOR_LEN), 0, LEVEL_SHIFT);
        let s1 = room(c, wall_parent_exec());
        draw_shape(ws, s1, Ghost(w0), Ghost(done));
        proof { done = done.push(s1); }
        let s2 = Shape::Doorway { center: anchor, axis: 0, sign: -1, along: 0, width: CORRIDOR_WIDTH };
        draw_shape(ws, s2, Ghost(w0), Ghost(done));
        proof { done = done.push(s2); }
        let s3 = Shape::Doorway { center: c, axis: 0, sign: 1, along: 0, width: CORRIDOR_WIDTH };
        draw_shape(ws, s3, Ghost(w0), Ghost(done));
        proof { done = done.push(s3); }
        if DRAW_CORRIDORS {
            let s4 = Shape::Tunnel {
                from: at(anchor, -ROOM_HALF_X, 0, DOOR_Z),
                to: at(c, ROOM_HALF_X, 0, DOOR_Z),
                wall: wall_parent_exec(),
            };
            draw_shape(ws, s4, Ghost(w0), Ghost(done));
            proof { done = done.push(s4); }
        }
        assert(done =~= head + parent_shapes(anchor));
        zones.push(zone(
            at(anchor, -ROOM_HALF_X - CORRIDOR_LEN / 2, -1, DOOR_Z - 1),
            at(anchor, -ROOM_HALF_X - 1, 1, DOOR_Z + 2),
            par,
        ));
    } else {
        assert(done =~= head + Seq::<Shape>::empty());
    }
    let ghost base = done;
    let ghost zbase = zones@.map_values(|z: TriggerZone| zone_view(z));
    assert(zbase =~= match pview {
        Some(p) => seq![parent_zone(anchor, p)],
        None => Seq::<(Pos, Pos, Seq<u8>)>::empty(),
    });

    // Peers: north (+) and south (-), nearest first, each chained to the
    // previous room in its direction.
    let chain = peer_chain_exec(peers, self_index);
    let ghost chain_s = peer_chain(peers@, self_index);
    let mut north = anchor;
    let mut south = anchor;
    let ghost mut mn: int = 0;
    let ghost mut ms: int = 0;
    let mut k: usize = 0;
    while k < chain.len()
        invariant
            anchor_ok(anchor),
            peers_ok(peers@, self_index),
            chain@.len() == chain_s.len(),
            chain_s == peer_chain(peers@, self_index),
            forall|i: int| 0 <= i < chain@.len() ==> chain@[i] as int == #[trigger] chain_s[i],
            k <= chain@.len(),
            -2 <= mn <= 2,
            -2 <= ms <= 2,
            north == peer_center(anchor, mn),
            south == peer_center(anchor, ms),
            drawn(ws@, w0, done),
            done + peer_shapes(anchor, peers@, self_index, chain_s, k as int, north, south)
                == base + peer_shapes(anchor, peers@, self_index, chain_s, 0, anchor, anchor),
            zones@.map_values(|z: TriggerZone| zone_view(z)) + peer_zones(anchor, peers@, self_index, chain_s, k as int, north, south)
                == zbase + peer_zones(anchor, peers@, self_index, chain_s, 0, anchor, anchor),
        decreases chain@.len() - k,
    {
        let j = chain[k];
        proof {
            assert(chain_s[k as int] == j as int);
            lemma_peer_chain_in_range(peers@, self_index, k as int);
        }
        let peer = &peers[j];
        let off = offset_of(peer, self_index);
        let dir: i32 = if off > 0 { 1 } else { -1 };
        let from = if off >= 0 { north } else { south };
        let c = at(anchor, 0, off * ROW_SPACING, 0);
        let ghost done0 = done;
        let ghost zones0 = zones@.map_values(|z: TriggerZone| zone_view(z));
        let s1 = room(c, wall_peer_exec());
        draw_shape(ws, s1, Ghost(w0), Ghost(done));
        proof { done = done.push(s1); }
        let s2 = Shape::Doorway { center: from, axis: 1, sign: dir, along: 0, width: CORRIDOR_WIDTH };
        draw_shape(ws, s2, Ghost(w0), Ghost(done));
        proof { done = done.push(s2); }
        let s3 = Shape::Doorway { center: c, axis: 1, sign: -dir, along: 0, width: CORRIDOR_WIDTH };
        draw_shape(ws, s3, Ghost(w0), Ghost(done));
        proof { done = done.push(s3); }
        if DRAW_CORRIDORS {
            let s4 = Shape::Tunnel {
                from: at(from, 0, dir * ROOM_HALF_Y, DOOR_Z),
                to: at(c, 0, -dir * ROOM_HALF_Y, DOOR_Z),
                wall: wall_peer_exec(),
            };
            draw_shape(ws, s4, Ghost(w0), Ghost(done));
            proof { done = done.push(s4); }
        }
        let (near, far): (i32, i32) = if dir > 0 {
            (ROOM_HALF_Y, ROOM_HALF_Y + CORRIDOR_LEN)
        } else {
            (-(ROOM_HALF_Y + CORRIDOR_LEN), -ROOM_HALF_Y)
        };
        zones.push(zone(at(from, -1, near, DOOR_Z - 1), at(from, 1, far, DOOR_Z + 2), &peer.full_path));
        proof {
            assert(done =~= done0 + one_peer_shapes(anchor, from, off as int));
        }
        if off >= 0 {
            north = c;
            proof { mn = off as int; }
        } else {
            south = c;
            proof { ms = off as int; }
        }
        k = k + 1;
    }
    let ghost pdone = done;
    let ghost pz = zones@.map_values(|z: TriggerZone| zone_view(z));

    // Children: east and down, one row per child index.
    let mut k: usize = 0;
    while k < children.len()
        invariant
            anchor_ok(anchor),
            children_ok(children@),
            k <= children@.len(),
            drawn(ws@, w0, done),
            done + child_shapes(anchor, children@, k as int) == pdone + child_shapes(anchor, children@, 0),
            zones@.map_values(|z: TriggerZone| zone_view(z)) + child_zones(anchor, children@, k as int)
                == pz + child_zones(anchor, children@, 0),
        decreases children@.len() - k,
    {
        let child = &children[k];
        let row = child.index as i32;
        let c = at(anchor, ROOM_HALF_X * 2 + CORRIDOR_LEN, row * ROW_SPACING, -LEVEL_SHIFT);
        let ghost done0 = done;
        let s1 = room(c, wall_child_exec());
        draw_shape(ws, s1, Ghost(w0), Ghost(done));
        proof { done = done.push(s1); }
        let s2 = Shape::Doorway { center: anchor, axis: 0, sign: 1, along: row * ROW_SPACING, width: CORRIDOR_WIDTH };
        draw_shape(ws, s2, Ghost(w0), Ghost(done));
        proof { done = done.push(s2); }
        let s3 = Shape::Doorway { center: c, axis: 0, sign: -1, along: 0, width: CORRIDOR_WIDTH };
        draw_shape(ws, s3, Ghost(w0), Ghost(done));
        proof { done = done.push(s3); }
        if DRAW_CORRIDORS {
            let s4 = Shape::Tunnel {
                from: at(anchor, ROOM_HALF_X, row * ROW_SPACING, DOOR_Z),
                to: at(c, -ROOM_HALF_X, 0, DOOR_Z),
                wall: wall_child_exec(),
            };
            draw_shape(ws, s4, Ghost(w0), Ghost(done));
            proof { done = done.push(s4); }
        }
        zones.push(zone(
            at(anchor, ROOM_HALF_X + 1, row * ROW_SPACING - 1, DOOR_Z - 1),
            at(anchor, ROOM_HALF_X + CORRIDOR_LEN / 2, row * ROW_SPACING + 1, DOOR_Z + 2),
            &child.full_path,
        ));
        proof {
            assert(done =~= done0 + one_child_shapes(anchor, row as int));
        }
        k = k + 1;
    }
    zones
}

} // verus!
