//! Carving a walkable, enclosed corridor between two doorways.
use crate::cellmap::{
    cell_contents, cells_insert, cells_into_writes, cells_new, cells_or_insert, key_of, CellMap,
};
use crate::geometry::{
    air, air_block, final_block, lemma_final_block_append, lemma_final_block_distinct, overlay, pos,
    rock, Block, BlockKind, BlockWrite, Pos,
};
use vstd::arithmetic::div_mod::{lemma_div_is_ordered, lemma_fundamental_div_mod_converse};
use vstd::prelude::*;

verus! {

/// Width (in blocks) of a corridor tunnel and of a doorway.
pub const CORRIDOR_WIDTH: i32 = 4;

/// Interior headroom of a corridor tunnel (blocks of air above its floor).
pub const CORRIDOR_HEADROOM: i32 = 4;

/// Floor of rooms and corridors.
pub open spec fn floor_spec() -> Block {
    rock(110, 110, 110)
}

/// The self-lit marker placed above every doorway threshold.
pub open spec fn door_light_spec() -> Block {
    Block { kind: BlockKind::GlowingRock, r: 255, g: 200, b: 110 }
}

pub fn floor() -> (b: Block)
    ensures
        b == floor_spec(),
{
    Block { kind: BlockKind::Rock, r: 110, g: 110, b: 110 }
}

pub fn door_light() -> (b: Block)
    ensures
        b == door_light_spec(),
{
    Block { kind: BlockKind::GlowingRock, r: 255, g: 200, b: 110 }
}

pub open spec fn abs(v: int) -> int {
    if v < 0 {
        -v
    } else {
        v
    }
}

/// `num / den` rounded to the nearest integer, halves away from zero.
pub open spec fn round_ratio(num: int, den: int) -> int {
    if num >= 0 {
        (2 * num + den) / (2 * den)
    } else {
        -((-2 * num + den) / (2 * den))
    }
}

/// A corridor runs along exactly one horizontal axis.
pub open spec fn straight(from: Pos, to: Pos) -> bool {
    (from.x != to.x) != (from.y != to.y)
}

/// Number of one-block steps from one end to the other.
pub open spec fn corridor_steps(from: Pos, to: Pos) -> int {
    if from.x != to.x {
        abs(to.x - from.x)
    } else {
        abs(to.y - from.y)
    }
}

/// Distance of `p` from `from` along the direction of travel.
pub open spec fn along(from: Pos, to: Pos, p: Pos) -> int {
    if from.x != to.x {
        if to.x > from.x {
            p.x - from.x
        } else {
            from.x - p.x
        }
    } else {
        if to.y > from.y {
            p.y - from.y
        } else {
            from.y - p.y
        }
    }
}

/// Offset of `p` from the corridor's centre line, across the direction of travel.
pub open spec fn across(from: Pos, to: Pos, p: Pos) -> int {
    if from.x != to.x {
        p.y - from.y
    } else {
        p.x - from.x
    }
}

/// Floor-level height of step `i`: linear between the two ends' heights.
pub open spec fn ramp_height(from: Pos, to: Pos, i: int) -> int {
    round_ratio(from.z * corridor_steps(from, to) + (to.z - from.z) * i, corridor_steps(from, to))
}

/// Whether `p` belongs to the cross-section of some step of the corridor.
pub open spec fn in_corridor(from: Pos, to: Pos, p: Pos) -> bool {
    &&& 0 <= along(from, to, p) <= corridor_steps(from, to)
    &&& -3 <= across(from, to, p) <= 3
    &&& -1 <= p.z - ramp_height(from, to, along(from, to, p)) <= CORRIDOR_HEADROOM
}

/// Block of the cross-section cell at step `t` (of `s`), offset `w` across and
/// `dz` above the step's floor level; `lit` says whether the doorway marker
/// has been placed yet.
pub open spec fn corridor_cell(wall: Block, t: int, s: int, w: int, dz: int, lit: bool) -> Block {
    if -2 <= w <= 2 && 0 <= dz < CORRIDOR_HEADROOM {
        air()
    } else if lit && (t == 0 || t == s) && w == 0 && dz == CORRIDOR_HEADROOM {
        door_light_spec()
    } else if -2 <= w <= 2 && dz == -1 {
        floor_spec()
    } else {
        wall
    }
}

/// The block the corridor from `from` to `to` puts at `p`, if any: air in
/// the walkable interior, a floor under it, walls at both sides and a ceiling
/// above, with a doorway light in the ceiling over each end.
pub open spec fn corridor_block(from: Pos, to: Pos, wall: Block, p: Pos) -> Option<Block> {
    if in_corridor(from, to, p) {
        let t = along(from, to, p);
        Some(
            corridor_cell(
                wall,
                t,
                corridor_steps(from, to),
                across(from, to, p),
                p.z - ramp_height(from, to, t),
                true,
            ),
        )
    } else {
        None
    }
}

/// A straight corridor whose ends lie far enough from the ends of the `i32`
/// range that every cell around them (walls, floor, headroom) is
/// representable.
pub open spec fn corridor_ok(from: Pos, to: Pos) -> bool {
    &&& straight(from, to)
    &&& i32::MIN + 8 <= from.x <= i32::MAX - 8
    &&& i32::MIN + 8 <= from.y <= i32::MAX - 8
    &&& i32::MIN + 8 <= from.z <= i32::MAX - 8
    &&& i32::MIN + 8 <= to.x <= i32::MAX - 8
    &&& i32::MIN + 8 <= to.y <= i32::MAX - 8
    &&& i32::MIN + 8 <= to.z <= i32::MAX - 8
}

pub proof fn lemma_round_ratio_exact(c: int, s: int)
    requires
        s > 0,
    ensures
        round_ratio(c * s, s) == c,
{
    if c >= 0 {
        assert(c * s >= 0) by (nonlinear_arith)
            requires
                c >= 0,
                s > 0,
        ;
        assert(2 * (c * s) + s == c * (2 * s) + s) by (nonlinear_arith);
        lemma_fundamental_div_mod_converse(2 * (c * s) + s, 2 * s, c, s);
    } else {
        assert(c * s < 0) by (nonlinear_arith)
            requires
                c < 0,
                s > 0,
        ;
        assert(-2 * (c * s) + s == (-c) * (2 * s) + s) by (nonlinear_arith);
        lemma_fundamental_div_mod_converse(-2 * (c * s) + s, 2 * s, -c, s);
    }
}

proof fn lemma_round_ratio_monotone(a: int, b: int, s: int)
    requires
        s > 0,
        a <= b,
    ensures
        round_ratio(a, s) <= round_ratio(b, s),
{
    if a >= 0 {
        lemma_div_is_ordered(2 * a + s, 2 * b + s, 2 * s);
    } else if b < 0 {
        lemma_div_is_ordered(-2 * b + s, -2 * a + s, 2 * s);
    } else {
        assert((-2 * a + s) / (2 * s) >= 0) by {
            lemma_div_is_ordered(0, -2 * a + s, 2 * s);
        }
        assert((2 * b + s) / (2 * s) >= 0) by {
            lemma_div_is_ordered(0, 2 * b + s, 2 * s);
        }
    }
}

/// Every step's floor level lies between the two ends' heights.
proof fn lemma_ramp_between(from: Pos, to: Pos, i: int)
    requires
        straight(from, to),
        0 <= i <= corridor_steps(from, to),
    ensures
        ramp_height(from, to, i) >= if from.z <= to.z {
            from.z as int
        } else {
            to.z as int
        },
        ramp_height(from, to, i) <= if from.z <= to.z {
            to.z as int
        } else {
            from.z as int
        },
{
    let s = corridor_steps(from, to);
    let d = to.z - from.z;
    let num = from.z * s + d * i;
    assert(s > 0);
    if d >= 0 {
        assert(from.z * s <= num <= to.z * s) by (nonlinear_arith)
            requires
                num == from.z * s + d * i,
                d == to.z - from.z,
                d >= 0,
                0 <= i <= s,
        ;
    } else {
        assert(to.z * s <= num <= from.z * s) by (nonlinear_arith)
            requires
                num == from.z * s + d * i,
                d == to.z - from.z,
                d < 0,
                0 <= i <= s,
        ;
    }
    lemma_round_ratio_exact(from.z as int, s);
    lemma_round_ratio_exact(to.z as int, s);
    if d >= 0 {
        lemma_round_ratio_monotone(from.z * s, num, s);
        lemma_round_ratio_monotone(num, to.z * s, s);
    } else {
        lemma_round_ratio_monotone(to.z * s, num, s);
        lemma_round_ratio_monotone(num, from.z * s, s);
    }
}

pub open spec fn min2(a: int, b: int) -> int {
    if a <= b {
        a
    } else {
        b
    }
}

pub open spec fn max2(a: int, b: int) -> int {
    if a >= b {
        a
    } else {
        b
    }
}

/// Every cell a corridor writes lies in the box spanned by its two ends,
/// widened by its side walls (3 either side), its floor (1 below) and its
/// headroom and ceiling (`CORRIDOR_HEADROOM` above).
pub proof fn lemma_corridor_in_box(from: Pos, to: Pos, wall: Block, p: Pos)
    requires
        straight(from, to),
        corridor_block(from, to, wall, p) is Some,
    ensures
        min2(from.x as int, to.x as int) - 3 <= p.x <= max2(from.x as int, to.x as int) + 3,
        min2(from.y as int, to.y as int) - 3 <= p.y <= max2(from.y as int, to.y as int) + 3,
        min2(from.z as int, to.z as int) - 1 <= p.z <= max2(from.z as int, to.z as int) + CORRIDOR_HEADROOM,
{
    lemma_ramp_between(from, to, along(from, to, p));
}

/// Floor level of step `i` of the corridor.
fn ramp_z(from: Pos, to: Pos, i: i64) -> (z: i32)
    requires
        corridor_ok(from, to),
        0 <= i <= corridor_steps(from, to),
    ensures
        z == ramp_height(from, to, i as int),
{
    let s: i64 = if from.x != to.x {
        let d = to.x as i64 - from.x as i64;
        if d < 0 {
            -d
        } else {
            d
        }
    } else {
        let d = to.y as i64 - from.y as i64;
        if d < 0 {
            -d
        } else {
            d
        }
    };
    let d: i128 = to.z as i128 - from.z as i128;
    let s: i128 = s as i128;
    let i: i128 = i as i128;
    assert(s as int == corridor_steps(from, to));
    assert(0 <= s <= 0x1_0000_0000);
    assert(-0x80000000 * 0x1_0000_0000 <= from.z * s <= 0x80000000 * 0x1_0000_0000) by (nonlinear_arith)
        requires
            -0x80000000 <= from.z <= 0x80000000,
            0 <= s <= 0x1_0000_0000,
    ;
    assert(-0x1_0000_0000 * 0x1_0000_0000 <= d * i <= 0x1_0000_0000 * 0x1_0000_0000) by (nonlinear_arith)
        requires
            -0x1_0000_0000 <= d <= 0x1_0000_0000,
            0 <= i <= s <= 0x1_0000_0000,
    ;
    let num: i128 = from.z as i128 * s + d * i;
    assert(-0x2_0000_0000_0000_0000 <= num <= 0x2_0000_0000_0000_0000);
    let r: i128 = if num >= 0 {
        (2 * num + s) / (2 * s)
    } else {
        -((-2 * num + s) / (2 * s))
    };
    proof {
        lemma_ramp_between(from, to, i as int);
    }
    r as i32
}

/// Position of the cell at step `i`, offset `w` across, height `z`.
pub open spec fn slice_pos(from: Pos, to: Pos, i: int, w: int, z: int) -> Pos {
    if from.x != to.x {
        if to.x > from.x {
            pos(from.x + i, from.y + w, z)
        } else {
            pos(from.x - i, from.y + w, z)
        }
    } else {
        if to.y > from.y {
            pos(from.x + w, from.y + i, z)
        } else {
            pos(from.x + w, from.y - i, z)
        }
    }
}

pub open spec fn pos_of(k: (i32, i32, i32)) -> Pos {
    Pos { x: k.0, y: k.1, z: k.2 }
}

/// Cells already claimed once the loops are at step `i`, offset `cw`, height
/// offset `cdz`.
pub open spec fn claimed(from: Pos, to: Pos, i: int, cw: int, cdz: int, p: Pos) -> bool {
    let t = along(from, to, p);
    let w = across(from, to, p);
    let dz = p.z - ramp_height(from, to, t);
    &&& in_corridor(from, to, p)
    &&& (t < i || (t == i && (w < cw || (w == cw && dz < cdz))))
}

pub open spec fn claimed_block(from: Pos, to: Pos, wall: Block, i: int, p: Pos) -> Block {
    let t = along(from, to, p);
    corridor_cell(
        wall,
        t,
        corridor_steps(from, to),
        across(from, to, p),
        p.z - ramp_height(from, to, t),
        t < i,
    )
}

pub open spec fn cells_match(
    m: Map<(i32, i32, i32), Block>,
    from: Pos,
    to: Pos,
    wall: Block,
    i: int,
    cw: int,
    cdz: int,
) -> bool {
    &&& forall|k: (i32, i32, i32)|
        #[trigger] m.contains_key(k) <==> claimed(from, to, i, cw, cdz, pos_of(k))
    &&& forall|k: (i32, i32, i32)|
        #[trigger] m.contains_key(k) ==> m[k] == claimed_block(from, to, wall, i, pos_of(k))
}

pub proof fn lemma_slice_pos(from: Pos, to: Pos, i: int, w: int, z: int)
    requires
        corridor_ok(from, to),
        0 <= i <= corridor_steps(from, to),
        -3 <= w <= 3,
        i32::MIN <= z <= i32::MAX,
    ensures
        along(from, to, slice_pos(from, to, i, w, z)) == i,
        across(from, to, slice_pos(from, to, i, w, z)) == w,
        slice_pos(from, to, i, w, z).z == z,
{
}

/// Claim the cells of a corridor's cross-section at one step.
fn claim_step(
    cells: &mut CellMap,
    from: Pos,
    to: Pos,
    wall: Block,
    i: i64,
    steps: i64,
)
    requires
        corridor_ok(from, to),
        steps == corridor_steps(from, to),
        0 <= i <= corridor_steps(from, to),
        cells_match(cell_contents(*old(cells)), from, to, wall, i as int, -3, -1),
    ensures
        cells_match(cell_contents(*final(cells)), from, to, wall, i + 1, -3, -1),
{
    let z = ramp_z(from, to, i);
    proof {
        lemma_ramp_between(from, to, i as int);
    }
    let mut w: i64 = -3;
    while w <= 3
        invariant
            corridor_ok(from, to),
            0 <= i <= corridor_steps(from, to),
            -3 <= w <= 4,
            z == ramp_height(from, to, i as int),
            i32::MIN + 8 <= z <= i32::MAX - 8,
            cells_match(cell_contents(*cells), from, to, wall, i as int, w as int, -1),
        decreases 4 - w,
    {
        let mut dz: i64 = -1;
        while dz <= 4
            invariant
                corridor_ok(from, to),
                0 <= i <= corridor_steps(from, to),
                -3 <= w <= 3,
                -1 <= dz <= 5,
                z == ramp_height(from, to, i as int),
                i32::MIN + 8 <= z <= i32::MAX - 8,
                cells_match(cell_contents(*cells), from, to, wall, i as int, w as int, dz as int),
            decreases 5 - dz,
        {
            let (x, y): (i64, i64) = if from.x != to.x {
                if to.x > from.x {
                    (from.x as i64 + i, from.y as i64 + w)
                } else {
                    (from.x as i64 - i, from.y as i64 + w)
                }
            } else {
                if to.y > from.y {
                    (from.x as i64 + w, from.y as i64 + i)
                } else {
                    (from.x as i64 + w, from.y as i64 - i)
                }
            };
            let k: (i32, i32, i32) = (x as i32, y as i32, (z as i64 + dz) as i32);
            let ghost p = pos_of(k);
            proof {
                lemma_slice_pos(from, to, i as int, w as int, z + dz);
                assert(p == slice_pos(from, to, i as int, w as int, z + dz));
            }
            let ghost m0 = cell_contents(*cells);
            let in_width = -2 <= w && w <= 2;
            if in_width && 0 <= dz && dz < 4 {
                cells_insert(cells, k, air_block());
            } else if in_width && dz == -1 {
                cells_or_insert(cells, k, floor());
            } else {
                cells_or_insert(cells, k, wall);
            }
            proof {
                assert(!m0.contains_key(k));
                let m1 = cell_contents(*cells);
                assert forall|q: (i32, i32, i32)|
                    #[trigger] m1.contains_key(q) <==> claimed(
                        from,
                        to,
                        i as int,
                        w as int,
                        dz + 1,
                        pos_of(q),
                    ) by {
                    if q != k {
                        assert(m0.contains_key(q) == m1.contains_key(q));
                        if pos_of(q) == p {
                            assert(q == k);
                        }
                    }
                }
                assert forall|q: (i32, i32, i32)| #[trigger] m1.contains_key(q) implies m1[q]
                    == claimed_block(from, to, wall, i as int, pos_of(q)) by {
                    if q != k {
                        assert(m0.contains_key(q));
                    }
                }
            }
            dz = dz + 1;
        }
        proof {
            let m = cell_contents(*cells);
            assert forall|q: (i32, i32, i32)|
                #[trigger] m.contains_key(q) <==> claimed(
                    from,
                    to,
                    i as int,
                    w + 1,
                    -1,
                    pos_of(q),
                ) by {
                assert(m.contains_key(q) <==> claimed(
                    from,
                    to,
                    i as int,
                    w as int,
                    5,
                    pos_of(q),
                ));
            }
        }
        w = w + 1;
    }
    if i == 0 || i == steps {
        let (x, y): (i64, i64) = if from.x != to.x {
            if to.x > from.x {
                (from.x as i64 + i, from.y as i64)
            } else {
                (from.x as i64 - i, from.y as i64)
            }
        } else {
            if to.y > from.y {
                (from.x as i64, from.y as i64 + i)
            } else {
                (from.x as i64, from.y as i64 - i)
            }
        };
        let k: (i32, i32, i32) = (x as i32, y as i32, (z as i64 + 4) as i32);
        proof {
            lemma_slice_pos(from, to, i as int, 0, z + 4);
            assert(pos_of(k) == slice_pos(from, to, i as int, 0, z + 4));
        }
        let ghost m0 = cell_contents(*cells);
        cells_insert(cells, k, door_light());
        proof {
            let m1 = cell_contents(*cells);
            assert forall|q: (i32, i32, i32)|
                #[trigger] m1.contains_key(q) <==> claimed(
                    from,
                    to,
                    i + 1,
                    -3,
                    -1,
                    pos_of(q),
                ) by {
                assert(m0.contains_key(q) <==> claimed(
                    from,
                    to,
                    i as int,
                    4,
                    -1,
                    pos_of(q),
                ));
                if q != k {
                    assert(m0.contains_key(q) == m1.contains_key(q));
                }
            }
            assert forall|q: (i32, i32, i32)| #[trigger] m1.contains_key(q) implies m1[q]
                == claimed_block(from, to, wall, i + 1, pos_of(q)) by {
                if q != k {
                    assert(m0.contains_key(q));
                    assert(pos_of(q) != pos_of(k));
                }
            }
        }
    } else {
        proof {
            let m = cell_contents(*cells);
            assert forall|q: (i32, i32, i32)|
                #[trigger] m.contains_key(q) <==> claimed(
                    from,
                    to,
                    i + 1,
                    -3,
                    -1,
                    pos_of(q),
                ) by {
                assert(m.contains_key(q) <==> claimed(from, to, i as int, 4, -1, pos_of(q)));
            }
        }
    }
}

/// Carve a fully enclosed walkable tunnel (floor, side walls, ceiling, air
/// interior) in a straight horizontal line from `from` to `to`, as a stepped
/// ramp when their heights differ, and append its writes to `ws`. Every cell
/// of the tunnel is written once, so where its cells land is independent of
/// the order in which they are written.
pub fn carve_corridor(ws: &mut Vec<BlockWrite>, from: Pos, to: Pos, wall: Block)
    requires
        corridor_ok(from, to),
    ensures
        forall|p: Pos|
            #![trigger final_block(final(ws)@, p)]
            final_block(final(ws)@, p) == overlay(
                corridor_block(from, to, wall, p),
                final_block(old(ws)@, p),
            ),
        final(ws)@.len() >= old(ws)@.len(),
        final(ws)@.subrange(0, old(ws)@.len() as int) == old(ws)@,
        forall|i: int, j: int|
            old(ws)@.len() <= i < j < final(ws)@.len() ==> #[trigger] final(ws)@[i].pos
                != #[trigger] final(ws)@[j].pos,
        forall|i: int|
            old(ws)@.len() <= i < final(ws)@.len() ==> {
                let q = (#[trigger] final(ws)@[i]).pos;
                &&& corridor_block(from, to, wall, q) == Some(final(ws)@[i].block)
                &&& 0 <= along(from, to, q) <= corridor_steps(from, to)
            },
{
    let steps: i64 = if from.x != to.x {
        let d = to.x as i64 - from.x as i64;
        if d < 0 {
            -d
        } else {
            d
        }
    } else {
        let d = to.y as i64 - from.y as i64;
        if d < 0 {
            -d
        } else {
            d
        }
    };
    let mut cells = cells_new();
    let mut i: i64 = 0;
    while i <= steps
        invariant
            corridor_ok(from, to),
            steps == corridor_steps(from, to),
            0 <= i <= steps + 1,
            cells_match(cell_contents(cells), from, to, wall, i as int, -3, -1),
        decreases steps + 1 - i,
    {
        claim_step(&mut cells, from, to, wall, i, steps);
        i = i + 1;
    }
    let ghost m = cell_contents(cells);
    let cw = cells_into_writes(cells);
    let ghost before = ws@;
    let mut cw_mut = cw;
    ws.append(&mut cw_mut);
    proof {
        assert(ws@ == before + cw@);
        assert(ws@.subrange(0, before.len() as int) =~= before);
        assert forall|i: int| before.len() <= i < ws@.len() implies {
            let q = (#[trigger] ws@[i]).pos;
            &&& corridor_block(from, to, wall, q) == Some(ws@[i].block)
            &&& 0 <= along(from, to, q) <= corridor_steps(from, to)
        } by {
            let j = i - before.len();
            assert(ws@[i] == cw@[j]);
            let k = key_of(cw@[j].pos);
            assert(m.contains_key(k));
            assert(pos_of(k) == cw@[j].pos);
            assert(claimed(from, to, steps + 1, -3, -1, pos_of(k)));
        }
        assert forall|i: int, j: int| before.len() <= i < j < ws@.len() implies #[trigger] ws@[i].pos
            != #[trigger] ws@[j].pos by {
            assert(ws@[i] == cw@[i - before.len()]);
            assert(ws@[j] == cw@[j - before.len()]);
        }
        assert forall|p: Pos| #![trigger final_block(ws@, p)]
            final_block(ws@, p) == overlay(
                corridor_block(from, to, wall, p),
                final_block(before, p),
            ) by {
            lemma_final_block_append(before, cw@, p);
            lemma_final_block_distinct(cw@, p);
            let k = key_of(p);
            assert(pos_of(k) == p);
            if m.contains_key(k) {
                let j = choose|j: int| 0 <= j < cw@.len() && key_of(#[trigger] cw@[j].pos) == k;
                assert(cw@[j].pos == p);
            } else {
                assert forall|j: int| 0 <= j < cw@.len() implies #[trigger] cw@[j].pos != p by {
                    if cw@[j].pos == p {
                        assert(m.contains_key(key_of(cw@[j].pos)));
                    }
                }
            }
        }
    }
}

} // verus!
