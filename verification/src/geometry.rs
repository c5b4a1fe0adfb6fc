//! Voxel positions, blocks, and block writes, with the "last write wins"
//! meaning of a sequence of writes.
use vstd::prelude::*;

verus! {

/// A voxel position in world space.
#[derive(Clone, Copy, Debug, PartialEq, Eq, Structural)]
pub struct Pos {
    pub x: i32,
    pub y: i32,
    pub z: i32,
}

/// The kinds of terrain block the dungeon writes.
#[derive(Clone, Copy, Debug, PartialEq, Eq, Structural)]
pub enum BlockKind {
    Air,
    Rock,
    GlowingRock,
}

/// A terrain block: its kind and colour.
#[derive(Clone, Copy, Debug, PartialEq, Eq, Structural)]
pub struct Block {
    pub kind: BlockKind,
    pub r: u8,
    pub g: u8,
    pub b: u8,
}

/// One queued terrain edit: put `block` at `pos`.
#[derive(Clone, Copy, Debug, PartialEq, Eq, Structural)]
pub struct BlockWrite {
    pub pos: Pos,
    pub block: Block,
}

pub open spec fn pos(x: int, y: int, z: int) -> Pos {
    Pos { x: x as i32, y: y as i32, z: z as i32 }
}

pub open spec fn air() -> Block {
    Block { kind: BlockKind::Air, r: 0, g: 0, b: 0 }
}

pub open spec fn rock(r: u8, g: u8, b: u8) -> Block {
    Block { kind: BlockKind::Rock, r, g, b }
}

/// The block that a sequence of writes leaves at `p`: the last write to `p`,
/// or `None` when nothing was written there.
pub open spec fn final_block(ws: Seq<BlockWrite>, p: Pos) -> Option<Block>
    decreases ws.len(),
{
    if ws.len() == 0 {
        None
    } else if ws.last().pos == p {
        Some(ws.last().block)
    } else {
        final_block(ws.drop_last(), p)
    }
}

/// `top` painted over `under`.
pub open spec fn overlay(top: Option<Block>, under: Option<Block>) -> Option<Block> {
    if top is Some {
        top
    } else {
        under
    }
}

/// Writes appended after others are painted over them.
pub proof fn lemma_final_block_append(a: Seq<BlockWrite>, b: Seq<BlockWrite>, p: Pos)
    ensures
        final_block(a + b, p) == overlay(final_block(b, p), final_block(a, p)),
    decreases b.len(),
{
    if b.len() == 0 {
        assert(a + b =~= a);
    } else {
        assert((a + b).drop_last() =~= a + b.drop_last());
        assert((a + b).last() == b.last());
        lemma_final_block_append(a, b.drop_last(), p);
    }
}

pub proof fn lemma_final_block_push(a: Seq<BlockWrite>, w: BlockWrite, p: Pos)
    ensures
        final_block(a.push(w), p) == (if w.pos == p {
            Some(w.block)
        } else {
            final_block(a, p)
        }),
{
    assert(a.push(w).drop_last() =~= a);
}


/// In writes that touch each position at most once, the block left at `p`
/// is the one written there, if any.
pub proof fn lemma_final_block_distinct(ws: Seq<BlockWrite>, p: Pos)
    requires
        forall|i: int, j: int|
            0 <= i < j < ws.len() ==> #[trigger] ws[i].pos != #[trigger] ws[j].pos,
    ensures
        forall|i: int|
            0 <= i < ws.len() && #[trigger] ws[i].pos == p ==> final_block(ws, p) == Some(
                ws[i].block,
            ),
        (forall|i: int| 0 <= i < ws.len() ==> #[trigger] ws[i].pos != p) ==> final_block(ws, p)
            is None,
    decreases ws.len(),
{
    if ws.len() > 0 {
        let last = ws.len() - 1;
        let rest = ws.drop_last();
        assert forall|i: int, j: int|
            0 <= i < j < rest.len() implies #[trigger] rest[i].pos != #[trigger] rest[j].pos by {
            assert(rest[i] == ws[i] && rest[j] == ws[j]);
        }
        lemma_final_block_distinct(rest, p);
        assert forall|i: int|
            0 <= i < ws.len() && #[trigger] ws[i].pos == p implies final_block(ws, p) == Some(
                ws[i].block,
            ) by {
            if i < last {
                assert(rest[i] == ws[i]);
                assert(ws[i].pos != ws[last].pos);
            }
        }
        if forall|i: int| 0 <= i < ws.len() ==> #[trigger] ws[i].pos != p {
            assert(ws[last].pos != p);
            assert forall|i: int| 0 <= i < rest.len() implies #[trigger] rest[i].pos != p by {
                assert(rest[i] == ws[i]);
            }
        }
    }
}

/// Whether `p` lies in the inclusive box `[lo, hi]`.
pub open spec fn in_box(lo: Pos, hi: Pos, p: Pos) -> bool {
    &&& lo.x <= p.x <= hi.x
    &&& lo.y <= p.y <= hi.y
    &&& lo.z <= p.z <= hi.z
}

/// How a box is filled: every cell with one block, or a hollow shell (the
/// boundary of the box in one block, the inside air).
#[derive(Clone, Copy, Debug)]
pub enum Fill {
    Solid(Block),
    Shell(Block),
}

pub open spec fn on_shell(lo: Pos, hi: Pos, p: Pos) -> bool {
    p.x == lo.x || p.x == hi.x || p.y == lo.y || p.y == hi.y || p.z == lo.z || p.z == hi.z
}

/// The block a filled box puts at `p`, if any.
pub open spec fn fill_block(fill: Fill, lo: Pos, hi: Pos, p: Pos) -> Option<Block> {
    if !in_box(lo, hi, p) {
        None
    } else {
        match fill {
            Fill::Solid(b) => Some(b),
            Fill::Shell(wall) => if on_shell(lo, hi, p) {
                Some(wall)
            } else {
                Some(air())
            },
        }
    }
}

pub fn air_block() -> (b: Block)
    ensures
        b == air(),
{
    Block { kind: BlockKind::Air, r: 0, g: 0, b: 0 }
}

fn fill_block_exec(fill: Fill, lo: Pos, hi: Pos, p: Pos) -> (b: Block)
    requires
        in_box(lo, hi, p),
    ensures
        fill_block(fill, lo, hi, p) == Some(b),
{
    match fill {
        Fill::Solid(b) => b,
        Fill::Shell(wall) => {
            if p.x == lo.x || p.x == hi.x || p.y == lo.y || p.y == hi.y || p.z == lo.z || p.z
                == hi.z {
                wall
            } else {
                air_block()
            }
        },
    }
}

/// Cells of the box visited before `(x, y, z)` in x-major, then y, then z order.
pub open spec fn visited(x: int, y: int, z: int, p: Pos) -> bool {
    ||| p.x < x
    ||| p.x == x && p.y < y
    ||| p.x == x && p.y == y && p.z < z
}

/// Append writes that fill the inclusive box `[lo, hi]` as `fill` says; each
/// cell of the box is written exactly once.
pub fn fill_box(ws: &mut Vec<BlockWrite>, lo: Pos, hi: Pos, fill: Fill)
    ensures
        forall|p: Pos|
            #![trigger final_block(final(ws)@, p)]
            final_block(final(ws)@, p) == overlay(
                fill_block(fill, lo, hi, p),
                final_block(old(ws)@, p),
            ),
{
    let ghost w0 = ws@;
    let mut x: i64 = lo.x as i64;
    while x <= hi.x as i64
        invariant
            lo.x <= x <= hi.x + 1 || (x == lo.x && lo.x > hi.x),
            forall|p: Pos|
                #![trigger final_block(ws@, p)]
                final_block(ws@, p) == overlay(
                    if visited(x as int, lo.y as int, lo.z as int, p) {
                        fill_block(fill, lo, hi, p)
                    } else {
                        None
                    },
                    final_block(w0, p),
                ),
        decreases hi.x + 1 - x,
    {
        let mut y: i64 = lo.y as i64;
        while y <= hi.y as i64
            invariant
                lo.x <= x <= hi.x,
                lo.y <= y <= hi.y + 1 || (y == lo.y && lo.y > hi.y),
                forall|p: Pos|
                    #![trigger final_block(ws@, p)]
                    final_block(ws@, p) == overlay(
                        if visited(x as int, y as int, lo.z as int, p) {
                            fill_block(fill, lo, hi, p)
                        } else {
                            None
                        },
                        final_block(w0, p),
                    ),
            decreases hi.y + 1 - y,
        {
            let mut z: i64 = lo.z as i64;
            while z <= hi.z as i64
                invariant
                    lo.x <= x <= hi.x,
                    lo.y <= y <= hi.y,
                    lo.z <= z <= hi.z + 1 || (z == lo.z && lo.z > hi.z),
                    forall|p: Pos|
                        #![trigger final_block(ws@, p)]
                        final_block(ws@, p) == overlay(
                            if visited(x as int, y as int, z as int, p) {
                                fill_block(fill, lo, hi, p)
                            } else {
                                None
                            },
                            final_block(w0, p),
                        ),
                decreases hi.z + 1 - z,
            {
                let p = Pos { x: x as i32, y: y as i32, z: z as i32 };
                let b = fill_block_exec(fill, lo, hi, p);
                let ghost before = ws@;
                ws.push(BlockWrite { pos: p, block: b });
                proof {
                    assert forall|q: Pos| #![trigger final_block(ws@, q)]
                        final_block(ws@, q) == overlay(
                            if visited(x as int, y as int, z + 1, q) {
                                fill_block(fill, lo, hi, q)
                            } else {
                                None
                            },
                            final_block(w0, q),
                        ) by {
                        lemma_final_block_push(before, BlockWrite { pos: p, block: b }, q);
                        assert(final_block(before, q) == overlay(
                            if visited(x as int, y as int, z as int, q) {
                                fill_block(fill, lo, hi, q)
                            } else {
                                None
                            },
                            final_block(w0, q),
                        ));
                    }
                }
                z = z + 1;
            }
            proof {
                assert forall|q: Pos| #![trigger final_block(ws@, q)]
                    final_block(ws@, q) == overlay(
                        if visited(x as int, y + 1, lo.z as int, q) {
                            fill_block(fill, lo, hi, q)
                        } else {
                            None
                        },
                        final_block(w0, q),
                    ) by {
                    assert(final_block(ws@, q) == overlay(
                        if visited(x as int, y as int, z as int, q) {
                            fill_block(fill, lo, hi, q)
                        } else {
                            None
                        },
                        final_block(w0, q),
                    ));
                }
            }
            y = y + 1;
        }
        proof {
            assert forall|q: Pos| #![trigger final_block(ws@, q)]
                final_block(ws@, q) == overlay(
                    if visited(x + 1, lo.y as int, lo.z as int, q) {
                        fill_block(fill, lo, hi, q)
                    } else {
                        None
                    },
                    final_block(w0, q),
                ) by {
                assert(final_block(ws@, q) == overlay(
                    if visited(x as int, y as int, lo.z as int, q) {
                        fill_block(fill, lo, hi, q)
                    } else {
                        None
                    },
                    final_block(w0, q),
                ));
            }
        }
        x = x + 1;
    }
    proof {
        assert forall|q: Pos| #![trigger final_block(ws@, q)]
            final_block(ws@, q) == overlay(fill_block(fill, lo, hi, q), final_block(w0, q)) by {
            assert(final_block(ws@, q) == overlay(
                if visited(x as int, lo.y as int, lo.z as int, q) {
                    fill_block(fill, lo, hi, q)
                } else {
                    None
                },
                final_block(w0, q),
            ));
        }
    }
}

/// Append a single write.
pub fn put(ws: &mut Vec<BlockWrite>, p: Pos, b: Block)
    ensures
        forall|q: Pos|
            #![trigger final_block(final(ws)@, q)]
            final_block(final(ws)@, q) == (if q == p {
                Some(b)
            } else {
                final_block(old(ws)@, q)
            }),
{
    let ghost before = ws@;
    ws.push(BlockWrite { pos: p, block: b });
    proof {
        assert forall|q: Pos| #![trigger final_block(ws@, q)]
            final_block(ws@, q) == (if q == p {
                Some(b)
            } else {
                final_block(before, q)
            }) by {
            lemma_final_block_push(before, BlockWrite { pos: p, block: b }, q);
        }
    }
}

/// The block that `ws` leaves at `p`: the last write there, if any.
pub fn block_at(ws: &Vec<BlockWrite>, p: Pos) -> (r: Option<Block>)
    ensures
        r == final_block(ws@, p),
{
    let mut i = ws.len();
    assert(ws@.subrange(0, i as int) =~= ws@);
    while i > 0
        invariant
            i <= ws.len(),
            final_block(ws@, p) == final_block(ws@.subrange(0, i as int), p),
        decreases i,
    {
        let w = ws[i - 1];
        assert(ws@.subrange(0, i as int).drop_last() =~= ws@.subrange(0, i - 1));
        if w.pos == p {
            return Some(w.block);
        }
        i = i - 1;
    }
    None
}

} // verus!
