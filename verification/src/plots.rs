//! Site plot geometry: the bounding rectangle of a plot's tiles, and the
//! voxel positions of a box, in the order site generation visits them.
use crate::geometry::Pos;
use vstd::prelude::*;

verus! {

/// A rectangle of tiles, corners included.
#[derive(Clone, Copy, Debug, PartialEq, Eq, Structural)]
pub struct TileBounds {
    pub min_x: i32,
    pub min_y: i32,
    pub max_x: i32,
    pub max_y: i32,
}

/// Whether tile `t` lies in `b`.
pub open spec fn holds(b: TileBounds, t: (i32, i32)) -> bool {
    b.min_x <= t.0 <= b.max_x && b.min_y <= t.1 <= b.max_y
}

/// `b` grown just enough to hold `t`.
pub open spec fn grown(b: TileBounds, t: (i32, i32)) -> TileBounds {
    TileBounds {
        min_x: if t.0 < b.min_x { t.0 } else { b.min_x },
        min_y: if t.1 < b.min_y { t.1 } else { b.min_y },
        max_x: if t.0 > b.max_x { t.0 } else { b.max_x },
        max_y: if t.1 > b.max_y { t.1 } else { b.max_y },
    }
}

/// The bounds of a plot: starting from its root tile alone, grown to hold
/// each of its tiles.
pub open spec fn bounds_spec(root: (i32, i32), tiles: Seq<(i32, i32)>) -> TileBounds
    decreases tiles.len(),
{
    if tiles.len() == 0 {
        TileBounds { min_x: root.0, min_y: root.1, max_x: root.0, max_y: root.1 }
    } else {
        grown(bounds_spec(root, tiles.drop_last()), tiles.last())
    }
}

/// The smallest rectangle holding the plot's root tile and all its tiles.
pub fn find_bounds(root: (i32, i32), tiles: &Vec<(i32, i32)>) -> (b: TileBounds)
    ensures
        b == bounds_spec(root, tiles@),
{
    let mut b = TileBounds { min_x: root.0, min_y: root.1, max_x: root.0, max_y: root.1 };
    let mut i: usize = 0;
    while i < tiles.len()
        invariant
            i <= tiles.len(),
            b == bounds_spec(root, tiles@.subrange(0, i as int)),
        decreases tiles.len() - i,
    {
        let t = tiles[i];
        assert(tiles@.subrange(0, i + 1).drop_last() =~= tiles@.subrange(0, i as int));
        b = TileBounds {
            min_x: if t.0 < b.min_x { t.0 } else { b.min_x },
            min_y: if t.1 < b.min_y { t.1 } else { b.min_y },
            max_x: if t.0 > b.max_x { t.0 } else { b.max_x },
            max_y: if t.1 > b.max_y { t.1 } else { b.max_y },
        };
        i += 1;
    }
    assert(tiles@.subrange(0, tiles.len() as int) =~= tiles@);
    b
}

/// A plot's bounds are the tightest rectangle around it: they hold the
/// root tile and every tile, and each of their four edges touches one of
/// them.
pub proof fn bounds_are_tight(root: (i32, i32), tiles: Seq<(i32, i32)>)
    ensures
        holds(bounds_spec(root, tiles), root),
        forall|k: int| 0 <= k < tiles.len() ==> holds(bounds_spec(root, tiles), #[trigger] tiles[k]),
        root.0 == bounds_spec(root, tiles).min_x || exists|k: int|
            0 <= k < tiles.len() && #[trigger] tiles[k].0 == bounds_spec(root, tiles).min_x,
        root.1 == bounds_spec(root, tiles).min_y || exists|k: int|
            0 <= k < tiles.len() && #[trigger] tiles[k].1 == bounds_spec(root, tiles).min_y,
        root.0 == bounds_spec(root, tiles).max_x || exists|k: int|
            0 <= k < tiles.len() && #[trigger] tiles[k].0 == bounds_spec(root, tiles).max_x,
        root.1 == bounds_spec(root, tiles).max_y || exists|k: int|
            0 <= k < tiles.len() && #[trigger] tiles[k].1 == bounds_spec(root, tiles).max_y,
    decreases tiles.len(),
{
    if tiles.len() > 0 {
        let t = tiles.drop_last();
        bounds_are_tight(root, t);
        let b0 = bounds_spec(root, t);
        let n = tiles.len() - 1;
        assert forall|k: int| 0 <= k < tiles.len() implies holds(bounds_spec(root, tiles), #[trigger] tiles[k]) by {
            if k < n {
                assert(tiles[k] == t[k]);
            }
        }
        if exists|k: int| 0 <= k < t.len() && #[trigger] t[k].0 == b0.min_x {
            let k = choose|k: int| 0 <= k < t.len() && #[trigger] t[k].0 == b0.min_x;
            assert(tiles[k] == t[k]);
        }
        if exists|k: int| 0 <= k < t.len() && #[trigger] t[k].1 == b0.min_y {
            let k = choose|k: int| 0 <= k < t.len() && #[trigger] t[k].1 == b0.min_y;
            assert(tiles[k] == t[k]);
        }
        if exists|k: int| 0 <= k < t.len() && #[trigger] t[k].0 == b0.max_x {
            let k = choose|k: int| 0 <= k < t.len() && #[trigger] t[k].0 == b0.max_x;
            assert(tiles[k] == t[k]);
        }
        if exists|k: int| 0 <= k < t.len() && #[trigger] t[k].1 == b0.max_y {
            let k = choose|k: int| 0 <= k < t.len() && #[trigger] t[k].1 == b0.max_y;
            assert(tiles[k] == t[k]);
        }
        assert(tiles[n] == tiles.last());
    }
}

/// The positions `(x, y, z)` of a column: `z` from `z0` up to before `z1`.
pub open spec fn column(x: i32, y: i32, z0: i32, z1: i32) -> Seq<Pos> {
    Seq::new(if z1 > z0 { (z1 - z0) as nat } else { 0 }, |k: int| Pos { x, y, z: (z0 + k) as i32 })
}

/// The columns of a slice at `x`, `y` from `y0` up to before `y1`.
pub open spec fn slice(x: i32, y0: i32, y1: i32, z0: i32, z1: i32) -> Seq<Pos>
    decreases y1 - y0,
{
    if y1 <= y0 {
        Seq::empty()
    } else {
        slice(x, y0, (y1 - 1) as i32, z0, z1) + column(x, (y1 - 1) as i32, z0, z1)
    }
}

/// The positions of the half-open box `min..max`: `x` outermost, then `y`,
/// then `z`.
pub open spec fn box_points(min: Pos, max: Pos) -> Seq<Pos>
    decreases max.x - min.x,
{
    if max.x <= min.x {
        Seq::empty()
    } else {
        box_points(min, Pos { x: (max.x - 1) as i32, ..max }) + slice((max.x - 1) as i32, min.y, max.y, min.z, max.z)
    }
}

/// Every position of the half-open box `min..max`, `x` outermost, then `y`,
/// then `z`.
pub fn aabb_iter(min: Pos, max: Pos) -> (r: Vec<Pos>)
    ensures
        r@ == box_points(min, max),
{
    let mut r: Vec<Pos> = Vec::new();
    let mut x = min.x;
    while x < max.x
        invariant
            min.x <= x,
            x <= max.x || x == min.x,
            r@ == box_points(min, Pos { x, ..max }),
        decreases max.x - x,
    {
        let ghost before = r@;
        let mut y = min.y;
        while y < max.y
            invariant
                min.x <= x < max.x,
                min.y <= y,
                y <= max.y || y == min.y,
                r@ == before + slice(x, min.y, y, min.z, max.z),
            decreases max.y - y,
        {
            let ghost before_y = r@;
            let mut z = min.z;
            while z < max.z
                invariant
                    min.x <= x < max.x,
                    min.y <= y < max.y,
                    min.z <= z,
                    z <= max.z || z == min.z,
                    r@ == before_y + column(x, y, min.z, z),
                decreases max.z - z,
            {
                r.push(Pos { x, y, z });
                assert(r@ =~= before_y + column(x, y, min.z, (z + 1) as i32));
                z += 1;
            }
            assert(column(x, y, min.z, z) =~= column(x, y, min.z, max.z));
            assert(slice(x, min.y, (y + 1) as i32, min.z, max.z) == slice(x, min.y, y, min.z, max.z) + column(
                x,
                y,
                min.z,
                max.z,
            ));
            assert(r@ =~= before + slice(x, min.y, (y + 1) as i32, min.z, max.z));
            y += 1;
        }
        assert(slice(x, min.y, y, min.z, max.z) =~= slice(x, min.y, max.y, min.z, max.z)) by {
            if max.y <= min.y {
                assert(slice(x, min.y, min.y, min.z, max.z) =~= Seq::empty());
                assert(slice(x, min.y, max.y, min.z, max.z) =~= Seq::empty());
            }
        }
        assert(box_points(min, Pos { x: (x + 1) as i32, ..max }) == box_points(min, Pos { x, ..max }) + slice(
            x,
            min.y,
            max.y,
            min.z,
            max.z,
        ));
        assert(r@ =~= box_points(min, Pos { x: (x + 1) as i32, ..max }));
        x += 1;
    }
    proof {
        if max.x > min.x {
            assert(Pos { x: max.x, ..max } == max);
        } else {
            assert(box_points(min, Pos { x: min.x, ..max }) =~= Seq::empty());
            assert(box_points(min, max) =~= Seq::empty());
        }
    }
    r
}

} // verus!
