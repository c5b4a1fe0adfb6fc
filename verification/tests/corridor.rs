use psypher::corridor::{carve_corridor, door_light, floor};
use psypher::geometry::{block_at, Block, BlockKind, BlockWrite, Pos};

fn p(x: i32, y: i32, z: i32) -> Pos {
    Pos { x, y, z }
}

fn wall() -> Block {
    Block { kind: BlockKind::Rock, r: 1, g: 2, b: 3 }
}

fn carve(from: Pos, to: Pos) -> Vec<BlockWrite> {
    let mut ws = Vec::new();
    carve_corridor(&mut ws, from, to, wall());
    ws
}

#[test]
fn flat_corridor_has_air_floor_walls_and_ceiling() {
    let ws = carve(p(0, 0, 10), p(-8, 0, 10));
    for x in -8..=0 {
        for w in -2..=2 {
            for dz in 0..4 {
                assert_eq!(block_at(&ws, p(x, w, 10 + dz)).map(|b| b.kind), Some(BlockKind::Air));
            }
            assert_eq!(block_at(&ws, p(x, w, 9)), Some(floor()));
        }
        assert_eq!(block_at(&ws, p(x, 3, 11)), Some(wall()));
        assert_eq!(block_at(&ws, p(x, -3, 11)), Some(wall()));
    }
    assert_eq!(block_at(&ws, p(0, 0, 14)), Some(door_light()));
    assert_eq!(block_at(&ws, p(-8, 0, 14)), Some(door_light()));
    assert_eq!(block_at(&ws, p(-4, 0, 14)), Some(wall()));
    assert_eq!(block_at(&ws, p(1, 0, 10)), None);
    assert_eq!(block_at(&ws, p(-9, 0, 10)), None);
}

#[test]
fn ramp_climbs_with_rounded_steps() {
    // From z = 10 up to z = 14 over 8 steps: step i stands at 10 + i / 2,
    // halves rounded up.
    let ws = carve(p(0, 0, 10), p(-8, 0, 14));
    let expected = [10, 11, 11, 12, 12, 13, 13, 14, 14];
    for (i, z) in expected.iter().enumerate() {
        let x = -(i as i32);
        assert_eq!(block_at(&ws, p(x, 0, *z - 1)), Some(floor()), "step {i}");
        assert_eq!(block_at(&ws, p(x, 0, *z)).map(|b| b.kind), Some(BlockKind::Air), "step {i}");
    }
}

#[test]
fn descending_ramp_along_y() {
    let ws = carve(p(5, 0, 0), p(5, 4, -2));
    // Step 1 is at -0.5, rounded away from zero to -1.
    assert_eq!(block_at(&ws, p(5, 1, -2)), Some(floor()));
    assert_eq!(block_at(&ws, p(5, 4, -3)), Some(floor()));
    assert_eq!(block_at(&ws, p(8, 2, 0)), Some(wall()));
}
