use psypher::geometry::Pos;
use psypher::plots::{aabb_iter, find_bounds, TileBounds};

fn p(x: i32, y: i32, z: i32) -> Pos {
    Pos { x, y, z }
}

#[test]
fn bounds_of_a_lone_root_tile() {
    assert_eq!(find_bounds((3, -2), &vec![]), TileBounds { min_x: 3, min_y: -2, max_x: 3, max_y: -2 });
}

#[test]
fn bounds_grow_to_hold_every_tile() {
    let tiles = vec![(4, 0), (-1, 2), (2, -5), (0, 0)];
    assert_eq!(find_bounds((0, 0), &tiles), TileBounds { min_x: -1, min_y: -5, max_x: 4, max_y: 2 });
}

#[test]
fn box_positions_in_x_then_y_then_z_order() {
    let pts = aabb_iter(p(0, 0, 0), p(2, 2, 2));
    assert_eq!(
        pts,
        vec![
            p(0, 0, 0),
            p(0, 0, 1),
            p(0, 1, 0),
            p(0, 1, 1),
            p(1, 0, 0),
            p(1, 0, 1),
            p(1, 1, 0),
            p(1, 1, 1)
        ]
    );
}

#[test]
fn empty_boxes_have_no_positions() {
    assert!(aabb_iter(p(0, 0, 0), p(0, 5, 5)).is_empty());
    assert!(aabb_iter(p(0, 0, 0), p(5, 5, -1)).is_empty());
    assert_eq!(aabb_iter(p(-1, 7, 3), p(0, 8, 4)), vec![p(-1, 7, 3)]);
}
