use psypher::geometry::{block_at, BlockKind, BlockWrite, Pos};
use psypher::layout::{
    layout_bounds, spawn_pos, TriggerZone, CORRIDOR_LEN, DOOR_HEIGHT, DOOR_Z, LEVEL_SHIFT, ROOM_HALF_X,
    ROOM_HALF_Y,
};
use psypher::session::{
    draw_at, enter, exit, layout_input, navigate, probe, DungeonError, LayoutInput, OriginPos,
    OsDungeonSessions,
};
use psypher::windows::{DirListing, RawEntry};

fn dir(name: &str) -> RawEntry {
    RawEntry { name: name.as_bytes().to_vec(), is_dir: true, subdir_count: 1 }
}

/// A directory with both a parent and several children, as the directory
/// reader would list them: `/home/dev/repo` among its siblings, holding
/// `assets`, `client`, `common`, `server`, `world` and a hidden `.git`.
fn test_input() -> LayoutInput {
    let parent = DirListing {
        path: b"/home/dev".to_vec(),
        entries: vec![dir("downloads"), dir("repo"), dir("notes"), dir(".cache")],
    };
    let here = DirListing {
        path: b"/home/dev/repo".to_vec(),
        entries: vec![
            dir("world"),
            dir(".git"),
            dir("assets"),
            dir("server"),
            dir("client"),
            dir("common"),
        ],
    };
    layout_input(Some(parent), &Some(b"repo".to_vec()), here)
}

fn p(x: i32, y: i32, z: i32) -> Pos {
    Pos { x, y, z }
}

fn kind_at(ws: &Vec<BlockWrite>, pos: Pos) -> Option<BlockKind> {
    block_at(ws, pos).map(|b| b.kind)
}

fn render(anchor: Pos) -> (Vec<BlockWrite>, Vec<TriggerZone>) {
    draw_at(anchor, &test_input())
}

#[test]
fn parent_doorway_is_walkable_at_both_ends() {
    let anchor = p(0, 0, 500);
    let input = test_input();
    assert!(input.parent.is_some(), "test needs a path with a parent");
    let (ws, _zones) = draw_at(anchor, &input);

    let near_door = p(anchor.x - ROOM_HALF_X, anchor.y, anchor.z + DOOR_Z);
    let past_door = p(anchor.x - ROOM_HALF_X - 2, anchor.y, anchor.z + DOOR_Z + 1);
    assert_eq!(
        kind_at(&ws, near_door),
        Some(BlockKind::Air),
        "current room's doorway threshold toward its parent must be open"
    );
    assert_eq!(
        kind_at(&ws, past_door),
        Some(BlockKind::Air),
        "just past the doorway threshold must still be open, not resealed"
    );

    let parent_center = p(anchor.x - (ROOM_HALF_X * 2 + CORRIDOR_LEN), anchor.y, anchor.z + LEVEL_SHIFT);
    let parent_door = p(parent_center.x + ROOM_HALF_X, parent_center.y, parent_center.z + DOOR_Z);
    assert_eq!(
        kind_at(&ws, parent_door),
        Some(BlockKind::Air),
        "parent room's doorway threshold toward the current room must be open"
    );

    let away_from_door = p(anchor.x - ROOM_HALF_X, anchor.y + ROOM_HALF_Y - 2, anchor.z);
    assert_eq!(
        kind_at(&ws, away_from_door),
        Some(BlockKind::Rock),
        "the room's wall away from any doorway must remain solid"
    );
}

#[test]
fn first_child_doorway_is_walkable_at_both_ends() {
    let anchor = p(0, 0, 500);
    let input = test_input();
    assert!(!input.children.is_empty(), "test needs a path with at least one child directory");
    let (ws, _zones) = draw_at(anchor, &input);

    let near_door = p(anchor.x + ROOM_HALF_X, anchor.y, anchor.z + DOOR_Z);
    assert_eq!(
        kind_at(&ws, near_door),
        Some(BlockKind::Air),
        "current room's doorway threshold toward child[0] must be open"
    );

    let child_center = p(anchor.x + ROOM_HALF_X * 2 + CORRIDOR_LEN, anchor.y, anchor.z - LEVEL_SHIFT);
    let child_door = p(child_center.x - ROOM_HALF_X, child_center.y, child_center.z + DOOR_Z);
    assert_eq!(
        kind_at(&ws, child_door),
        Some(BlockKind::Air),
        "child[0]'s doorway threshold toward the current room must be open"
    );
}

#[test]
fn corridor_interior_is_walkable_partway_along_the_ramp() {
    let anchor = p(0, 0, 500);
    let (ws, _zones) = render(anchor);

    let from = p(anchor.x - ROOM_HALF_X, anchor.y, anchor.z + DOOR_Z);
    let parent_center = p(anchor.x - (ROOM_HALF_X * 2 + CORRIDOR_LEN), anchor.y, anchor.z + LEVEL_SHIFT);
    let to = p(parent_center.x + ROOM_HALF_X, parent_center.y, parent_center.z + DOOR_Z);
    let mid = p((from.x + to.x) / 2, from.y, (from.z + to.z) / 2);
    assert_eq!(
        kind_at(&ws, mid),
        Some(BlockKind::Air),
        "the middle of the ramp must be walkable, not just its two doorway ends"
    );
}

#[test]
fn spawn_position_is_within_every_doorway_height_band() {
    let spawn_z_offset = DOOR_Z + 2;
    assert!(
        (DOOR_Z..DOOR_Z + DOOR_HEIGHT).contains(&spawn_z_offset),
        "spawn height {spawn_z_offset} must be within the doorway band {DOOR_Z}..{}",
        DOOR_Z + DOOR_HEIGHT
    );
}

#[test]
fn layout_bounds_cover_the_whole_layout() {
    let anchor = p(0, 0, 500);
    let (lo, hi) = layout_bounds(anchor);
    let (ws, _zones) = render(anchor);
    let net_z = lo.z - 5;
    for w in &ws {
        if w.pos.z == net_z {
            // The safety net lies just below the cleared box.
            assert_eq!(w.block.kind, BlockKind::Rock);
        } else {
            assert!(lo.z <= w.pos.z && w.pos.z <= hi.z);
        }
        assert!(lo.x <= w.pos.x && w.pos.x <= hi.x);
        assert!(lo.y <= w.pos.y && w.pos.y <= hi.y);
    }
}

#[test]
fn doorway_zones_lead_to_parent_and_children() {
    let anchor = p(0, 0, 500);
    let (_ws, zones) = render(anchor);
    let targets: Vec<Vec<u8>> = zones.iter().map(|z| z.target.clone()).collect();
    assert!(targets.contains(&b"/home/dev".to_vec()));
    assert!(targets.contains(&b"/home/dev/repo/assets".to_vec()));
    // The parent's doorway zone spans the first half of its corridor.
    let parent_zone = zones.iter().find(|z| z.target == b"/home/dev".to_vec()).unwrap();
    assert_eq!(parent_zone.min, p(anchor.x - ROOM_HALF_X - CORRIDOR_LEN / 2, anchor.y - 1, anchor.z + DOOR_Z - 1));
    assert_eq!(parent_zone.max, p(anchor.x - ROOM_HALF_X - 1, anchor.y + 1, anchor.z + DOOR_Z + 2));
    let in_corridor = p(anchor.x - ROOM_HALF_X - 2, anchor.y, anchor.z + DOOR_Z);
    assert!(parent_zone.contains(in_corridor));
    let far_away = p(anchor.x + 200, anchor.y, anchor.z);
    assert!(!zones.iter().any(|z| z.contains(far_away)));
}

#[test]
fn sessions_enter_navigate_probe_exit() {
    let mut sessions = OsDungeonSessions::new();
    let uid = 7u64;
    let origin = OriginPos { x_bits: 1, y_bits: 2, z_bits: 3 };
    let anchor = p(100, 100, 600);
    let (ws, spawn) = enter(&mut sessions, uid, b"/home/dev/repo".to_vec(), origin, anchor, &test_input());
    assert!(!ws.is_empty());
    // The player is placed two blocks above the doorways' floor level, in
    // the middle of the current room.
    assert_eq!(spawn, p(100, 100, 600 + DOOR_Z + 2));
    assert!((DOOR_Z..DOOR_Z + DOOR_HEIGHT).contains(&(spawn.z - anchor.z)));
    assert_eq!(kind_at(&ws, spawn), Some(BlockKind::Air));
    assert!(sessions.contains(uid));
    assert_eq!(sessions.get(uid).unwrap().anchor, anchor);
    assert_eq!(sessions.get(uid).unwrap().last_zone, None);

    assert_eq!(probe(&sessions, uid, p(1, -2, 3)), Ok(p(101, 98, 603)));
    assert_eq!(probe(&sessions, 99, p(0, 0, 0)), Err(DungeonError::NotInDungeon));

    let moved = navigate(&mut sessions, uid, b"/home/dev".to_vec(), &test_input());
    assert!(moved.is_some());
    assert_eq!(sessions.get(uid).unwrap().current_path, b"/home/dev".to_vec());
    assert_eq!(sessions.get(uid).unwrap().anchor, anchor);
    assert!(navigate(&mut sessions, 99, b"/".to_vec(), &test_input()).is_none());
    assert_eq!(sessions.uids(), vec![uid]);

    assert_eq!(exit(&mut sessions, uid), Ok(origin));
    assert!(!sessions.contains(uid));
    assert_eq!(exit(&mut sessions, uid), Err(DungeonError::NotInDungeon));
    assert_eq!(DungeonError::NotInDungeon.message(), "You are not currently in the OS Dungeon");
}

#[test]
fn every_doorway_zone_can_fire() {
    let anchor = p(0, 0, 500);
    let (_ws, zones) = render(anchor);
    for z in &zones {
        assert!(z.min.x <= z.max.x && z.min.y <= z.max.y && z.min.z <= z.max.z);
    }
    // `notes` sorts just before `repo`, so its room lies south of the
    // current one; stepping into that corridor enters its zone.
    let notes = zones.iter().find(|z| z.target == b"/home/dev/notes".to_vec()).unwrap();
    assert_eq!(notes.min, p(anchor.x - 1, anchor.y - ROOM_HALF_Y - CORRIDOR_LEN, anchor.z + DOOR_Z - 1));
    assert_eq!(notes.max, p(anchor.x + 1, anchor.y - ROOM_HALF_Y, anchor.z + DOOR_Z + 2));
    assert!(notes.contains(p(anchor.x, anchor.y - ROOM_HALF_Y - 2, anchor.z + DOOR_Z)));
}

#[test]
fn spawn_point_is_in_the_open_current_room() {
    let anchor = p(0, 0, 500);
    let spawn = spawn_pos(anchor);
    assert_eq!(spawn, p(0, 0, 500 + DOOR_Z + 2));
    assert!(anchor.z + DOOR_Z <= spawn.z && spawn.z < anchor.z + DOOR_Z + DOOR_HEIGHT);
    let (ws, _zones) = render(anchor);
    assert_eq!(kind_at(&ws, spawn), Some(BlockKind::Air));
}
