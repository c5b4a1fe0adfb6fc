//! Players' OS Dungeon visits: entering (draw the layout, remember where to
//! return to), navigating to another directory (redraw at the same anchor),
//! probing, and exiting.
use crate::geometry::{air, fill_block, final_block, overlay, Block, BlockWrite, Fill, Pos};
use crate::layout::{
    anchor_ok, bounds_hi, bounds_lo, children_ok, clear_layout, drawn, layout_shapes,
    layout_zones, peers_ok, render_layout, shapes_block, spawn_point, spawn_pos, zone_view, TriggerZone,
    DOOR_HEIGHT, DOOR_Z, WINDOW_RADIUS,
};
use crate::sessiontable::{
    session_entries, table_contains, table_get, table_insert, table_is_empty, table_new,
    table_remove, table_uids, SessionTable,
};
use crate::windows::{
    child_window_ok, children_window, is_subdir_list, position_of, sibling_window_ok,
    siblings_window, DirInfo, DirListing, RawEntry,
};
use vstd::prelude::*;

verus! {

/// The position a player entered the dungeon from, kept as the bit patterns
/// of its three coordinates so it can be restored exactly on exit.
#[derive(Clone, Copy, Debug, PartialEq, Eq, Structural)]
pub struct OriginPos {
    pub x_bits: u32,
    pub y_bits: u32,
    pub z_bits: u32,
}

/// One player's active OS Dungeon visit.
#[derive(Debug)]
pub struct OsDungeonSession {
    /// Where to teleport the player back to on exit.
    pub origin_pos: OriginPos,
    /// Directory the current room represents.
    pub current_path: Vec<u8>,
    /// World-space centre the whole layout is drawn around; fixed for the
    /// lifetime of a session.
    pub anchor: Pos,
    /// Doorway zones for the layout currently drawn at `anchor`.
    pub zones: Vec<TriggerZone>,
    /// Last zone (by index into `zones`) the player was standing in.
    pub last_zone: Option<usize>,
}

/// All active visits, keyed by player uid.
pub struct OsDungeonSessions {
    table: SessionTable,
}

impl View for OsDungeonSessions {
    type V = Map<u64, OsDungeonSession>;

    closed spec fn view(&self) -> Map<u64, OsDungeonSession> {
        session_entries(self.table)
    }
}

/// Why a dungeon request was refused.
#[derive(Clone, Copy, Debug, PartialEq, Eq, Structural)]
pub enum DungeonError {
    /// The player has no active visit.
    NotInDungeon,
}

impl DungeonError {
    /// The chat reply for this refusal.
    pub fn message(&self) -> (s: String)
        ensures
            s@ == "You are not currently in the OS Dungeon"@,
    {
        match self {
            DungeonError::NotInDungeon => String::from_str("You are not currently in the OS Dungeon"),
        }
    }
}

impl OsDungeonSessions {
    /// No visits.
    pub fn new() -> (s: Self)
        ensures
            forall|uid: u64| !#[trigger] s@.contains_key(uid),
    {
        OsDungeonSessions { table: table_new() }
    }

    pub fn get(&self, uid: u64) -> (r: Option<&OsDungeonSession>)
        ensures
            r == (if self@.contains_key(uid) {
                Some(&self@[uid])
            } else {
                None
            }),
    {
        table_get(&self.table, uid)
    }

    pub fn contains(&self, uid: u64) -> (r: bool)
        ensures
            r == self@.contains_key(uid),
    {
        table_contains(&self.table, uid)
    }

    pub fn insert(&mut self, uid: u64, session: OsDungeonSession)
        ensures
            final(self)@ == old(self)@.insert(uid, session),
    {
        table_insert(&mut self.table, uid, session)
    }

    pub fn remove(&mut self, uid: u64) -> (r: Option<OsDungeonSession>)
        ensures
            final(self)@ == old(self)@.remove(uid),
            r == (if old(self)@.contains_key(uid) {
                Some(old(self)@[uid])
            } else {
                None
            }),
    {
        table_remove(&mut self.table, uid)
    }

    /// The uids of every active visit, each once, in no particular order.
    pub fn uids(&self) -> (r: Vec<u64>)
        ensures
            forall|i: int, j: int| 0 <= i < j < r@.len() ==> r@[i] != r@[j],
            forall|k: u64| self@.contains_key(k) <==> r@.contains(k),
    {
        table_uids(&self.table)
    }
}

/// Everything the layout around one directory depends on.
#[derive(Debug)]
pub struct LayoutInput {
    /// The directory's parent, if it has one.
    pub parent: Option<Vec<u8>>,
    /// The directory's index among its sorted siblings.
    pub self_index: usize,
    /// The window of siblings around it.
    pub peers: Vec<DirInfo>,
    /// The window of its first children.
    pub children: Vec<DirInfo>,
}

/// The children of a layout are drawn on rows `0, 1, ..` in order.
pub open spec fn rows_in_order(children: Seq<DirInfo>) -> bool {
    forall|k: int| 0 <= k < children.len() ==> #[trigger] children[k].index == k
}

pub open spec fn input_ok(i: LayoutInput) -> bool {
    &&& peers_ok(i.peers@, i.self_index)
    &&& children_ok(i.children@)
    &&& rows_in_order(i.children@)
}

/// The layout input for a directory: `parent` is the listing of its parent
/// (none for a filesystem root), `self_name` its last path component,
/// `dir` its own listing. The peers are the siblings within
/// `WINDOW_RADIUS` of it; the children are its first `2 * WINDOW_RADIUS + 1`
/// subdirectories.
pub fn layout_input(parent: Option<DirListing>, self_name: &Option<Vec<u8>>, dir: DirListing) -> (r:
    LayoutInput)
    ensures
        input_ok(r),
        r.parent matches Some(p) ==> parent matches Some(l) && p@ == l.path@,
        r.parent is None ==> parent is None,
        parent is None ==> r.self_index == 0 && r.peers@.len() == 0,
        parent matches Some(l) ==> exists|subs: Seq<RawEntry>|
            {
                &&& is_subdir_list(l.entries@, subs)
                &&& match (if self_name is Some { position_of(subs, self_name->0@) } else { None }) {
                    None => r.self_index == 0 && r.peers@.len() == 0,
                    Some(s) => r.self_index == s && sibling_window_ok(l.path@, subs, s, WINDOW_RADIUS as int, r.peers@),
                }
            },
        exists|subs: Seq<RawEntry>|
            {
                &&& is_subdir_list(dir.entries@, subs)
                &&& if subs.len() == 0 {
                    r.children@.len() == 0
                } else {
                    child_window_ok(dir.path@, subs, WINDOW_RADIUS as int, WINDOW_RADIUS as int, r.children@)
                }
            },
{
    let parent_path = match &parent {
        Some(l) => Some(crate::windows::copy_bytes(&l.path)),
        None => None,
    };
    let (_total, self_index, peers) = siblings_window(parent, self_name, WINDOW_RADIUS);
    let (_count, children) = children_window(dir, WINDOW_RADIUS, WINDOW_RADIUS);
    proof {
        assert forall|i: int| 0 <= i < peers@.len() implies {
            let off = crate::layout::peer_offset(#[trigger] peers@[i], self_index);
            1 <= off <= 2 || -2 <= off <= -1
        } by {}
    }
    LayoutInput { parent: parent_path, self_index, peers, children }
}

/// What clearing and then drawing the layout for `input` at `anchor` leaves
/// at `p`, over whatever was there before (`None` outside of it).
pub open spec fn dungeon_block(anchor: Pos, input: LayoutInput, p: Pos) -> Option<Block> {
    overlay(
        shapes_block(
            layout_shapes(anchor, input.parent is Some, input.self_index, input.peers@, input.children@),
            p,
        ),
        fill_block(Fill::Solid(air()), bounds_lo(anchor), bounds_hi(anchor), p),
    )
}

pub open spec fn zones_of(anchor: Pos, input: LayoutInput) -> Seq<(Pos, Pos, Seq<u8>)> {
    layout_zones(
        anchor,
        match input.parent {
            Some(p) => Some(p@),
            None => None,
        },
        input.self_index,
        input.peers@,
        input.children@,
    )
}

/// Clear the layout footprint at `anchor`, then draw the layout for `input`.
/// Returns the writes and the doorway zones.
pub fn draw_at(anchor: Pos, input: &LayoutInput) -> (r: (Vec<BlockWrite>, Vec<TriggerZone>))
    requires
        anchor_ok(anchor),
        input_ok(*input),
    ensures
        forall|p: Pos| #![trigger final_block(r.0@, p)] final_block(r.0@, p) == dungeon_block(anchor, *input, p),
        r.1@.map_values(|z: TriggerZone| zone_view(z)) == zones_of(anchor, *input),
{
    let mut ws: Vec<BlockWrite> = Vec::new();
    clear_layout(&mut ws, anchor);
    let ghost cleared = ws@;
    let zones = render_layout(&mut ws, anchor, &input.parent, input.self_index, &input.peers, &input.children);
    proof {
        assert forall|p: Pos| #![trigger final_block(ws@, p)] final_block(ws@, p) == dungeon_block(anchor, *input, p) by {
            assert(final_block(cleared, p) == overlay(
                fill_block(Fill::Solid(air()), bounds_lo(anchor), bounds_hi(anchor), p),
                final_block(Seq::<BlockWrite>::empty(), p),
            ));
        }
    }
    (ws, zones)
}

/// Start a visit for player `uid` at directory `path`: clear and draw the
/// layout at `anchor` (drawing comes before the player is moved there), and
/// record the session with no zone entered yet. Returns the writes and the
/// position to place the player at: `spawn_pos(anchor)`, inside the height
/// band of the current room's doorways.
pub fn enter(
    sessions: &mut OsDungeonSessions,
    uid: u64,
    path: Vec<u8>,
    origin_pos: OriginPos,
    anchor: Pos,
    input: &LayoutInput,
) -> (r: (Vec<BlockWrite>, Pos))
    requires
        anchor_ok(anchor),
        input_ok(*input),
    ensures
        forall|p: Pos| #![trigger final_block(r.0@, p)] final_block(r.0@, p) == dungeon_block(anchor, *input, p),
        r.1 == spawn_point(anchor),
        anchor.z + DOOR_Z <= r.1.z < anchor.z + DOOR_Z + DOOR_HEIGHT,
        final(sessions)@.dom() == old(sessions)@.dom().insert(uid),
        forall|k: u64| k != uid && #[trigger] old(sessions)@.contains_key(k) ==> final(sessions)@[k] == old(sessions)@[k],
        final(sessions)@[uid].origin_pos == origin_pos,
        final(sessions)@[uid].current_path@ == path@,
        final(sessions)@[uid].anchor == anchor,
        final(sessions)@[uid].zones@.map_values(|z: TriggerZone| zone_view(z)) == zones_of(anchor, *input),
        final(sessions)@[uid].last_zone is None,
{
    let (ws, zones) = draw_at(anchor, input);
    sessions.insert(uid, OsDungeonSession { origin_pos, current_path: path, anchor, zones, last_zone: None });
    (ws, spawn_pos(anchor))
}

/// End `uid`'s visit: its session is removed and the position to return the
/// player to is given back.
pub fn exit(sessions: &mut OsDungeonSessions, uid: u64) -> (r: Result<OriginPos, DungeonError>)
    ensures
        final(sessions)@ == old(sessions)@.remove(uid),
        old(sessions)@.contains_key(uid) ==> r == Ok::<OriginPos, DungeonError>(old(sessions)@[uid].origin_pos),
        !old(sessions)@.contains_key(uid) ==> r == Err::<OriginPos, DungeonError>(DungeonError::NotInDungeon),
{
    match sessions.remove(uid) {
        Some(s) => Ok(s.origin_pos),
        None => Err(DungeonError::NotInDungeon),
    }
}

/// Move `uid`'s visit to directory `target`: clear and redraw the layout at
/// the session's own anchor, and record the new directory and zones. Nothing
/// happens (`None`) when `uid` has no visit.
pub fn navigate(
    sessions: &mut OsDungeonSessions,
    uid: u64,
    target: Vec<u8>,
    input: &LayoutInput,
) -> (r: Option<Vec<BlockWrite>>)
    requires
        input_ok(*input),
        forall|k: u64| #[trigger] old(sessions)@.contains_key(k) ==> anchor_ok(old(sessions)@[k].anchor),
    ensures
        !old(sessions)@.contains_key(uid) ==> r is None && final(sessions)@ == old(sessions)@,
        old(sessions)@.contains_key(uid) ==> {
            let a = old(sessions)@[uid].anchor;
            &&& r matches Some(ws) && forall|p: Pos| #![trigger final_block(ws@, p)] final_block(ws@, p) == dungeon_block(a, *input, p)
            &&& final(sessions)@.dom() == old(sessions)@.dom()
            &&& forall|k: u64| k != uid && #[trigger] old(sessions)@.contains_key(k) ==> final(sessions)@[k] == old(sessions)@[k]
            &&& final(sessions)@[uid].origin_pos == old(sessions)@[uid].origin_pos
            &&& final(sessions)@[uid].anchor == a
            &&& final(sessions)@[uid].current_path@ == target@
            &&& final(sessions)@[uid].zones@.map_values(|z: TriggerZone| zone_view(z)) == zones_of(a, *input)
            &&& final(sessions)@[uid].last_zone is None
        },
        forall|k: u64| #[trigger] final(sessions)@.contains_key(k) ==> anchor_ok(final(sessions)@[k].anchor),
{
    let old_session = match sessions.remove(uid) {
        Some(s) => s,
        None => {
            return None;
        },
    };
    let anchor = old_session.anchor;
    let (ws, zones) = draw_at(anchor, input);
    sessions.insert(
        uid,
        OsDungeonSession {
            origin_pos: old_session.origin_pos,
            current_path: target,
            anchor,
            zones,
            last_zone: None,
        },
    );
    proof {
        assert(sessions@.dom() =~= old(sessions)@.dom());
    }
    Some(ws)
}

/// The world position `offset` away from `uid`'s anchor, whose terrain a
/// probe reads back.
pub fn probe(sessions: &OsDungeonSessions, uid: u64, offset: Pos) -> (r: Result<Pos, DungeonError>)
    requires
        sessions@.contains_key(uid) ==> {
            let a = sessions@[uid].anchor;
            &&& i32::MIN <= a.x + offset.x <= i32::MAX
            &&& i32::MIN <= a.y + offset.y <= i32::MAX
            &&& i32::MIN <= a.z + offset.z <= i32::MAX
        },
    ensures
        sessions@.contains_key(uid) ==> r == Ok::<Pos, DungeonError>(crate::layout::shift(sessions@[uid].anchor, offset.x as int, offset.y as int, offset.z as int)),
        !sessions@.contains_key(uid) ==> r == Err::<Pos, DungeonError>(DungeonError::NotInDungeon),
{
    match sessions.get(uid) {
        Some(s) => Ok(Pos { x: s.anchor.x + offset.x, y: s.anchor.y + offset.y, z: s.anchor.z + offset.z }),
        None => Err(DungeonError::NotInDungeon),
    }
}

} // verus!
