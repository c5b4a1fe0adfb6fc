//! The ASCII dungeon browser: a 2-D, 80×24 terminal view of the current
//! directory (centre room), its parent (left room) and its children (right
//! hallway), with a player `@` that walks between them.
//!
//! ```text
//!  col   0─15  │ parent directory room   (16 wide)
//!  col  16─19  │ left corridor  ▲ stairs ( 4 wide)
//!  col  20─59  │ current room            (40 wide)
//!  col  60─63  │ right corridor ▼ stairs ( 4 wide)
//!  col  64─79  │ child hallway / room    (16 wide)
//!  row   0 status bar, rows 1─22 rooms, row 23 help bar, row 11 corridor row
//! ```
use crate::text::{append, chars_of, copy_chars, decimal, decimal_spec, fit, fit_spec, fitpad, fitpad_spec};
use vstd::prelude::*;

verus! {

pub const PL: u16 = 0;
pub const PR: u16 = 15;
pub const LL: u16 = 16;
pub const CL: u16 = 20;
pub const CR: u16 = 59;
pub const RL: u16 = 60;
pub const HL: u16 = 64;
pub const HR: u16 = 79;
/// Room top and bottom wall rows.
pub const ROOM_T: u16 = 1;
pub const ROOM_B: u16 = 22;
/// First and last interior rows.
pub const INT_T: u16 = 2;
pub const INT_B: u16 = 21;
/// The corridor connection row.
pub const CORR: u16 = 11;
/// Children shown in the hallway before a "+N more" line.
pub const MAX_HALL: usize = 17;

/// A directory as the browser shows it: its path (the platform's path
/// bytes) and its path as displayed.
#[derive(Debug)]
pub struct DirRef {
    pub path: Vec<u8>,
    pub display: Vec<char>,
}

/// The browser's state.
#[derive(Debug)]
pub struct State {
    pub cwd: DirRef,
    pub parent: Option<DirRef>,
    /// Non-hidden subdirectories, sorted.
    pub children: Vec<DirRef>,
    /// Player position inside the current room (meaningful only outside the
    /// hallway).
    pub px: u16,
    pub py: u16,
    /// Whether the player has entered the child hallway.
    pub hallway: bool,
    /// Selected child in the hallway.
    pub sel: usize,
}

/// A directory change the browser asks for.
#[derive(Clone, Copy, Debug, PartialEq, Eq, Structural)]
pub enum Nav {
    Parent,
    Child(usize),
}

pub open spec fn min_hall(len: int) -> int {
    if len < MAX_HALL {
        len
    } else {
        MAX_HALL as int
    }
}

/// The state's invariant: the player stands inside the current room, and in
/// the hallway the selection is one of the shown children.
pub open spec fn wf(s: State) -> bool {
    &&& CL + 1 <= s.px <= CR - 1
    &&& INT_T <= s.py <= INT_B
    &&& s.hallway ==> s.children@.len() >= 2 && s.sel < min_hall(s.children@.len() as int)
}

/// Navigation that can actually be carried out in state `s`.
pub open spec fn nav_ok(s: State, nav: Nav) -> bool {
    match nav {
        Nav::Parent => s.parent is Some,
        Nav::Child(i) => i < s.children@.len(),
    }
}

impl State {
    /// A fresh state at directory `cwd`: the player a few rows below the top
    /// of the current room, centred, outside the hallway.
    pub fn new(cwd: DirRef, parent: Option<DirRef>, children: Vec<DirRef>) -> (s: Self)
        ensures
            s.cwd == cwd,
            s.parent == parent,
            s.children == children,
            s.px == (CL + CR) / 2,
            s.py == INT_T + 4,
            !s.hallway,
            s.sel == 0,
            wf(s),
    {
        State { cwd, parent, children, px: (CL + CR) / 2, py: INT_T + 4, hallway: false, sel: 0 }
    }

    /// Take in a new listing of the current directory: reset the player to
    /// the start position outside the hallway.
    pub fn reload(&mut self, parent: Option<DirRef>, children: Vec<DirRef>)
        ensures
            final(self).cwd == old(self).cwd,
            final(self).parent == parent,
            final(self).children == children,
            final(self).px == (CL + CR) / 2,
            final(self).py == INT_T + 4,
            !final(self).hallway,
            final(self).sel == 0,
            wf(*final(self)),
    {
        self.parent = parent;
        self.children = children;
        self.px = (CL + CR) / 2;
        self.py = INT_T + 4;
        self.hallway = false;
        self.sel = 0;
    }

    /// The path to change the working directory to for `nav`.
    pub fn nav_path(&self, nav: Nav) -> (p: &Vec<u8>)
        requires
            nav_ok(*self, nav),
        ensures
            p == (match nav {
                Nav::Parent => &self.parent->0.path,
                Nav::Child(i) => &self.children@[i as int].path,
            }),
    {
        match nav {
            Nav::Parent => &self.parent.as_ref().unwrap().path,
            Nav::Child(i) => &self.children[i].path,
        }
    }

    /// Arrive at the directory `nav` led to (after the working directory was
    /// changed to it): it becomes the current directory and the state is
    /// reloaded with its listing.
    pub fn arrive(&mut self, nav: Nav, parent: Option<DirRef>, children: Vec<DirRef>)
        requires
            nav_ok(*old(self), nav),
        ensures
            final(self).cwd == (match nav {
                Nav::Parent => old(self).parent->0,
                Nav::Child(i) => old(self).children@[i as int],
            }),
            final(self).parent == parent,
            final(self).children == children,
            final(self).px == (CL + CR) / 2,
            final(self).py == INT_T + 4,
            !final(self).hallway,
            final(self).sel == 0,
    {
        let target = match nav {
            Nav::Parent => self.parent.take().unwrap(),
            Nav::Child(i) => self.children.remove(i),
        };
        self.cwd = target;
        self.reload(parent, children);
    }
}

/// Enter the child area: straight into the only child, or into the hallway
/// with the first child selected when there are several; nothing without
/// children.
pub fn enter_child_area(s: &mut State) -> (nav: Option<Nav>)
    requires
        wf(*old(s)),
    ensures
        wf(*final(s)),
        final(s).cwd == old(s).cwd,
        final(s).parent == old(s).parent,
        final(s).children == old(s).children,
        final(s).px == old(s).px,
        final(s).py == old(s).py,
        old(s).children@.len() == 0 ==> nav is None && final(s).hallway == old(s).hallway
            && final(s).sel == old(s).sel,
        old(s).children@.len() == 1 ==> nav == Some(Nav::Child(0)) && final(s).hallway
            == old(s).hallway && final(s).sel == old(s).sel,
        old(s).children@.len() >= 2 ==> nav is None && final(s).hallway && final(s).sel == 0,
{
    if s.children.len() == 0 {
        return None;
    }
    if s.children.len() == 1 {
        Some(Nav::Child(0))
    } else {
        s.hallway = true;
        s.sel = 0;
        None
    }
}

/// Move the player by `(dx, dy)` (each -1, 0 or 1), handling walls and the
/// staircases; returns the directory change it asks for, if any.
///
/// In the hallway: left leaves it (the player reappears beside the current
/// room's right wall on the corridor row), right enters the selected child,
/// up and down move the selection within the shown children. In the current
/// room: vertical moves stay within the interior rows; walking left past the
/// interior on the corridor row ascends to the parent (if any), walking
/// right past it enters the child area (if any children).
pub fn do_move(s: &mut State, dx: i16, dy: i16) -> (nav: Option<Nav>)
    requires
        wf(*old(s)),
        -1 <= dx <= 1,
        -1 <= dy <= 1,
    ensures
        wf(*final(s)),
        final(s).cwd == old(s).cwd,
        final(s).parent == old(s).parent,
        final(s).children == old(s).children,
        nav matches Some(n) ==> nav_ok(*final(s), n),
        (final(s).px as int, final(s).py as int, final(s).hallway, final(s).sel as int, nav) == move_result(
            *old(s),
            dx as int,
            dy as int,
        ),
        old(s).hallway ==> {
            if dx == -1 && dy == 0 {
                &&& !final(s).hallway && final(s).px == CR - 1 && final(s).py == CORR
                &&& final(s).sel == old(s).sel && nav is None
            } else if dx == 1 && dy == 0 {
                &&& final(s).hallway && final(s).px == old(s).px && final(s).py == old(s).py
                &&& final(s).sel == old(s).sel && nav == Some(Nav::Child(old(s).sel))
            } else if dx == 0 && dy == -1 {
                &&& final(s).hallway && final(s).px == old(s).px && final(s).py == old(s).py
                &&& final(s).sel == (if old(s).sel > 0 { old(s).sel - 1 } else { 0 })
                &&& nav is None
            } else if dx == 0 && dy == 1 {
                &&& final(s).hallway && final(s).px == old(s).px && final(s).py == old(s).py
                &&& final(s).sel == (if old(s).sel + 1 < min_hall(old(s).children@.len() as int) {
                    old(s).sel + 1
                } else {
                    old(s).sel as int
                })
                &&& nav is None
            } else {
                &&& final(s).hallway && final(s).px == old(s).px && final(s).py == old(s).py
                &&& final(s).sel == old(s).sel && nav is None
            }
        },
        !old(s).hallway ==> {
            if dy != 0 {
                &&& final(s).py == (if INT_T <= old(s).py + dy <= INT_B {
                    old(s).py + dy
                } else {
                    old(s).py as int
                })
                &&& final(s).px == old(s).px && !final(s).hallway && final(s).sel == old(s).sel
                &&& nav is None
            } else if dx < 0 {
                if old(s).px + dx >= CL + 1 {
                    &&& final(s).px == old(s).px + dx && final(s).py == old(s).py
                    &&& !final(s).hallway && final(s).sel == old(s).sel && nav is None
                } else {
                    &&& final(s).px == old(s).px && final(s).py == old(s).py
                    &&& !final(s).hallway && final(s).sel == old(s).sel
                    &&& nav == (if old(s).py == CORR && old(s).parent is Some {
                        Some(Nav::Parent)
                    } else {
                        None
                    })
                }
            } else if dx > 0 {
                if old(s).px + dx <= CR - 1 {
                    &&& final(s).px == old(s).px + dx && final(s).py == old(s).py
                    &&& !final(s).hallway && final(s).sel == old(s).sel && nav is None
                } else if old(s).py == CORR && old(s).children@.len() > 0 {
                    &&& final(s).px == old(s).px && final(s).py == old(s).py
                    &&& old(s).children@.len() == 1 ==> nav == Some(Nav::Child(0))
                        && !final(s).hallway && final(s).sel == old(s).sel
                    &&& old(s).children@.len() >= 2 ==> nav is None && final(s).hallway
                        && final(s).sel == 0
                } else {
                    &&& final(s).px == old(s).px && final(s).py == old(s).py
                    &&& !final(s).hallway && final(s).sel == old(s).sel && nav is None
                }
            } else {
                &&& final(s).px == old(s).px && final(s).py == old(s).py
                &&& !final(s).hallway && final(s).sel == old(s).sel && nav is None
            }
        },
{
    if s.hallway {
        if dx == -1 && dy == 0 {
            s.hallway = false;
            s.px = CR - 1;
            s.py = CORR;
        } else if dx == 1 && dy == 0 {
            return Some(Nav::Child(s.sel));
        } else if dx == 0 && dy == -1 {
            if s.sel > 0 {
                s.sel = s.sel - 1;
            }
        } else if dx == 0 && dy == 1 {
            let shown = if s.children.len() < MAX_HALL { s.children.len() } else { MAX_HALL };
            let max_sel = if shown > 0 { shown - 1 } else { 0 };
            if s.sel < max_sel {
                s.sel = s.sel + 1;
            }
        }
        return None;
    }
    if dy != 0 {
        let ny = s.py as i16 + dy;
        if ny >= INT_T as i16 && ny <= INT_B as i16 {
            s.py = ny as u16;
        }
        return None;
    }
    let nx = s.px as i16 + dx;
    if dx < 0 {
        if nx >= (CL + 1) as i16 {
            s.px = nx as u16;
        } else if s.py == CORR && s.parent.is_some() {
            return Some(Nav::Parent);
        }
        None
    } else if dx > 0 {
        if nx <= (CR - 1) as i16 {
            s.px = nx as u16;
            None
        } else if s.py == CORR && s.children.len() > 0 {
            enter_child_area(s)
        } else {
            None
        }
    } else {
        None
    }
}

/// A key the browser reacts to.
#[derive(Clone, Copy, Debug, PartialEq, Eq, Structural)]
pub enum KeyCode {
    Char(char),
    Esc,
    Up,
    Down,
    Left,
    Right,
    Enter,
    Other,
}

/// What a key press leads to.
#[derive(Clone, Copy, Debug, PartialEq, Eq, Structural)]
pub enum Outcome {
    Quit,
    Continue(Option<Nav>),
}

/// Process one key press: `q`/Esc quit, `<` ascends, `>` enters the child
/// area, the arrows move, Enter in the hallway enters the selected child.
pub fn handle_key(s: &mut State, key: KeyCode) -> (out: Outcome)
    requires
        wf(*old(s)),
    ensures
        wf(*final(s)),
        final(s).cwd == old(s).cwd,
        final(s).parent == old(s).parent,
        final(s).children == old(s).children,
        out matches Outcome::Continue(Some(n)) ==> nav_ok(*final(s), n),
        (final(s).px as int, final(s).py as int, final(s).hallway, final(s).sel as int, out) == key_result(
            *old(s),
            key,
        ),
        (key == KeyCode::Char('q') || key == KeyCode::Esc) ==> out == Outcome::Quit && *final(s) == *old(s),
        key == KeyCode::Char('<') ==> *final(s) == *old(s) && out == Outcome::Continue(
            if old(s).parent is Some {
                Some(Nav::Parent)
            } else {
                None
            },
        ),
        key == KeyCode::Enter ==> *final(s) == *old(s) && out == Outcome::Continue(
            if old(s).hallway {
                Some(Nav::Child(old(s).sel))
            } else {
                None
            },
        ),
        (key != KeyCode::Char('q') && key != KeyCode::Esc && key != KeyCode::Char('<') && key != KeyCode::Char('>')
            && key != KeyCode::Up && key != KeyCode::Down && key != KeyCode::Left && key != KeyCode::Right && key
            != KeyCode::Enter) ==> *final(s) == *old(s) && out == Outcome::Continue(None),
{
    match key {
        KeyCode::Char(c) => {
            if c == 'q' {
                Outcome::Quit
            } else if c == '<' {
                if s.parent.is_some() {
                    Outcome::Continue(Some(Nav::Parent))
                } else {
                    Outcome::Continue(None)
                }
            } else if c == '>' {
                Outcome::Continue(enter_child_area(s))
            } else {
                Outcome::Continue(None)
            }
        },
        KeyCode::Esc => Outcome::Quit,
        KeyCode::Up => Outcome::Continue(do_move(s, 0, -1)),
        KeyCode::Down => Outcome::Continue(do_move(s, 0, 1)),
        KeyCode::Left => Outcome::Continue(do_move(s, -1, 0)),
        KeyCode::Right => Outcome::Continue(do_move(s, 1, 0)),
        KeyCode::Enter => {
            if s.hallway {
                Outcome::Continue(Some(Nav::Child(s.sel)))
            } else {
                Outcome::Continue(None)
            }
        },
        KeyCode::Other => Outcome::Continue(None),
    }
}

/// Where a move by `(dx, dy)` leaves the player, as `(px, py, hallway,
/// sel)`, and the directory change it asks for.
pub open spec fn move_result(s: State, dx: int, dy: int) -> (int, int, bool, int, Option<Nav>) {
    let (px, py, sel) = (s.px as int, s.py as int, s.sel as int);
    let n = s.children@.len() as int;
    if s.hallway {
        if dx == -1 && dy == 0 {
            (CR - 1, CORR as int, false, sel, None)
        } else if dx == 1 && dy == 0 {
            (px, py, true, sel, Some(Nav::Child(s.sel)))
        } else if dx == 0 && dy == -1 {
            (px, py, true, if sel > 0 { sel - 1 } else { 0 }, None)
        } else if dx == 0 && dy == 1 {
            (px, py, true, if sel + 1 < min_hall(n) { sel + 1 } else { sel }, None)
        } else {
            (px, py, true, sel, None)
        }
    } else if dy != 0 {
        (px, if INT_T <= py + dy <= INT_B { py + dy } else { py }, false, sel, None)
    } else if dx < 0 {
        if px + dx >= CL + 1 {
            (px + dx, py, false, sel, None)
        } else {
            (px, py, false, sel, if py == CORR && s.parent is Some { Some(Nav::Parent) } else { None })
        }
    } else if dx > 0 {
        if px + dx <= CR - 1 {
            (px + dx, py, false, sel, None)
        } else if py == CORR && n > 0 {
            if n == 1 {
                (px, py, false, sel, Some(Nav::Child(0)))
            } else {
                (px, py, true, 0, None)
            }
        } else {
            (px, py, false, sel, None)
        }
    } else {
        (px, py, false, sel, None)
    }
}

/// A move's result as the outcome of a key press.
pub open spec fn continued(m: (int, int, bool, int, Option<Nav>)) -> (int, int, bool, int, Outcome) {
    (m.0, m.1, m.2, m.3, Outcome::Continue(m.4))
}

/// Where a key press leaves the player, as `(px, py, hallway, sel)`, and its
/// outcome.
pub open spec fn key_result(s: State, key: KeyCode) -> (int, int, bool, int, Outcome) {
    let (px, py, h, sel) = (s.px as int, s.py as int, s.hallway, s.sel as int);
    let n = s.children@.len();
    match key {
        KeyCode::Char(c) => if c == 'q' {
            (px, py, h, sel, Outcome::Quit)
        } else if c == '<' {
            (px, py, h, sel, Outcome::Continue(if s.parent is Some { Some(Nav::Parent) } else { None }))
        } else if c == '>' {
            if n == 0 {
                (px, py, h, sel, Outcome::Continue(None))
            } else if n == 1 {
                (px, py, h, sel, Outcome::Continue(Some(Nav::Child(0))))
            } else {
                (px, py, true, 0, Outcome::Continue(None))
            }
        } else {
            (px, py, h, sel, Outcome::Continue(None))
        },
        KeyCode::Esc => (px, py, h, sel, Outcome::Quit),
        KeyCode::Up => continued(move_result(s, 0, -1)),
        KeyCode::Down => continued(move_result(s, 0, 1)),
        KeyCode::Left => continued(move_result(s, -1, 0)),
        KeyCode::Right => continued(move_result(s, 1, 0)),
        KeyCode::Enter => (px, py, h, sel, Outcome::Continue(if h { Some(Nav::Child(s.sel)) } else { None })),
        KeyCode::Other => (px, py, h, sel, Outcome::Continue(None)),
    }
}

/// The arrow keys move the player one step in their direction. In the
/// current room Up and Down move one row (not past the first or last
/// interior row), Left and Right one column, and walking left out of the
/// room on the corridor row ascends to the parent, walking right out of it
/// enters the child area. In the hallway Up and Down move the selection
/// (within the shown children), Left leaves the hallway beside the current
/// room's right wall, Right enters the selected child.
pub proof fn arrow_keys_move_one_step(s: State)
    requires
        wf(s),
    ensures
        ({
            let (px, py, sel) = (s.px as int, s.py as int, s.sel as int);
            let n = s.children@.len() as int;
            &&& !s.hallway ==> key_result(s, KeyCode::Up) == (
                px,
                if py > INT_T { py - 1 } else { py },
                false,
                sel,
                Outcome::Continue(None),
            )
            &&& !s.hallway ==> key_result(s, KeyCode::Down) == (
                px,
                if py < INT_B { py + 1 } else { py },
                false,
                sel,
                Outcome::Continue(None),
            )
            &&& !s.hallway ==> key_result(s, KeyCode::Left) == if px > CL + 1 {
                (px - 1, py, false, sel, Outcome::Continue(None))
            } else {
                (px, py, false, sel, Outcome::Continue(
                    if py == CORR && s.parent is Some { Some(Nav::Parent) } else { None },
                ))
            }
            &&& !s.hallway ==> key_result(s, KeyCode::Right) == if px < CR - 1 {
                (px + 1, py, false, sel, Outcome::Continue(None))
            } else if py == CORR && n == 1 {
                (px, py, false, sel, Outcome::Continue(Some(Nav::Child(0))))
            } else if py == CORR && n >= 2 {
                (px, py, true, 0, Outcome::Continue(None))
            } else {
                (px, py, false, sel, Outcome::Continue(None))
            }
            &&& s.hallway ==> key_result(s, KeyCode::Up) == (
                px,
                py,
                true,
                if sel > 0 { sel - 1 } else { 0 },
                Outcome::Continue(None),
            )
            &&& s.hallway ==> key_result(s, KeyCode::Down) == (
                px,
                py,
                true,
                if sel + 1 < n && sel + 1 < MAX_HALL { sel + 1 } else { sel },
                Outcome::Continue(None),
            )
            &&& s.hallway ==> key_result(s, KeyCode::Left) == (
                CR - 1,
                CORR as int,
                false,
                sel,
                Outcome::Continue(None),
            )
            &&& s.hallway ==> key_result(s, KeyCode::Right) == (
                px,
                py,
                true,
                sel,
                Outcome::Continue(Some(Nav::Child(s.sel))),
            )
        }),
{
}

/// `>` enters the child area from anywhere: with no children nothing
/// happens; with one child it is entered directly; with several the player
/// moves into the hallway with the first child selected.
pub proof fn child_key_enters_the_child_area(s: State)
    requires
        wf(s),
    ensures
        ({
            let (px, py, h, sel) = (s.px as int, s.py as int, s.hallway, s.sel as int);
            let n = s.children@.len();
            &&& n == 0 ==> key_result(s, KeyCode::Char('>')) == (px, py, h, sel, Outcome::Continue(None))
            &&& n == 1 ==> key_result(s, KeyCode::Char('>')) == (
                px,
                py,
                h,
                sel,
                Outcome::Continue(Some(Nav::Child(0))),
            )
            &&& n >= 2 ==> key_result(s, KeyCode::Char('>')) == (px, py, true, 0int, Outcome::Continue(None))
        }),
{
}

} // verus!
