//! What the ASCII dungeon browser draws: a list of positioned, styled text
//! runs for one frame, drawn in order over a cleared screen.
use crate::browser::{
    min_hall, wf, DirRef, State, CL, CORR, CR, HL, HR, INT_B, INT_T, LL, MAX_HALL, PL, PR, RL, ROOM_B,
    ROOM_T,
};
use crate::text::{
    append, chars_of, copy_chars, decimal, decimal_spec, fit, fit_spec, fitpad, fitpad_spec, spaces,
};
use crate::paths::{path_basename, path_name};
use vstd::prelude::*;

verus! {

/// Terminal colours the browser uses.
#[derive(Clone, Copy, Debug, PartialEq, Eq, Structural)]
pub enum Color {
    Black,
    DarkBlue,
    DarkCyan,
    Cyan,
    DarkGreen,
    Green,
    DarkGrey,
    Grey,
    White,
    Yellow,
    DarkYellow,
}

/// Foreground, background and boldness of a text run (unset colours are the
/// terminal's defaults).
#[derive(Clone, Copy, Debug, PartialEq, Eq, Structural)]
pub struct Style {
    pub fg: Option<Color>,
    pub bg: Option<Color>,
    pub bold: bool,
}

/// Print `text` starting at column `col`, row `row`, in `style`.
#[derive(Debug)]
pub struct DrawOp {
    pub col: u16,
    pub row: u16,
    pub text: Vec<char>,
    pub style: Style,
}

pub open spec fn op_view(o: DrawOp) -> (u16, u16, Seq<char>, Style) {
    (o.col, o.row, o.text@, o.style)
}

pub open spec fn views(ops: Seq<DrawOp>) -> Seq<(u16, u16, Seq<char>, Style)> {
    ops.map_values(|o: DrawOp| op_view(o))
}

pub open spec fn fg(c: Color) -> Style {
    Style { fg: Some(c), bg: None, bold: false }
}

pub open spec fn fg_bold(c: Color) -> Style {
    Style { fg: Some(c), bg: None, bold: true }
}

fn style(fg: Option<Color>, bg: Option<Color>, bold: bool) -> (s: Style)
    ensures
        s == (Style { fg, bg, bold }),
{
    Style { fg, bg, bold }
}

fn emit(ops: &mut Vec<DrawOp>, col: u16, row: u16, text: Vec<char>, st: Style)
    ensures
        views(final(ops)@) == views(old(ops)@).push((col, row, text@, st)),
{
    let ghost before = ops@;
    ops.push(DrawOp { col, row, text, style: st });
    assert(views(ops@) =~= views(before).push((col, row, text@, st)));
}

/// `n` copies of `c`.
pub open spec fn repeat(c: char, n: int) -> Seq<char> {
    Seq::new(if n < 0 { 0 } else { n as nat }, |i: int| c)
}

/// The side walls of a box, rows `r..end`.
pub open spec fn sides(col: u16, w: int, r: int, end: int, c: Color) -> Seq<(u16, u16, Seq<char>, Style)>
    decreases end - r,
{
    if r >= end {
        Seq::empty()
    } else {
        seq![(col, r as u16, "│"@, fg(c)), ((col + w - 1) as u16, r as u16, "│"@, fg(c))] + sides(
            col,
            w,
            r + 1,
            end,
            c,
        )
    }
}

/// A rectangular box of box-drawing characters.
pub open spec fn box_ops(col: u16, row: u16, w: int, h: int, c: Color) -> Seq<(u16, u16, Seq<char>, Style)> {
    let bar = repeat('─', w - 2);
    seq![
        (col, row, seq!['┌'] + bar + seq!['┐'], fg(c)),
        (col, (row + h - 1) as u16, seq!['└'] + bar + seq!['┘'], fg(c)),
    ] + sides(col, w, row + 1, row + h - 1, c)
}

fn draw_box(ops: &mut Vec<DrawOp>, col: u16, row: u16, w: u16, h: u16, c: Color)
    requires
        2 <= w,
        col + w <= 80,
        2 <= h,
        row + h <= 24,
    ensures
        views(final(ops)@) == views(old(ops)@) + box_ops(col, row, w as int, h as int, c),
{
    let ghost before = views(ops@);
    let inner = w - 2;
    let mut bar: Vec<char> = Vec::new();
    let mut i: u16 = 0;
    while i < inner
        invariant
            i <= inner,
            bar@ == repeat('─', i as int),
        decreases inner - i,
    {
        bar.push('─');
        i = i + 1;
        assert(bar@ =~= repeat('─', i as int));
    }
    let mut top: Vec<char> = Vec::new();
    top.push('┌');
    append(&mut top, &bar);
    top.push('┐');
    let mut bottom: Vec<char> = Vec::new();
    bottom.push('└');
    append(&mut bottom, &bar);
    bottom.push('┘');
    emit(ops, col, row, top, style(Some(c), None, false));
    emit(ops, col, row + h - 1, bottom, style(Some(c), None, false));
    let ghost head = views(ops@);
    assert(top@ =~= seq!['┌'] + bar@ + seq!['┐']);
    assert(bottom@ =~= seq!['└'] + bar@ + seq!['┘']);
    let mut r: u16 = row + 1;
    while r < row + h - 1
        invariant
            row + 1 <= r <= row + h - 1,
            row + h <= 24,
            col + w <= 80,
            2 <= w,
            views(ops@) + sides(col, w as int, r as int, row + h - 1, c) == head + sides(col, w as int, row + 1, row + h - 1, c),
        decreases row + h - 1 - r,
    {
        let ghost pre = views(ops@);
        emit(ops, col, r, chars_of("│"), style(Some(c), None, false));
        emit(ops, col + w - 1, r, chars_of("│"), style(Some(c), None, false));
        assert(sides(col, w as int, r as int, row + h - 1, c) == seq![(col, r, "│"@, fg(c)), ((col + w - 1) as u16, r, "│"@, fg(c))] + sides(col, w as int, r + 1, row + h - 1, c));
        assert(views(ops@) =~= pre + seq![(col, r, "│"@, fg(c)), ((col + w - 1) as u16, r, "│"@, fg(c))]);
        r = r + 1;
    }
    assert(sides(col, w as int, r as int, row + h - 1, c) =~= Seq::empty());
}

/// The directory's name as shown: the last component of its path, or `/`
/// for the filesystem root.
pub open spec fn basename_spec(d: DirRef) -> Seq<char> {
    path_name(d.path@)
}

pub fn basename(d: &DirRef) -> (r: Vec<char>)
    ensures
        r@ == basename_spec(*d),
{
    path_basename(&d.path)
}

pub open spec fn status_ops(s: State) -> Seq<(u16, u16, Seq<char>, Style)> {
    seq![
        (
            0u16,
            0u16,
            fitpad_spec(" PSY DUNGEON  "@ + s.cwd.display@ + "  "@, 80),
            Style { fg: Some(Color::White), bg: Some(Color::DarkBlue), bold: true },
        ),
    ]
}

pub open spec fn help_text() -> Seq<char> {
    " Arrows:Move  <:Ascend  >:Descend  Enter:Enter room  q:Quit"@
}

pub open spec fn help_ops() -> Seq<(u16, u16, Seq<char>, Style)> {
    seq![
        (
            0u16,
            23u16,
            fitpad_spec(help_text(), 80),
            Style { fg: Some(Color::Grey), bg: Some(Color::DarkGrey), bold: false },
        ),
    ]
}

fn draw_status(ops: &mut Vec<DrawOp>, s: &State)
    ensures
        views(final(ops)@) == views(old(ops)@) + status_ops(*s),
{
    let ghost before = views(ops@);
    let mut label = chars_of(" PSY DUNGEON  ");
    append(&mut label, &s.cwd.display);
    let tail = chars_of("  ");
    append(&mut label, &tail);
    emit(ops, 0, 0, fitpad(&label, 80), style(Some(Color::White), Some(Color::DarkBlue), true));
    assert(views(ops@) =~= before + status_ops(*s));
}

fn draw_help(ops: &mut Vec<DrawOp>)
    ensures
        views(final(ops)@) == views(old(ops)@) + help_ops(),
{
    let ghost before = views(ops@);
    let msg = chars_of(" Arrows:Move  <:Ascend  >:Descend  Enter:Enter room  q:Quit");
    emit(ops, 0, 23, fitpad(&msg, 80), style(Some(Color::Grey), Some(Color::DarkGrey), false));
    assert(views(ops@) =~= before + help_ops());
}

pub open spec fn parent_room_ops(s: State) -> Seq<(u16, u16, Seq<char>, Style)> {
    match s.parent {
        Some(p) => box_ops(PL, ROOM_T, PR - PL + 1, ROOM_B - ROOM_T + 1, Color::DarkCyan) + seq![
            ((PL + 2) as u16, INT_T, fit_spec("PARENT DIR"@, 12), fg_bold(Color::Cyan)),
            ((PL + 1) as u16, (INT_T + 2) as u16, fit_spec(basename_spec(p), 14), fg(Color::DarkCyan)),
            ((PL + 1) as u16, (CORR - 2) as u16, fit_spec("< ascend"@, 14), fg(Color::DarkGrey)),
        ],
        None => box_ops(PL, ROOM_T, PR - PL + 1, ROOM_B - ROOM_T + 1, Color::DarkGrey) + seq![
            ((PL + 2) as u16, CORR, fit_spec("[root]"@, 12), fg(Color::DarkGrey)),
        ],
    }
}

fn draw_parent_room(ops: &mut Vec<DrawOp>, s: &State)
    ensures
        views(final(ops)@) == views(old(ops)@) + parent_room_ops(*s),
{
    let ghost before = views(ops@);
    match &s.parent {
        Some(p) => {
            draw_box(ops, PL, ROOM_T, PR - PL + 1, ROOM_B - ROOM_T + 1, Color::DarkCyan);
            let ghost mid = views(ops@);
            emit(ops, PL + 2, INT_T, fit(&chars_of("PARENT DIR"), 12), style(Some(Color::Cyan), None, true));
            let name = basename(p);
            emit(ops, PL + 1, INT_T + 2, fit(&name, 14), style(Some(Color::DarkCyan), None, false));
            emit(ops, PL + 1, CORR - 2, fit(&chars_of("< ascend"), 14), style(Some(Color::DarkGrey), None, false));
            assert(views(ops@) =~= before + parent_room_ops(*s));
        },
        None => {
            draw_box(ops, PL, ROOM_T, PR - PL + 1, ROOM_B - ROOM_T + 1, Color::DarkGrey);
            emit(ops, PL + 2, CORR, fit(&chars_of("[root]"), 12), style(Some(Color::DarkGrey), None, false));
            assert(views(ops@) =~= before + parent_room_ops(*s));
        },
    }
}

/// The hint under the current room's name.
pub open spec fn hint_spec(n: nat) -> Seq<char> {
    if n == 0 {
        " no subdirectories"@
    } else if n == 1 {
        " 1 subdirectory  >"@
    } else {
        " "@ + decimal_spec(n) + " subdirectories  >"@
    }
}

pub open spec fn current_room_ops(s: State) -> Seq<(u16, u16, Seq<char>, Style)> {
    box_ops(CL, ROOM_T, CR - CL + 1, ROOM_B - ROOM_T + 1, Color::White) + seq![
        ((CL + 2) as u16, INT_T, fit_spec(basename_spec(s.cwd), 36), fg_bold(Color::Yellow)),
        ((CL + 1) as u16, (INT_T + 1) as u16, fit_spec(hint_spec(s.children@.len()), 38), fg(Color::DarkGrey)),
    ] + (if s.parent is Some {
        seq![((CL + 2) as u16, CORR, fit_spec("< parent"@, 10), fg(Color::DarkGrey))]
    } else {
        Seq::empty()
    }) + (if s.children@.len() > 0 {
        seq![((CR - 12) as u16, CORR, fit_spec("children >"@, 10), fg(Color::DarkGrey))]
    } else {
        Seq::empty()
    })
}

fn hint(n: usize) -> (r: Vec<char>)
    ensures
        r@ == hint_spec(n as nat),
{
    if n == 0 {
        chars_of(" no subdirectories")
    } else if n == 1 {
        chars_of(" 1 subdirectory  >")
    } else {
        let mut r = chars_of(" ");
        append(&mut r, &decimal(n));
        append(&mut r, &chars_of(" subdirectories  >"));
        r
    }
}

fn draw_current_room(ops: &mut Vec<DrawOp>, s: &State)
    ensures
        views(final(ops)@) == views(old(ops)@) + current_room_ops(*s),
{
    let ghost before = views(ops@);
    draw_box(ops, CL, ROOM_T, CR - CL + 1, ROOM_B - ROOM_T + 1, Color::White);
    let name = basename(&s.cwd);
    emit(ops, CL + 2, INT_T, fit(&name, 36), style(Some(Color::Yellow), None, true));
    emit(ops, CL + 1, INT_T + 1, fit(&hint(s.children.len()), 38), style(Some(Color::DarkGrey), None, false));
    let ghost mid = views(ops@);
    if s.parent.is_some() {
        emit(ops, CL + 2, CORR, fit(&chars_of("< parent"), 10), style(Some(Color::DarkGrey), None, false));
    }
    let ghost mid2 = views(ops@);
    if s.children.len() > 0 {
        emit(ops, CR - 12, CORR, fit(&chars_of("children >"), 10), style(Some(Color::DarkGrey), None, false));
    }
    assert(views(ops@) =~= before + current_room_ops(*s));
}

/// One hallway entry: a selection marker, `>`, two spaces, the child's name.
pub open spec fn entry_text(s: State, i: int) -> Seq<char> {
    let is_sel = s.hallway && i == s.sel;
    fitpad_spec(
        seq![if is_sel { '@' } else { ' ' }] + ">  "@ + fit_spec(basename_spec(s.children@[i]), 11),
        14,
    )
}

pub open spec fn entry_style(s: State, i: int) -> Style {
    if s.hallway && i == s.sel {
        Style { fg: Some(Color::Black), bg: Some(Color::DarkYellow), bold: true }
    } else {
        fg(if s.hallway { Color::White } else { Color::DarkGrey })
    }
}

/// The hallway entries for children `i..shown`.
pub open spec fn entry_ops(s: State, i: int, shown: int) -> Seq<(u16, u16, Seq<char>, Style)>
    decreases shown - i,
{
    if i >= shown {
        Seq::empty()
    } else {
        seq![((HL + 1) as u16, (INT_T + 2 + i) as u16, entry_text(s, i), entry_style(s, i))]
            + entry_ops(s, i + 1, shown)
    }
}

pub open spec fn child_area_ops(s: State) -> Seq<(u16, u16, Seq<char>, Style)> {
    let n = s.children@.len() as int;
    if n == 0 {
        box_ops(HL, ROOM_T, HR - HL + 1, ROOM_B - ROOM_T + 1, Color::DarkGrey) + seq![
            ((HL + 1) as u16, CORR, fit_spec("(no subdirs)"@, 14), fg(Color::DarkGrey)),
        ]
    } else {
        let shown = if n < MAX_HALL { n } else { MAX_HALL as int };
        box_ops(
            HL,
            ROOM_T,
            HR - HL + 1,
            ROOM_B - ROOM_T + 1,
            if s.hallway { Color::White } else { Color::DarkGreen },
        ) + seq![
            (
                (HL + 2) as u16,
                INT_T,
                fit_spec(if n == 1 { "CHILD DIR"@ } else { "HALLWAY"@ }, 12),
                fg_bold(if s.hallway { Color::Green } else { Color::DarkGreen }),
            ),
        ] + entry_ops(s, 0, shown) + (if n > MAX_HALL {
            seq![
                (
                    (HL + 1) as u16,
                    (INT_T + 2 + MAX_HALL) as u16,
                    fit_spec("+"@ + decimal_spec((n - MAX_HALL) as nat) + " more"@, 14),
                    fg(Color::DarkGrey),
                ),
            ]
        } else {
            Seq::empty()
        })
    }
}

fn draw_child_area(ops: &mut Vec<DrawOp>, s: &State)
    ensures
        views(final(ops)@) == views(old(ops)@) + child_area_ops(*s),
{
    let ghost before = views(ops@);
    let n = s.children.len();
    if n == 0 {
        draw_box(ops, HL, ROOM_T, HR - HL + 1, ROOM_B - ROOM_T + 1, Color::DarkGrey);
        emit(ops, HL + 1, CORR, fit(&chars_of("(no subdirs)"), 14), style(Some(Color::DarkGrey), None, false));
        assert(views(ops@) =~= before + child_area_ops(*s));
        return;
    }
    let box_color = if s.hallway { Color::White } else { Color::DarkGreen };
    draw_box(ops, HL, ROOM_T, HR - HL + 1, ROOM_B - ROOM_T + 1, box_color);
    let header = if n == 1 { chars_of("CHILD DIR") } else { chars_of("HALLWAY") };
    let hdr_color = if s.hallway { Color::Green } else { Color::DarkGreen };
    emit(ops, HL + 2, INT_T, fit(&header, 12), style(Some(hdr_color), None, true));
    let ghost head = views(ops@);
    let shown = if n < MAX_HALL { n } else { MAX_HALL };
    let mut i: usize = 0;
    while i < shown
        invariant
            i <= shown,
            shown <= MAX_HALL,
            shown <= s.children@.len(),
            shown == (if s.children@.len() < MAX_HALL { s.children@.len() } else { MAX_HALL as nat }),
            views(ops@) + entry_ops(*s, i as int, shown as int) == head + entry_ops(*s, 0, shown as int),
        decreases shown - i,
    {
        let ghost pre = views(ops@);
        let row = INT_T + 2 + i as u16;
        let name = basename(&s.children[i]);
        let is_sel = s.hallway && i == s.sel;
        let mut entry: Vec<char> = Vec::new();
        entry.push(if is_sel { '@' } else { ' ' });
        append(&mut entry, &chars_of(">  "));
        append(&mut entry, &fit(&name, 11));
        let padded = fitpad(&entry, 14);
        let st = if is_sel {
            style(Some(Color::Black), Some(Color::DarkYellow), true)
        } else {
            style(Some(if s.hallway { Color::White } else { Color::DarkGrey }), None, false)
        };
        emit(ops, HL + 1, row, padded, st);
        proof {
            assert(entry@ =~= seq![if is_sel { '@' } else { ' ' }] + ">  "@ + fit_spec(basename_spec(s.children@[i as int]), 11));
            assert(entry_ops(*s, i as int, shown as int) == seq![((HL + 1) as u16, (INT_T + 2 + i) as u16, entry_text(*s, i as int), entry_style(*s, i as int))]
                + entry_ops(*s, i + 1, shown as int));
            assert(views(ops@) =~= pre + seq![((HL + 1) as u16, (INT_T + 2 + i) as u16, entry_text(*s, i as int), entry_style(*s, i as int))]);
        }
        i = i + 1;
    }
    let ghost listed = views(ops@);
    if n > MAX_HALL {
        let mut more = chars_of("+");
        append(&mut more, &decimal(n - MAX_HALL));
        append(&mut more, &chars_of(" more"));
        emit(ops, HL + 1, INT_T + 2 + MAX_HALL as u16, fit(&more, 14), style(Some(Color::DarkGrey), None, false));
    }
    assert(views(ops@) =~= before + child_area_ops(*s));
}

pub open spec fn left_corridor_ops() -> Seq<(u16, u16, Seq<char>, Style)> {
    seq![
        (PR, CORR, "├"@, fg(Color::DarkCyan)),
        (LL, CORR, "─"@, fg(Color::DarkCyan)),
        ((LL + 1) as u16, CORR, "▲"@, fg_bold(Color::Cyan)),
        ((LL + 2) as u16, CORR, "──"@, fg(Color::DarkCyan)),
        (CL, CORR, "┤"@, fg(Color::DarkGrey)),
    ]
}

pub open spec fn right_corridor_ops() -> Seq<(u16, u16, Seq<char>, Style)> {
    seq![
        (CR, CORR, "├"@, fg(Color::DarkGrey)),
        (RL, CORR, "──"@, fg(Color::DarkGreen)),
        ((RL + 2) as u16, CORR, "▼"@, fg_bold(Color::Green)),
        ((RL + 3) as u16, CORR, "─"@, fg(Color::DarkGreen)),
        (HL, CORR, "┤"@, fg(Color::DarkGrey)),
    ]
}

fn draw_left_corridor(ops: &mut Vec<DrawOp>)
    ensures
        views(final(ops)@) == views(old(ops)@) + left_corridor_ops(),
{
    let ghost before = views(ops@);
    emit(ops, PR, CORR, chars_of("├"), style(Some(Color::DarkCyan), None, false));
    emit(ops, LL, CORR, chars_of("─"), style(Some(Color::DarkCyan), None, false));
    emit(ops, LL + 1, CORR, chars_of("▲"), style(Some(Color::Cyan), None, true));
    emit(ops, LL + 2, CORR, chars_of("──"), style(Some(Color::DarkCyan), None, false));
    emit(ops, CL, CORR, chars_of("┤"), style(Some(Color::DarkGrey), None, false));
    assert(views(ops@) =~= before + left_corridor_ops());
}

fn draw_right_corridor(ops: &mut Vec<DrawOp>)
    ensures
        views(final(ops)@) == views(old(ops)@) + right_corridor_ops(),
{
    let ghost before = views(ops@);
    emit(ops, CR, CORR, chars_of("├"), style(Some(Color::DarkGrey), None, false));
    emit(ops, RL, CORR, chars_of("──"), style(Some(Color::DarkGreen), None, false));
    emit(ops, RL + 2, CORR, chars_of("▼"), style(Some(Color::Green), None, true));
    emit(ops, RL + 3, CORR, chars_of("─"), style(Some(Color::DarkGreen), None, false));
    emit(ops, HL, CORR, chars_of("┤"), style(Some(Color::DarkGrey), None, false));
    assert(views(ops@) =~= before + right_corridor_ops());
}

pub open spec fn player_ops(s: State) -> Seq<(u16, u16, Seq<char>, Style)> {
    if s.hallway {
        Seq::empty()
    } else {
        seq![(s.px, s.py, "@"@, fg_bold(Color::Yellow))]
    }
}

/// Everything drawn for one frame, in order, after clearing the screen: the
/// status bar, the help bar, the parent room, the current room, the child
/// area, the corridors (last, so they open the room walls they cross), and
/// the player.
pub open spec fn frame_ops(s: State) -> Seq<(u16, u16, Seq<char>, Style)> {
    status_ops(s) + help_ops() + parent_room_ops(s) + current_room_ops(s) + child_area_ops(s) + (
    if s.parent is Some {
        left_corridor_ops()
    } else {
        Seq::empty()
    }) + (if s.children@.len() > 0 {
        right_corridor_ops()
    } else {
        Seq::empty()
    }) + player_ops(s)
}

/// The frame for state `s`.
pub fn render(s: &State) -> (ops: Vec<DrawOp>)
    ensures
        views(ops@) == frame_ops(*s),
{
    let mut ops: Vec<DrawOp> = Vec::new();
    draw_status(&mut ops, s);
    draw_help(&mut ops);
    draw_parent_room(&mut ops, s);
    draw_current_room(&mut ops, s);
    draw_child_area(&mut ops, s);
    let ghost mid = views(ops@);
    if s.parent.is_some() {
        draw_left_corridor(&mut ops);
    }
    let ghost mid2 = views(ops@);
    if s.children.len() > 0 {
        draw_right_corridor(&mut ops);
    }
    let ghost mid3 = views(ops@);
    if !s.hallway {
        emit(&mut ops, s.px, s.py, chars_of("@"), style(Some(Color::Yellow), None, true));
    }
    assert(views(ops@) =~= frame_ops(*s));
    ops
}

/// Every piece of a box's sides is a `│` in the box's colour.
proof fn lemma_sides(col: u16, w: int, r: int, end: int, c: Color)
    ensures
        forall|k: int|
            0 <= k < sides(col, w, r, end, c).len() ==> (#[trigger] sides(col, w, r, end, c)[k]).2 == "│"@
                && sides(col, w, r, end, c)[k].3 == fg(c),
    decreases end - r,
{
    if r < end {
        lemma_sides(col, w, r + 1, end, c);
        let head = seq![(col, r as u16, "│"@, fg(c)), ((col + w - 1) as u16, r as u16, "│"@, fg(c))];
        let rest = sides(col, w, r + 1, end, c);
        assert forall|k: int| 0 <= k < (head + rest).len() implies (#[trigger] (head + rest)[k]).2 == "│"@ && (
        head + rest)[k].3 == fg(c) by {
            if k >= 2 {
                assert((head + rest)[k] == rest[k - 2]);
            }
        }
    }
}

/// The hallway entries from child `i` on: one per child, at its row.
proof fn lemma_entry_ops(s: State, i: int, shown: int)
    requires
        0 <= i <= shown,
    ensures
        entry_ops(s, i, shown).len() == shown - i,
        forall|j: int|
            0 <= j < shown - i ==> #[trigger] entry_ops(s, i, shown)[j] == (
                (HL + 1) as u16,
                (INT_T + 2 + i + j) as u16,
                entry_text(s, i + j),
                entry_style(s, i + j),
            ),
    decreases shown - i,
{
    if i < shown {
        lemma_entry_ops(s, i + 1, shown);
        let head = seq![((HL + 1) as u16, (INT_T + 2 + i) as u16, entry_text(s, i), entry_style(s, i))];
        let rest = entry_ops(s, i + 1, shown);
        assert forall|j: int| 0 <= j < shown - i implies #[trigger] (head + rest)[j] == (
            (HL + 1) as u16,
            (INT_T + 2 + i + j) as u16,
            entry_text(s, i + j),
            entry_style(s, i + j),
        ) by {
            if j >= 1 {
                assert((head + rest)[j] == rest[j - 1]);
            }
        }
    }
}

/// A text fitted and padded to `width` (at least 2) starts as it did.
proof fn lemma_fitpad_first(t: Seq<char>, width: int)
    requires
        t.len() >= 1,
        width >= 2,
    ensures
        fitpad_spec(t, width).len() == width,
        fitpad_spec(t, width)[0] == t[0],
{
    let f = fit_spec(t, width);
    assert(f[0] == t[0]);
    if f.len() < width {
        assert((f + spaces(width - f.len()))[0] == f[0]);
    }
}

/// A text fitted to `width` (at least 2) starts as it did.
proof fn lemma_fit_first(t: Seq<char>, width: int)
    requires
        t.len() >= 1,
        width >= 2,
    ensures
        fit_spec(t, width).len() >= 1,
        fit_spec(t, width)[0] == t[0],
{
}

/// `ops` draw, at the start of row `INT_T + 2 + i` of the hallway, a
/// 14-character entry for child `i` that starts with the `@` marker and is
/// in the selected style exactly when the player is in the hallway of `s`
/// with child `i` selected.
pub open spec fn shows_entry(ops: Seq<(u16, u16, Seq<char>, Style)>, s: State, i: int) -> bool {
    let marked = s.hallway && i == s.sel;
    exists|k: int|
        {
            &&& 0 <= k < ops.len()
            &&& (#[trigger] ops[k]).0 == HL + 1
            &&& ops[k].1 == INT_T + 2 + i
            &&& ops[k].2.len() == 14
            &&& (ops[k].2[0] == '@' <==> marked)
            &&& (ops[k].3.bg == Some(Color::DarkYellow) <==> marked)
        }
}

/// The hallway marks only the selection: each shown child has an entry on
/// its own row of the child area, and an entry carries the `@` marker and
/// the selected style exactly when the player is in the hallway and that
/// child is selected. Nothing else in the child area starts with `@` or is
/// drawn in the selected style, so outside the hallway no entry is marked.
pub proof fn hallway_marks_only_the_selection(s: State)
    requires
        wf(s),
    ensures
        ({
            let ops = child_area_ops(s);
            let shown = min_hall(s.children@.len() as int);
            &&& forall|i: int| 0 <= i < shown ==> #[trigger] shows_entry(ops, s, i)
            &&& forall|k: int|
                0 <= k < ops.len() && (#[trigger] ops[k]).3.bg == Some(Color::DarkYellow) ==> s.hallway
                    && ops[k].0 == HL + 1 && ops[k].1 == INT_T + 2 + s.sel
            &&& forall|k: int|
                0 <= k < ops.len() && (#[trigger] ops[k]).2.len() > 0 && ops[k].2[0] == '@' ==> s.hallway
                    && ops[k].0 == HL + 1 && ops[k].1 == INT_T + 2 + s.sel
        }),
{
    let ops = child_area_ops(s);
    let n = s.children@.len() as int;
    let shown = min_hall(n);
    reveal_strlit("│");
    reveal_strlit("(no subdirs)");
    reveal_strlit("CHILD DIR");
    reveal_strlit("HALLWAY");
    reveal_strlit("+");
    reveal_strlit(">  ");
    let color = if n == 0 { Color::DarkGrey } else if s.hallway { Color::White } else { Color::DarkGreen };
    let bx = box_ops(HL, ROOM_T, HR - HL + 1, ROOM_B - ROOM_T + 1, color);
    let sd = sides(HL, (HR - HL + 1) as int, ROOM_T + 1, ROOM_T + (ROOM_B - ROOM_T + 1) - 1, color);
    lemma_sides(HL, (HR - HL + 1) as int, ROOM_T + 1, ROOM_T + (ROOM_B - ROOM_T + 1) - 1, color);
    assert forall|k: int| 0 <= k < bx.len() implies (#[trigger] bx[k]).3.bg is None && bx[k].2.len() > 0 && bx[k].2[0]
        != '@' by {
        if k >= 2 {
            assert(bx[k] == sd[k - 2]);
        }
    }
    lemma_entry_ops(s, 0, shown);
    let es = entry_ops(s, 0, shown);
    assert forall|i: int| 0 <= i < shown implies entry_text(s, i).len() == 14 && (entry_text(s, i)[0] == '@'
        <==> (s.hallway && i == s.sel)) by {
        let t = seq![if (s.hallway && i == s.sel) { '@' } else { ' ' }] + ">  "@ + fit_spec(basename_spec(s.children@[i]), 11);
        lemma_fitpad_first(t, 14);
    }
    if n == 0 {
        assert(shown == 0);
        let tail = seq![((HL + 1) as u16, CORR, fit_spec("(no subdirs)"@, 14), fg(Color::DarkGrey))];
        assert(ops == bx + tail);
        assert forall|k: int| 0 <= k < ops.len() implies (#[trigger] ops[k]).3.bg is None && !(ops[k].2.len() > 0
            && ops[k].2[0] == '@') by {
            if k < bx.len() {
                assert(ops[k] == bx[k]);
            } else {
                assert(ops[k] == tail[0]);
            }
        }
    } else {
        let hdr = seq![
            (
                (HL + 2) as u16,
                INT_T,
                fit_spec(if n == 1 { "CHILD DIR"@ } else { "HALLWAY"@ }, 12),
                fg_bold(if s.hallway { Color::Green } else { Color::DarkGreen }),
            ),
        ];
        lemma_fit_first(if n == 1 { "CHILD DIR"@ } else { "HALLWAY"@ }, 12);
        let more = if n > MAX_HALL {
            seq![
                (
                    (HL + 1) as u16,
                    (INT_T + 2 + MAX_HALL) as u16,
                    fit_spec("+"@ + decimal_spec((n - MAX_HALL) as nat) + " more"@, 14),
                    fg(Color::DarkGrey),
                ),
            ]
        } else {
            Seq::empty()
        };
        if n > MAX_HALL {
            let m = "+"@ + decimal_spec((n - MAX_HALL) as nat) + " more"@;
            assert(m[0] == '+');
            lemma_fit_first(m, 14);
        }
        assert(ops == bx + hdr + es + more);
        let a = bx.len() as int;
        let b = a + 1;
        let c = b + es.len();
        assert forall|k: int| 0 <= k < ops.len() implies {
            &&& (#[trigger] ops[k]).3.bg == Some(Color::DarkYellow) ==> s.hallway && ops[k].0 == HL + 1 && ops[k].1
                == INT_T + 2 + s.sel
            &&& ops[k].2.len() > 0 && ops[k].2[0] == '@' ==> s.hallway && ops[k].0 == HL + 1 && ops[k].1 == INT_T
                + 2 + s.sel
        } by {
            if k < a {
                assert(ops[k] == bx[k]);
            } else if k < b {
                assert(ops[k] == hdr[0]);
            } else if k < c {
                assert(ops[k] == es[k - b]);
            } else {
                assert(ops[k] == more[k - c]);
            }
        }
        assert forall|i: int| 0 <= i < shown implies #[trigger] shows_entry(ops, s, i) by {
            assert(ops[b + i] == es[i]);
        }
    }
}

/// Outside the hallway the player is drawn last, over everything else, as
/// a bold yellow `@` at its place in the current room.
pub proof fn player_is_drawn_over_everything(s: State)
    ensures
        !s.hallway ==> frame_ops(s).last() == (s.px, s.py, "@"@, fg_bold(Color::Yellow)),
{
}

} // verus!
