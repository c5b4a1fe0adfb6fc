use alacritty_terminal::vte::ansi::NamedColor as VteNamed;
use psypher::terminal::{
    index_to_named, indexed_to_color32, named_to_color32, resolve_color, to_bright, NamedColor,
    Rgb8, TermColor, DEFAULT_COLS, DEFAULT_ROWS,
};
use psypher::termgrid::{
    cursor_paint, fit_grid, paint_cells, CellPaint, CursorMark, CursorShape, Glyph, GridCell,
    GridSize,
};
use psypher::terminput::{input_payloads, key_to_bytes, InputEvent, TermKey, Modifiers};

const ALL: [(NamedColor, VteNamed); 29] = [
    (NamedColor::Black, VteNamed::Black),
    (NamedColor::Red, VteNamed::Red),
    (NamedColor::Green, VteNamed::Green),
    (NamedColor::Yellow, VteNamed::Yellow),
    (NamedColor::Blue, VteNamed::Blue),
    (NamedColor::Magenta, VteNamed::Magenta),
    (NamedColor::Cyan, VteNamed::Cyan),
    (NamedColor::White, VteNamed::White),
    (NamedColor::BrightBlack, VteNamed::BrightBlack),
    (NamedColor::BrightRed, VteNamed::BrightRed),
    (NamedColor::BrightGreen, VteNamed::BrightGreen),
    (NamedColor::BrightYellow, VteNamed::BrightYellow),
    (NamedColor::BrightBlue, VteNamed::BrightBlue),
    (NamedColor::BrightMagenta, VteNamed::BrightMagenta),
    (NamedColor::BrightCyan, VteNamed::BrightCyan),
    (NamedColor::BrightWhite, VteNamed::BrightWhite),
    (NamedColor::Foreground, VteNamed::Foreground),
    (NamedColor::Background, VteNamed::Background),
    (NamedColor::Cursor, VteNamed::Cursor),
    (NamedColor::DimBlack, VteNamed::DimBlack),
    (NamedColor::DimRed, VteNamed::DimRed),
    (NamedColor::DimGreen, VteNamed::DimGreen),
    (NamedColor::DimYellow, VteNamed::DimYellow),
    (NamedColor::DimBlue, VteNamed::DimBlue),
    (NamedColor::DimMagenta, VteNamed::DimMagenta),
    (NamedColor::DimCyan, VteNamed::DimCyan),
    (NamedColor::DimWhite, VteNamed::DimWhite),
    (NamedColor::BrightForeground, VteNamed::BrightForeground),
    (NamedColor::DimForeground, VteNamed::DimForeground),
];

fn ours(v: VteNamed) -> NamedColor {
    ALL.iter().find(|(_, t)| *t == v).map(|(o, _)| *o).unwrap()
}

fn rgb(r: u8, g: u8, b: u8) -> Rgb8 {
    Rgb8 { r, g, b }
}

fn no_mods() -> Modifiers {
    Modifiers { alt: false, ctrl: false, shift: false, mac_cmd: false, command: false }
}

fn ctrl() -> Modifiers {
    Modifiers { alt: false, ctrl: true, shift: false, mac_cmd: false, command: true }
}

#[test]
fn to_bright_agrees_with_the_vte_parser() {
    for (o, v) in ALL.iter() {
        assert_eq!(to_bright(*o), ours(v.to_bright()), "{o:?}");
    }
}

#[test]
fn named_colors_follow_the_xterm_palette() {
    assert_eq!(named_to_color32(NamedColor::Red), rgb(0xcd, 0, 0));
    assert_eq!(named_to_color32(NamedColor::DimBlue), rgb(0x1e, 0x90, 0xff));
    assert_eq!(named_to_color32(NamedColor::BrightBlue), rgb(0x5c, 0x5c, 0xff));
    assert_eq!(named_to_color32(NamedColor::Background), rgb(0x08, 0x08, 0x0a));
    assert_eq!(named_to_color32(NamedColor::Cursor), rgb(0xff, 0xff, 0xff));
    assert_eq!(named_to_color32(NamedColor::DimForeground), rgb(0xe5, 0xe5, 0xe5));
}

#[test]
fn low_indices_name_the_standard_colours() {
    assert_eq!(index_to_named(0), NamedColor::Black);
    assert_eq!(index_to_named(9), NamedColor::BrightRed);
    assert_eq!(index_to_named(15), NamedColor::BrightWhite);
    assert_eq!(index_to_named(200), NamedColor::BrightWhite);
}

#[test]
fn indexed_colours_cover_cube_and_grey_ramp() {
    assert_eq!(indexed_to_color32(1), rgb(0xcd, 0, 0));
    assert_eq!(indexed_to_color32(16), rgb(0, 0, 0));
    assert_eq!(indexed_to_color32(21), rgb(0, 0, 255));
    assert_eq!(indexed_to_color32(196), rgb(255, 0, 0));
    assert_eq!(indexed_to_color32(17), rgb(0, 0, 95));
    assert_eq!(indexed_to_color32(231), rgb(255, 255, 255));
    assert_eq!(indexed_to_color32(232), rgb(8, 8, 8));
    assert_eq!(indexed_to_color32(255), rgb(238, 238, 238));
}

#[test]
fn resolve_brightens_only_named_colours() {
    assert_eq!(resolve_color(TermColor::Named(NamedColor::Red), true), rgb(0xff, 0, 0));
    assert_eq!(resolve_color(TermColor::Named(NamedColor::Red), false), rgb(0xcd, 0, 0));
    assert_eq!(resolve_color(TermColor::Indexed(1), true), rgb(0xcd, 0, 0));
    assert_eq!(resolve_color(TermColor::Spec(rgb(1, 2, 3)), true), rgb(1, 2, 3));
}

#[test]
fn ctrl_letters_give_control_codes() {
    assert_eq!(key_to_bytes(TermKey::Letter(b'C'), ctrl()), Some(vec![3]));
    assert_eq!(key_to_bytes(TermKey::Letter(b'c'), ctrl()), Some(vec![3]));
    let cmd = Modifiers { mac_cmd: true, ..no_mods() };
    assert_eq!(key_to_bytes(TermKey::Letter(b'Z'), cmd), Some(vec![0x1a]));
    assert_eq!(key_to_bytes(TermKey::Letter(b'C'), no_mods()), None);
    assert_eq!(key_to_bytes(TermKey::Enter, ctrl()), Some(b"\r".to_vec()));
}

#[test]
fn special_keys_give_escape_sequences() {
    let m = no_mods();
    assert_eq!(key_to_bytes(TermKey::Enter, m), Some(b"\r".to_vec()));
    assert_eq!(key_to_bytes(TermKey::Backspace, m), Some(vec![0x7f]));
    assert_eq!(key_to_bytes(TermKey::Tab, m), Some(b"\t".to_vec()));
    assert_eq!(key_to_bytes(TermKey::Escape, m), Some(vec![0x1b]));
    assert_eq!(key_to_bytes(TermKey::ArrowUp, m), Some(b"\x1b[A".to_vec()));
    assert_eq!(key_to_bytes(TermKey::ArrowDown, m), Some(b"\x1b[B".to_vec()));
    assert_eq!(key_to_bytes(TermKey::ArrowRight, m), Some(b"\x1b[C".to_vec()));
    assert_eq!(key_to_bytes(TermKey::ArrowLeft, m), Some(b"\x1b[D".to_vec()));
    assert_eq!(key_to_bytes(TermKey::Home, m), Some(b"\x1b[H".to_vec()));
    assert_eq!(key_to_bytes(TermKey::End, m), Some(b"\x1b[F".to_vec()));
    assert_eq!(key_to_bytes(TermKey::PageUp, m), Some(b"\x1b[5~".to_vec()));
    assert_eq!(key_to_bytes(TermKey::PageDown, m), Some(b"\x1b[6~".to_vec()));
    assert_eq!(key_to_bytes(TermKey::Delete, m), Some(b"\x1b[3~".to_vec()));
    assert_eq!(key_to_bytes(TermKey::Other, m), None);
}

#[test]
fn input_events_become_pty_writes_in_order() {
    let events = vec![
        InputEvent::Text(b"ls".to_vec()),
        InputEvent::KeyEvent { key: TermKey::Enter, pressed: true, modifiers: no_mods() },
        InputEvent::KeyEvent { key: TermKey::Enter, pressed: false, modifiers: no_mods() },
        InputEvent::Text(Vec::new()),
        InputEvent::Other,
        InputEvent::KeyEvent { key: TermKey::Other, pressed: true, modifiers: no_mods() },
        InputEvent::Paste("é".as_bytes().to_vec()),
    ];
    let got = input_payloads(&events);
    assert_eq!(got, vec![b"ls".to_vec(), b"\r".to_vec(), "é".as_bytes().to_vec()]);
}

fn cell(line: i32, col: usize, c: char) -> GridCell {
    GridCell {
        line,
        col,
        c,
        fg: TermColor::Named(NamedColor::Foreground),
        bg: TermColor::Named(NamedColor::Background),
        inverse: false,
        bold: false,
        hidden: false,
        underline: false,
    }
}

#[test]
fn only_visible_cells_are_painted() {
    let cells = vec![cell(-1, 0, 'a'), cell(0, 0, 'b'), cell(0, 80, 'c'), cell(24, 0, 'd'), cell(23, 79, ' ')];
    let paints = paint_cells(&cells, 80, 24);
    assert_eq!(paints.len(), 2);
    assert_eq!(
        paints[0],
        CellPaint {
            col: 0,
            line: 0,
            fill: None,
            glyph: Some(Glyph { c: 'b', color: rgb(0xe5, 0xe5, 0xe5) }),
            underline: None
        }
    );
    assert_eq!(paints[1].glyph, None);
}

#[test]
fn bold_inverse_and_underlined_cells() {
    let mut c = cell(1, 2, 'x');
    c.fg = TermColor::Named(NamedColor::Red);
    c.bold = true;
    c.underline = true;
    let p = paint_cells(&vec![c], 80, 24)[0];
    assert_eq!(p.glyph, Some(Glyph { c: 'x', color: rgb(0xff, 0, 0) }));
    assert_eq!(p.underline, Some(rgb(0xff, 0, 0)));
    assert_eq!(p.fill, None);

    let mut inv = cell(1, 2, 'y');
    inv.inverse = true;
    let q = paint_cells(&vec![inv], 80, 24)[0];
    assert_eq!(q.fill, Some(rgb(0xe5, 0xe5, 0xe5)));
    assert_eq!(q.glyph, Some(Glyph { c: 'y', color: rgb(0x08, 0x08, 0x0a) }));

    let mut hid = cell(0, 0, 'z');
    hid.hidden = true;
    assert_eq!(paint_cells(&vec![hid], 80, 24)[0].glyph, None);
}

#[test]
fn cursor_shapes() {
    assert_eq!(cursor_paint(0, 0, CursorShape::Hidden, 'a', 80, 24, true), None);
    assert_eq!(cursor_paint(-1, 0, CursorShape::Block, 'a', 80, 24, true), None);
    assert_eq!(cursor_paint(3, 80, CursorShape::Block, 'a', 80, 24, true), None);
    assert_eq!(cursor_paint(3, 4, CursorShape::Underline, 'a', 80, 24, false), Some((4, 3, CursorMark::Underline)));
    assert_eq!(cursor_paint(3, 4, CursorShape::Beam, 'a', 80, 24, true), Some((4, 3, CursorMark::Beam)));
    assert_eq!(
        cursor_paint(3, 4, CursorShape::Block, 'a', 80, 24, true),
        Some((4, 3, CursorMark::Filled { glyph: Some('a') }))
    );
    assert_eq!(
        cursor_paint(3, 4, CursorShape::HollowBlock, ' ', 80, 24, true),
        Some((4, 3, CursorMark::Filled { glyph: None }))
    );
    assert_eq!(cursor_paint(3, 4, CursorShape::Block, 'a', 80, 24, false), Some((4, 3, CursorMark::Outline)));
}

#[test]
fn grid_size_and_resizing() {
    assert_eq!(fit_grid(1, 0), GridSize { cols: 4, rows: 2 });
    assert_eq!(fit_grid(100, 30), GridSize { cols: 100, rows: 30 });
    let mut g = GridSize { cols: DEFAULT_COLS, rows: DEFAULT_ROWS };
    assert!(!g.resize(80, 24));
    assert!(g.resize(100, 24));
    assert_eq!(g, GridSize { cols: 100, rows: 24 });
}
