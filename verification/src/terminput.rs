//! Keyboard and text input of the embedded terminal, turned into the bytes a
//! real terminal emulator would write to its pty.
use vstd::prelude::*;

verus! {

/// A key of the UI toolkit, as far as the terminal tells keys apart.
/// `Letter` carries the key's one-character name (`b'A'` for the A key).
#[derive(Clone, Copy, Debug, PartialEq, Eq, Structural)]
pub enum TermKey {
    Letter(u8),
    Enter,
    Backspace,
    Tab,
    Escape,
    ArrowUp,
    ArrowDown,
    ArrowRight,
    ArrowLeft,
    Home,
    End,
    PageUp,
    PageDown,
    Delete,
    Other,
}

/// Modifier keys held with a key press.
#[derive(Clone, Copy, Debug, PartialEq, Eq, Structural)]
pub struct Modifiers {
    pub alt: bool,
    pub ctrl: bool,
    pub shift: bool,
    pub mac_cmd: bool,
    pub command: bool,
}

/// An input event of one UI frame.
#[derive(Clone, Debug)]
pub enum InputEvent {
    /// Typed text, UTF-8 encoded.
    Text(Vec<u8>),
    /// Pasted text, UTF-8 encoded.
    Paste(Vec<u8>),
    /// A key going down (`pressed`) or up.
    KeyEvent { key: TermKey, pressed: bool, modifiers: Modifiers },
    /// Anything else (pointer moves, focus changes, ...).
    Other,
}

/// ASCII upper case of a byte; other bytes are unchanged.
pub open spec fn upper_spec(c: u8) -> u8 {
    if 97 <= c <= 122 {
        (c - 32) as u8
    } else {
        c
    }
}

fn ascii_upper(c: u8) -> (u: u8)
    ensures
        u == upper_spec(c),
{
    if 97 <= c && c <= 122 {
        c - 32
    } else {
        c
    }
}

/// The bytes a terminal sends for a key press: Ctrl (or Cmd) with a letter
/// gives that letter's C0 control code (Ctrl+C is 0x03); Enter, Backspace,
/// Tab, Escape give CR, DEL, HT, ESC; arrows, Home, End, PageUp, PageDown
/// and Delete give their xterm escape sequences; any other key gives
/// nothing.
pub open spec fn key_bytes_spec(key: TermKey, modifiers: Modifiers) -> Option<Seq<u8>> {
    if (modifiers.ctrl || modifiers.mac_cmd) && key is Letter && 65 <= upper_spec(key->0) <= 90 {
        Some(seq![upper_spec(key->0) & 0x1f])
    } else {
        match key {
            TermKey::Enter => Some(seq![13u8]),
            TermKey::Backspace => Some(seq![0x7fu8]),
            TermKey::Tab => Some(seq![9u8]),
            TermKey::Escape => Some(seq![0x1bu8]),
            TermKey::ArrowUp => Some(seq![0x1bu8, 91u8, 65u8]),
            TermKey::ArrowDown => Some(seq![0x1bu8, 91u8, 66u8]),
            TermKey::ArrowRight => Some(seq![0x1bu8, 91u8, 67u8]),
            TermKey::ArrowLeft => Some(seq![0x1bu8, 91u8, 68u8]),
            TermKey::Home => Some(seq![0x1bu8, 91u8, 72u8]),
            TermKey::End => Some(seq![0x1bu8, 91u8, 70u8]),
            TermKey::PageUp => Some(seq![0x1bu8, 91u8, 53u8, 126u8]),
            TermKey::PageDown => Some(seq![0x1bu8, 91u8, 54u8, 126u8]),
            TermKey::Delete => Some(seq![0x1bu8, 91u8, 51u8, 126u8]),
            _ => None,
        }
    }
}

/// Map a key press (with modifiers) to the bytes a real terminal would send.
pub fn key_to_bytes(key: TermKey, modifiers: Modifiers) -> (r: Option<Vec<u8>>)
    ensures
        match r {
            Some(v) => key_bytes_spec(key, modifiers) == Some(v@),
            None => key_bytes_spec(key, modifiers) is None,
        },
{
    if modifiers.ctrl || modifiers.mac_cmd {
        if let TermKey::Letter(name) = key {
            let c = ascii_upper(name);
            if 65 <= c && c <= 90 {
                return Some(vec![c & 0x1f]);
            }
        }
    }
    let r = match key {
        TermKey::Enter => vec![13u8],
        TermKey::Backspace => vec![0x7fu8],
        TermKey::Tab => vec![9u8],
        TermKey::Escape => vec![0x1bu8],
        TermKey::ArrowUp => vec![0x1bu8, 91u8, 65u8],
        TermKey::ArrowDown => vec![0x1bu8, 91u8, 66u8],
        TermKey::ArrowRight => vec![0x1bu8, 91u8, 67u8],
        TermKey::ArrowLeft => vec![0x1bu8, 91u8, 68u8],
        TermKey::Home => vec![0x1bu8, 91u8, 72u8],
        TermKey::End => vec![0x1bu8, 91u8, 70u8],
        TermKey::PageUp => vec![0x1bu8, 91u8, 53u8, 126u8],
        TermKey::PageDown => vec![0x1bu8, 91u8, 54u8, 126u8],
        TermKey::Delete => vec![0x1bu8, 91u8, 51u8, 126u8],
        _ => {
            return None;
        },
    };
    proof {
        assert(r@ =~= key_bytes_spec(key, modifiers)->0);
    }
    Some(r)
}

/// What one event writes to the pty, if anything: text and pastes as their
/// bytes, key presses as `key_bytes_spec`; nothing is ever written empty.
pub open spec fn event_payload(e: InputEvent) -> Option<Seq<u8>> {
    let p: Option<Seq<u8>> = match e {
        InputEvent::Text(t) => Some(t@),
        InputEvent::Paste(t) => Some(t@),
        InputEvent::KeyEvent { key, pressed, modifiers } => if pressed {
            key_bytes_spec(key, modifiers)
        } else {
            None
        },
        InputEvent::Other => None,
    };
    match p {
        Some(b) => if b.len() > 0 {
            Some(b)
        } else {
            None
        },
        None => None,
    }
}

/// The writes to the pty for a frame's events, in order.
pub open spec fn payloads_spec(events: Seq<InputEvent>) -> Seq<Seq<u8>>
    decreases events.len(),
{
    if events.len() == 0 {
        Seq::empty()
    } else {
        let rest = payloads_spec(events.drop_last());
        match event_payload(events.last()) {
            Some(b) => rest.push(b),
            None => rest,
        }
    }
}

pub open spec fn payload_views(ps: Seq<Vec<u8>>) -> Seq<Seq<u8>> {
    ps.map_values(|p: Vec<u8>| p@)
}

fn copy_bytes(b: &Vec<u8>) -> (r: Vec<u8>)
    ensures
        r@ == b@,
{
    let mut r: Vec<u8> = Vec::new();
    let mut i: usize = 0;
    while i < b.len()
        invariant
            i <= b.len(),
            r@ == b@.subrange(0, i as int),
        decreases b.len() - i,
    {
        r.push(b[i]);
        i += 1;
    }
    assert(b@.subrange(0, b.len() as int) =~= b@);
    r
}

fn payload_of(e: &InputEvent) -> (r: Option<Vec<u8>>)
    ensures
        match r {
            Some(v) => event_payload(*e) == Some(v@),
            None => event_payload(*e) is None,
        },
{
    let p = match e {
        InputEvent::Text(t) => Some(copy_bytes(t)),
        InputEvent::Paste(t) => Some(copy_bytes(t)),
        InputEvent::KeyEvent { key, pressed, modifiers } => if *pressed {
            key_to_bytes(*key, *modifiers)
        } else {
            None
        },
        InputEvent::Other => None,
    };
    match p {
        Some(b) => if b.len() > 0 {
            Some(b)
        } else {
            None
        },
        None => None,
    }
}

/// The frame's events as the byte strings to write to the pty, in order.
pub fn input_payloads(events: &Vec<InputEvent>) -> (r: Vec<Vec<u8>>)
    ensures
        payload_views(r@) == payloads_spec(events@),
{
    let mut r: Vec<Vec<u8>> = Vec::new();
    let mut i: usize = 0;
    while i < events.len()
        invariant
            i <= events.len(),
            payload_views(r@) == payloads_spec(events@.subrange(0, i as int)),
        decreases events.len() - i,
    {
        let ghost before = r@;
        let p = payload_of(&events[i]);
        assert(events@.subrange(0, i + 1).drop_last() =~= events@.subrange(0, i as int));
        match p {
            Some(b) => {
                r.push(b);
                assert(payload_views(r@) =~= payload_views(before).push(b@));
            },
            None => {},
        }
        i += 1;
    }
    assert(events@.subrange(0, events.len() as int) =~= events@);
    r
}


/// With Ctrl or Cmd held, a letter key — in either case — sends the single
/// C0 control code of that letter: `A` is 1, ..., `Z` is 26.
pub proof fn ctrl_letter_is_its_control_code(c: u8, modifiers: Modifiers)
    requires
        modifiers.ctrl || modifiers.mac_cmd,
        65 <= c <= 90 || 97 <= c <= 122,
    ensures
        key_bytes_spec(TermKey::Letter(c), modifiers) == Some(seq![(upper_spec(c) - 64) as u8]),
        1 <= upper_spec(c) - 64 <= 26,
{
    let u = upper_spec(c);
    assert(65 <= u <= 90);
    assert(65 <= u <= 90 ==> u & 0x1f == u - 64) by (bit_vector);
}

/// Whatever a key press sends is never empty, and a letter sends something
/// only with Ctrl or Cmd held.
pub proof fn key_bytes_are_never_empty(key: TermKey, modifiers: Modifiers)
    ensures
        key_bytes_spec(key, modifiers) matches Some(b) ==> b.len() > 0,
        key is Letter && !modifiers.ctrl && !modifiers.mac_cmd ==> key_bytes_spec(key, modifiers) is None,
{
}

} // verus!
