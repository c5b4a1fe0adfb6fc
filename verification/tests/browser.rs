use psypher::browser::{
    do_move, enter_child_area, handle_key, KeyCode, Nav, Outcome, State, CL, CORR, CR, INT_B, INT_T,
};
use psypher::paths::{file_name, path_basename};
use psypher::screen::{basename, render, Color};
use psypher::text::{decimal, fit, fitpad};

fn chars(s: &str) -> Vec<char> {
    s.chars().collect()
}

fn dref(path: &str) -> psypher::browser::DirRef {
    psypher::browser::DirRef { path: path.as_bytes().to_vec(), display: chars(path) }
}

fn state_with(children: usize, parent: bool) -> State {
    let kids = (0..children)
        .map(|i| dref(&format!("/home/dev/c{i}")))
        .collect();
    let parent = if parent { Some(dref("/home")) } else { None };
    State::new(dref("/home/dev"), parent, kids)
}

#[test]
fn fit_keeps_short_text() {
    assert_eq!(fit(&chars("abc"), 5), chars("abc"));
    assert_eq!(fit(&chars("abc"), 3), chars("abc"));
}

#[test]
fn fit_cuts_with_an_ellipsis() {
    assert_eq!(fit(&chars("abcdef"), 4), chars("abc…"));
    assert_eq!(fit(&chars("abcdef"), 1), chars("…"));
    assert_eq!(fit(&chars("abcdef"), 0), chars(""));
    assert_eq!(fit(&chars("日本語ディレクトリ"), 3), chars("日本…"));
}

#[test]
fn fitpad_pads_to_exact_width() {
    assert_eq!(fitpad(&chars("ab"), 5), chars("ab   "));
    assert_eq!(fitpad(&chars("abcdef"), 4), chars("abc…"));
    assert_eq!(fitpad(&chars(""), 0), chars(""));
}

#[test]
fn decimal_writes_digits() {
    assert_eq!(decimal(0), chars("0"));
    assert_eq!(decimal(407), chars("407"));
}

#[test]
fn basename_of_root_is_slash() {
    assert_eq!(basename(&dref("/")), chars("/"));
    assert_eq!(basename(&dref("/home/dev")), chars("dev"));
}

#[test]
fn new_state_starts_centred() {
    let s = state_with(3, true);
    assert_eq!(s.px, (CL + CR) / 2);
    assert_eq!(s.py, INT_T + 4);
    assert!(!s.hallway);
    assert_eq!(s.sel, 0);
}

#[test]
fn vertical_moves_stay_inside() {
    let mut s = state_with(0, false);
    s.py = INT_T;
    assert_eq!(do_move(&mut s, 0, -1), None);
    assert_eq!(s.py, INT_T);
    s.py = INT_B;
    assert_eq!(do_move(&mut s, 0, 1), None);
    assert_eq!(s.py, INT_B);
    assert_eq!(do_move(&mut s, 0, -1), None);
    assert_eq!(s.py, INT_B - 1);
}

#[test]
fn walking_left_on_the_corridor_row_ascends() {
    let mut s = state_with(0, true);
    s.px = CL + 1;
    s.py = CORR;
    assert_eq!(do_move(&mut s, -1, 0), Some(Nav::Parent));
    let mut t = state_with(0, false);
    t.px = CL + 1;
    t.py = CORR;
    assert_eq!(do_move(&mut t, -1, 0), None);
    assert_eq!(t.px, CL + 1);
}

#[test]
fn walking_right_enters_the_hallway() {
    let mut s = state_with(3, true);
    s.px = CR - 1;
    s.py = CORR;
    assert_eq!(do_move(&mut s, 1, 0), None);
    assert!(s.hallway);
    assert_eq!(s.sel, 0);
    assert_eq!(do_move(&mut s, 0, 1), None);
    assert_eq!(do_move(&mut s, 0, 1), None);
    assert_eq!(do_move(&mut s, 0, 1), None);
    assert_eq!(s.sel, 2);
    assert_eq!(do_move(&mut s, 1, 0), Some(Nav::Child(2)));
    assert_eq!(do_move(&mut s, -1, 0), None);
    assert!(!s.hallway);
    assert_eq!((s.px, s.py), (CR - 1, CORR));
}

#[test]
fn single_child_is_entered_directly() {
    let mut s = state_with(1, true);
    assert_eq!(enter_child_area(&mut s), Some(Nav::Child(0)));
    assert!(!s.hallway);
    let mut none = state_with(0, true);
    assert_eq!(enter_child_area(&mut none), None);
}

#[test]
fn keys_quit_ascend_and_enter() {
    let mut s = state_with(2, true);
    assert_eq!(handle_key(&mut s, KeyCode::Char('q')), Outcome::Quit);
    assert_eq!(handle_key(&mut s, KeyCode::Esc), Outcome::Quit);
    assert_eq!(handle_key(&mut s, KeyCode::Char('<')), Outcome::Continue(Some(Nav::Parent)));
    assert_eq!(handle_key(&mut s, KeyCode::Enter), Outcome::Continue(None));
    assert_eq!(handle_key(&mut s, KeyCode::Char('>')), Outcome::Continue(None));
    assert!(s.hallway);
    assert_eq!(handle_key(&mut s, KeyCode::Down), Outcome::Continue(None));
    assert_eq!(handle_key(&mut s, KeyCode::Enter), Outcome::Continue(Some(Nav::Child(1))));
    assert_eq!(handle_key(&mut s, KeyCode::Other), Outcome::Continue(None));
}

#[test]
fn arriving_reloads_the_state() {
    let mut s = state_with(2, true);
    let kids = vec![dref("/home/dev/c1/x")];
    s.arrive(Nav::Child(1), Some(dref("/home/dev")), kids);
    assert_eq!(s.cwd.path, b"/home/dev/c1".to_vec());
    assert_eq!(s.children.len(), 1);
    assert!(!s.hallway);
}

#[test]
fn render_draws_status_help_and_player() {
    let s = state_with(2, true);
    let ops = render(&s);
    let status = &ops[0];
    assert_eq!((status.col, status.row), (0, 0));
    assert_eq!(status.text.len(), 80);
    assert!(status.text.starts_with(&chars(" PSY DUNGEON  /home/dev")));
    assert_eq!(status.style.fg, Some(Color::White));
    let help = ops.iter().find(|o| o.row == 23).unwrap();
    assert!(help.text.starts_with(&chars(" Arrows:Move")));
    let last = ops.last().unwrap();
    assert_eq!((last.col, last.row), (s.px, s.py));
    assert_eq!(last.text, chars("@"));
}

#[test]
fn basename_takes_the_last_path_component() {
    assert_eq!(path_basename(&b"/home/user/proj".to_vec()), chars("proj"));
    assert_eq!(path_basename(&b"/".to_vec()), chars("/"));
    assert_eq!(path_basename(&b"/tmp/a dir (x)".to_vec()), chars("a dir (x)"));
    assert_eq!(path_basename(&b"/home/user/proj/".to_vec()), chars("proj"));
    assert_eq!(path_basename(&b"/home/user/proj/.".to_vec()), chars("proj"));
    assert_eq!(path_basename(&b"/home/user/..".to_vec()), chars("/"));
    assert_eq!(path_basename(&b"relative".to_vec()), chars("relative"));
    assert_eq!(path_basename(&b".".to_vec()), chars("/"));
    assert_eq!(path_basename(&b"".to_vec()), chars("/"));
    // The name is decoded as UTF-8, an invalid byte becoming U+FFFD.
    assert_eq!(path_basename(&b"/tmp/caf\xc3\xa9".to_vec()), chars("caf\u{e9}"));
    assert_eq!(path_basename(&b"/tmp/a\xffb".to_vec()), chars("a\u{fffd}b"));
    assert_eq!(file_name(&b"/tmp/.hidden".to_vec()), Some(b".hidden".to_vec()));
    assert_eq!(file_name(&b"/tmp/a..".to_vec()), Some(b"a..".to_vec()));
    assert_eq!(file_name(&b"//".to_vec()), None);
}
