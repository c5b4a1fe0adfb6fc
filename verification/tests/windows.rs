use psypher::windows::{children_window, list_children, list_subdirs, siblings_window, DirListing, RawEntry};

fn dir(name: &str) -> RawEntry {
    RawEntry { name: name.as_bytes().to_vec(), is_dir: true, subdir_count: 0 }
}

/// A listing of `root` holding the named (empty) directories plus `.hidden`,
/// as the directory reader would hand it over (unsorted).
fn make_siblings(root: &str, names: &[&str]) -> DirListing {
    let mut entries = vec![dir(".hidden")];
    for name in names.iter().rev() {
        entries.push(dir(name));
    }
    DirListing { path: root.as_bytes().to_vec(), entries }
}

fn name(s: &str) -> Option<Vec<u8>> {
    Some(s.as_bytes().to_vec())
}

#[test]
fn siblings_window_centers_and_excludes_self() {
    let parent = make_siblings("/tmp/root", &["a", "b", "c", "d", "e"]);
    let (total, self_index, window) = siblings_window(Some(parent), &name("c"), 2);
    assert_eq!(total, 5);
    assert_eq!(self_index, 2);
    let got: Vec<usize> = window.iter().map(|d| d.index).collect();
    assert_eq!(got, vec![0, 1, 3, 4]);
    assert!(window.iter().all(|d| d.full_path != b"/tmp/root/c".to_vec()));
}

#[test]
fn siblings_window_clamps_at_start() {
    let parent = make_siblings("/tmp/root", &["a", "b", "c", "d", "e"]);
    let (total, self_index, window) = siblings_window(Some(parent), &name("a"), 2);
    assert_eq!(total, 5);
    assert_eq!(self_index, 0);
    let got: Vec<usize> = window.iter().map(|d| d.index).collect();
    assert_eq!(got, vec![1, 2]);
}

#[test]
fn siblings_window_clamps_at_end() {
    let parent = make_siblings("/tmp/root", &["a", "b", "c", "d", "e"]);
    let (total, self_index, window) = siblings_window(Some(parent), &name("e"), 2);
    assert_eq!(total, 5);
    assert_eq!(self_index, 4);
    let got: Vec<usize> = window.iter().map(|d| d.index).collect();
    assert_eq!(got, vec![2, 3]);
}

#[test]
fn handles_spaces_parens_and_unicode_names() {
    let names = ["a dir with spaces", "paren (dir)", "日本語ディレクトリ", "z"];
    let parent = make_siblings("/tmp/root", &names);
    let mut sorted: Vec<&str> = names.to_vec();
    sorted.sort();
    let current = sorted[1];
    let (_total, _self_index, window) = siblings_window(Some(parent), &name(current), 3);
    let got_names: Vec<String> =
        window.iter().map(|d| String::from_utf8_lossy(&d.name).into_owned()).collect();
    let expected: Vec<&str> = names.iter().copied().filter(|&n| n != current).collect();
    assert_eq!(expected.len(), names.len() - 1);
    for name in expected {
        assert!(got_names.iter().any(|g| g == name), "missing {name} in {got_names:?}");
    }
}

#[test]
fn hidden_directories_are_excluded() {
    let parent = make_siblings("/tmp/root", &["a", "b"]);
    let (total, _self_index, _window) = siblings_window(Some(parent), &name("a"), 5);
    assert_eq!(total, 2);
}

#[test]
fn nonexistent_path_yields_empty_children_window() {
    // A directory that cannot be read is listed as empty.
    let bogus = DirListing {
        path: b"/this/does/not/exist/hopefully-ever-xyz".to_vec(),
        entries: Vec::new(),
    };
    let (total, window) = children_window(bogus, 0, 2);
    assert_eq!(total, 0);
    assert!(window.is_empty());
}

#[test]
fn children_window_reports_subdir_counts() {
    let grandchildren = vec![dir("grandchild1"), dir("grandchild2")];
    let count = list_subdirs(grandchildren).len();
    let root = DirListing {
        path: b"/tmp/root".to_vec(),
        entries: vec![RawEntry { name: b"child".to_vec(), is_dir: true, subdir_count: count }],
    };
    let (total, window) = children_window(root, 0, 2);
    assert_eq!(total, 1);
    assert_eq!(window.len(), 1);
    assert_eq!(window[0].subdir_count, 2);
}

#[test]
fn list_children_returns_all_unwindowed() {
    let parent = make_siblings("/tmp/root", &["a", "b", "c", "d", "e"]);
    let all = list_children(parent);
    assert_eq!(all.len(), 5);
    assert_eq!(all.iter().map(|d| d.index).collect::<Vec<_>>(), vec![0, 1, 2, 3, 4]);
}

#[test]
fn children_window_clamps_selected_index() {
    let parent = make_siblings("/tmp/root", &["a", "b", "c"]);
    let (total, window) = children_window(parent, 999, 1);
    assert_eq!(total, 3);
    assert!(!window.is_empty());
}

#[test]
fn children_window_clamped_selection_shows_the_last_entries() {
    let parent = make_siblings("/tmp/root", &["a", "b", "c"]);
    let (_total, window) = children_window(parent, 999, 1);
    let got: Vec<usize> = window.iter().map(|d| d.index).collect();
    assert_eq!(got, vec![1, 2]);
}

#[test]
fn list_subdirs_sorts_and_drops_files_and_hidden_entries() {
    let entries = vec![
        dir("zeta"),
        RawEntry { name: b"notes.txt".to_vec(), is_dir: false, subdir_count: 0 },
        dir(".git"),
        dir("Alpha"),
        dir("alpha"),
    ];
    let names: Vec<Vec<u8>> = list_subdirs(entries).into_iter().map(|e| e.name).collect();
    assert_eq!(names, vec![b"Alpha".to_vec(), b"alpha".to_vec(), b"zeta".to_vec()]);
}

#[test]
fn full_paths_join_parent_and_name() {
    let parent = make_siblings("/tmp/root", &["a", "b"]);
    let all = list_children(parent);
    assert_eq!(all[1].full_path, b"/tmp/root/b".to_vec());
    assert_eq!(all[1].name, b"b".to_vec());
}

#[test]
fn root_has_no_siblings() {
    let (total, self_index, window) = siblings_window(None, &None, 2);
    assert_eq!((total, self_index, window.len()), (0, 0, 0));
}

#[test]
fn hidden_self_is_not_found_among_siblings() {
    let parent = make_siblings("/tmp/root", &["a", "b"]);
    let (total, self_index, window) = siblings_window(Some(parent), &name(".hidden"), 2);
    assert_eq!((total, self_index, window.len()), (2, 0, 0));
}

#[test]
fn child_windows_are_runs_of_the_full_listing() {
    let names = ["a", "b", "c", "d", "e", "f"];
    let all = list_children(make_siblings("/tmp/root", &names));
    assert_eq!(all.len(), 6);
    for selected in 0..9usize {
        for radius in 0..4usize {
            let (total, window) = children_window(make_siblings("/tmp/root", &names), selected, radius);
            assert_eq!(total, all.len());
            let sel = selected.min(total - 1);
            let lo = sel.saturating_sub(radius);
            let hi = (sel + radius).min(total - 1);
            assert_eq!(window.as_slice(), &all[lo..=hi]);
            assert!(window.iter().any(|d| d.index == sel));
        }
    }
}
