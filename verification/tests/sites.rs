use psypher::sites::{nearest_by_size, nearest_sites_by_size, presence_lapsed, SiteEntry};
use psypher::trace::TraceSeq;

fn site(id: u64, x: i32, y: i32, plots: usize) -> SiteEntry {
    SiteEntry { id, x, y, plots }
}

#[test]
fn nearest_by_size_keeps_ever_larger_sites_nearest_first() {
    let here = site(1, 0, 0, 5);
    let sites = vec![
        here,
        site(2, 10, 0, 8),   // dist 100, larger: kept
        site(3, 5, 0, 3),    // smaller: excluded
        site(4, 20, 0, 7),   // dist 400, not larger than 8: dropped
        site(5, 30, 0, 12),  // dist 900: kept
        site(6, 1, 1, 6),    // dist 2, larger: kept first
        site(7, 0, 40, 5),   // same size as here: excluded
    ];
    assert_eq!(nearest_by_size(&sites, &here), vec![6, 2, 5]);
}

#[test]
fn equally_near_sites_keep_their_order() {
    let here = site(1, 0, 0, 1);
    let sites = vec![here, site(2, 3, 4, 4), site(3, -4, 3, 9), site(4, 5, 0, 2)];
    // All three are 25 away: stable order 2, 3, 4; 4 is smaller than 9.
    assert_eq!(nearest_by_size(&sites, &here), vec![2, 3]);
}

#[test]
fn the_largest_site_has_no_larger_neighbours() {
    let sites = vec![site(1, 0, 0, 3), site(2, 5, 5, 9), site(3, 9, 9, 4)];
    let all = nearest_sites_by_size(&sites);
    assert_eq!(all.len(), 3);
    assert_eq!(all[1].site, 2);
    assert!(all[1].nearest_by_size.is_empty());
    assert_eq!(all[0].nearest_by_size, vec![2]);
    assert_eq!(all[2].nearest_by_size, vec![2]);
}

#[test]
fn far_apart_sites_do_not_overflow() {
    let here = site(1, i32::MIN, i32::MIN, 0);
    let sites = vec![here, site(2, i32::MAX, i32::MAX, 1), site(3, 0, 0, 2)];
    assert_eq!(nearest_by_size(&sites, &here), vec![3]);
}

#[test]
fn trace_numbers_events_from_zero() {
    let mut t = TraceSeq::new();
    assert_eq!(t.log(), 0);
    assert_eq!(t.log(), 1);
    assert_eq!(t.log(), 2);
    t.clear();
    assert_eq!(t.log(), 0);
}

#[test]
fn characters_lapse_after_missing_two_ticks() {
    assert!(!presence_lapsed(10, None));
    assert!(!presence_lapsed(10, Some(9)));
    assert!(!presence_lapsed(10, Some(10)));
    assert!(presence_lapsed(10, Some(8)));
    assert!(!presence_lapsed(0, Some(0)));
}
