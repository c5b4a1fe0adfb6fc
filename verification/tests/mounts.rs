use psypher::mounts::{ActorLinks, MountingError};
use psypher::mountstore::ActorLink;

/// An actor key as `KeyData::as_ffi` encodes it: odd version above, slot
/// index below.
fn key(idx: u32, version: u32) -> u64 {
    ((version as u64) << 32) | idx as u64
}

fn actor(idx: u32) -> u64 {
    key(idx, 1)
}

#[test]
fn riding_and_steering_make_links() {
    let mut links = ActorLinks::new();
    let horse = actor(1);
    let (a, b) = (actor(2), actor(3));
    let steer = links.steer(horse, a).unwrap();
    let ride = links.ride(horse, b).unwrap();
    assert_ne!(steer, ride);
    assert_eq!(links.get(steer), Some(ActorLink { mount: horse, rider: a, is_steering: true }));
    assert_eq!(links.get_mount_link(b), Some(ActorLink { mount: horse, rider: b, is_steering: false }));
    assert_eq!(links.get_steerer_link(horse), Some(ActorLink { mount: horse, rider: a, is_steering: true }));
    assert_eq!(links.iter_mounts(), vec![horse]);
    let mut ids = links.ids();
    ids.sort();
    let mut expected = vec![steer, ride];
    expected.sort();
    assert_eq!(ids, expected);
    assert_eq!(links.iter().len(), 2);
}

#[test]
fn mounting_refusals() {
    let mut links = ActorLinks::new();
    let (horse, a, b, c) = (actor(1), actor(2), actor(3), actor(4));
    assert_eq!(links.ride(horse, horse), Err(MountingError::MountSelf));
    links.steer(horse, a).unwrap();
    // `horse` has riders, so it cannot ride; `a` rides, so it cannot carry.
    assert_eq!(links.ride(b, horse), Err(MountingError::RiderIsMounted));
    assert_eq!(links.ride(a, b), Err(MountingError::MountIsRiding));
    assert_eq!(links.ride(horse, a), Err(MountingError::AlreadyRiding));
    assert_eq!(links.steer(horse, c), Err(MountingError::HasSteerer));
    assert!(links.ride(horse, c).is_ok());
}

#[test]
fn a_stale_mount_is_dead() {
    let mut links = ActorLinks::new();
    let newer = key(5, 3);
    let older = key(5, 1);
    links.ride(newer, actor(2)).unwrap();
    assert_eq!(links.ride(older, actor(3)), Err(MountingError::MountDead));
}

#[test]
fn dismount_and_remove() {
    let mut links = ActorLinks::new();
    let (horse, a, b) = (actor(1), actor(2), actor(3));
    let la = links.steer(horse, a).unwrap();
    let lb = links.ride(horse, b).unwrap();
    links.dismount(a);
    assert_eq!(links.get(la), None);
    assert_eq!(links.get_mount_link(a), None);
    assert_eq!(links.get_steerer_link(horse), None);
    assert_eq!(links.iter_mounts(), vec![horse]);
    links.remove_link(lb);
    assert_eq!(links.get(lb), None);
    assert!(links.iter_mounts().is_empty());
    // Nothing to do for an actor that rides nothing.
    links.dismount(b);
    assert!(links.ids().is_empty());
}

#[test]
fn removing_a_mount_frees_its_riders_but_keeps_links() {
    let mut links = ActorLinks::new();
    let (horse, a, b) = (actor(1), actor(2), actor(3));
    let la = links.steer(horse, a).unwrap();
    links.ride(horse, b).unwrap();
    links.remove_mount(horse);
    assert!(links.iter_mounts().is_empty());
    assert_eq!(links.get_mount_link(a), None);
    assert_eq!(links.get_mount_link(b), None);
    assert!(links.get(la).is_some());
    // The freed riders can mount again.
    assert!(links.ride(a, b).is_ok());
}

#[test]
fn rebuilding_from_links() {
    let mut links = ActorLinks::new();
    let (horse, cart, a, b) = (actor(1), actor(2), actor(3), actor(4));
    let la = links.steer(horse, a).unwrap();
    let lb = links.ride(cart, b).unwrap();
    let rebuilt = ActorLinks::from_links(links.into_links());
    assert_eq!(rebuilt.get_mount_link(a), rebuilt.get(la));
    assert_eq!(rebuilt.get_steerer_link(horse), rebuilt.get(la));
    assert_eq!(rebuilt.get_mount_link(b), rebuilt.get(lb));
    let mut mounts = rebuilt.iter_mounts();
    mounts.sort();
    assert_eq!(mounts, vec![horse, cart]);
}

#[test]
fn maintaining_links() {
    let mut links = ActorLinks::new();
    let (horse, boat, a, b) = (actor(1), actor(2), actor(3), actor(4));
    links.ride(horse, a).unwrap();
    links.ride(boat, b).unwrap();
    // `boat` is gone: its rider is freed; `horse` and `a` carry on.
    let kept = links.maintain_links(&vec![horse, a, b]);
    assert_eq!(kept, vec![ActorLink { mount: horse, rider: a, is_steering: false }]);
    assert_eq!(links.get_mount_link(b), None);
    assert_eq!(links.iter_mounts(), vec![horse]);
    // Now `a` dies: it is dismounted.
    assert!(links.maintain_links(&vec![horse]).is_empty());
    assert_eq!(links.get_mount_link(a), None);
    assert!(links.iter_mounts().is_empty());
}

#[test]
fn saved_links_load_back_the_same() {
    let mut links = ActorLinks::new();
    let (horse, cart, boat) = (actor(1), actor(2), actor(3));
    let (a, b, c, d, e) = (actor(4), actor(5), actor(6), actor(7), actor(8));
    let la = links.steer(horse, a).unwrap();
    let lb = links.ride(horse, b).unwrap();
    let lc = links.ride(cart, c).unwrap();
    let ld = links.steer(boat, d).unwrap();
    let le = links.ride(boat, e).unwrap();
    links.dismount(c);
    links.remove_link(ld);
    let ids = vec![la, lb, lc, ld, le];
    let actors = vec![horse, cart, boat, a, b, c, d, e];
    let before_links: Vec<_> = ids.iter().map(|&id| links.get(id)).collect();
    let before_riding: Vec<_> = actors.iter().map(|&x| links.get_mount_link(x)).collect();
    let before_steering: Vec<_> = actors.iter().map(|&x| links.get_steerer_link(x)).collect();
    let mut before_mounts = links.iter_mounts();
    before_mounts.sort();

    let rebuilt = ActorLinks::from_links(links.into_links());

    let after_links: Vec<_> = ids.iter().map(|&id| rebuilt.get(id)).collect();
    let after_riding: Vec<_> = actors.iter().map(|&x| rebuilt.get_mount_link(x)).collect();
    let after_steering: Vec<_> = actors.iter().map(|&x| rebuilt.get_steerer_link(x)).collect();
    let mut after_mounts = rebuilt.iter_mounts();
    after_mounts.sort();
    assert_eq!(after_links, before_links);
    assert_eq!(after_riding, before_riding);
    assert_eq!(after_steering, before_steering);
    assert_eq!(after_mounts, before_mounts);
    assert_eq!(before_mounts, vec![horse, boat]);
    assert_eq!(rebuilt.get_steerer_link(boat), None);
    assert_eq!(rebuilt.get_steerer_link(horse), Some(ActorLink { mount: horse, rider: a, is_steering: true }));
}

#[test]
fn upkeep_leaves_only_live_actors_linked() {
    let mut links = ActorLinks::new();
    let (horse, boat) = (actor(1), actor(2));
    let (a, b, c) = (actor(3), actor(4), actor(5));
    links.steer(horse, a).unwrap();
    let lb = links.ride(horse, b).unwrap();
    links.ride(boat, c).unwrap();
    // `a` and `boat` have died.
    let alive = vec![horse, b, c];
    let kept = links.maintain_links(&alive);
    assert_eq!(kept, vec![ActorLink { mount: horse, rider: b, is_steering: false }]);
    assert_eq!(links.iter_mounts(), vec![horse]);
    for mount in links.iter_mounts() {
        assert!(alive.contains(&mount));
    }
    for x in [horse, boat, a, b, c] {
        if links.get_mount_link(x).is_some() {
            assert!(alive.contains(&x));
        }
    }
    assert_eq!(links.get_mount_link(a), None);
    assert_eq!(links.get_mount_link(c), None);
    assert_eq!(links.get_mount_link(b), links.get(lb));
    assert_eq!(links.get_steerer_link(horse), None);
}
