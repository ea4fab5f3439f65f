use lib::contacts::{Blast, Hostile, BATTERY, BOSS, NUKE};
use lib::jets::{
    any_jet_sees, fill_patrol, fire, first_free_jet_seeing, locked_by_active, nearest_free_jet,
    track_target, JetLock,
};

fn jet(active: bool, lock: Option<u32>) -> JetLock {
    JetLock { active, lock_target_id: lock }
}

fn hostile(id: u32, target_type: u8, health: u8, active: bool) -> Hostile {
    Hostile { id, target_type, health, is_heavy: true, active }
}

#[test]
fn patrol_is_topped_up_to_two() {
    let mut jets = Vec::new();
    fill_patrol(&mut jets);
    assert_eq!(jets, vec![jet(true, None), jet(true, None)]);
    let mut one = vec![jet(true, Some(3))];
    fill_patrol(&mut one);
    assert_eq!(one, vec![jet(true, Some(3)), jet(true, None)]);
    let mut three = vec![jet(true, Some(1)), jet(false, None), jet(true, None)];
    fill_patrol(&mut three);
    assert_eq!(three.len(), 3);
}

#[test]
fn locks_of_flying_jets_in_order() {
    let jets = vec![jet(true, Some(4)), jet(false, Some(9)), jet(true, None), jet(true, Some(2))];
    assert_eq!(locked_by_active(&jets), vec![4, 2]);
}

#[test]
fn nearest_free_jet_takes_smallest_key_first_on_ties() {
    let jets = vec![jet(true, None), jet(true, None), jet(true, None)];
    assert_eq!(nearest_free_jet(&jets, &vec![Some(50), Some(20), Some(20)]), Some(1));
    assert_eq!(nearest_free_jet(&jets, &vec![Some(5), Some(20), Some(5)]), Some(0));
    assert_eq!(nearest_free_jet(&jets, &vec![None, None, Some(90)]), Some(2));
    assert_eq!(nearest_free_jet(&jets, &vec![None, None, None]), None);
}

#[test]
fn nearest_free_jet_skips_locked_and_grounded() {
    let jets = vec![jet(true, Some(1)), jet(false, None), jet(true, None)];
    assert_eq!(nearest_free_jet(&jets, &vec![Some(1), Some(2), Some(30)]), Some(2));
    let busy = vec![jet(true, Some(1)), jet(false, None)];
    assert_eq!(nearest_free_jet(&busy, &vec![Some(1), Some(2)]), None);
}

#[test]
fn first_free_jet_seeing_contact() {
    let jets = vec![jet(true, Some(8)), jet(false, None), jet(true, None), jet(true, None)];
    assert_eq!(first_free_jet_seeing(&jets, &vec![true, true, false, true]), Some(3));
    assert_eq!(first_free_jet_seeing(&jets, &vec![true, true, false, false]), None);
    assert!(any_jet_sees(&jets, &vec![true, false, false, false]));
    assert!(!any_jet_sees(&jets, &vec![false, true, false, false]));
}

#[test]
fn tracking_drops_lost_targets() {
    let hostiles = vec![hostile(1, BATTERY, 1, false), hostile(2, BATTERY, 1, true)];
    let mut j = jet(true, Some(2));
    assert_eq!(track_target(&mut j, &hostiles), Some(1));
    assert_eq!(j.lock_target_id, Some(2));
    let mut lost = jet(true, Some(1));
    assert_eq!(track_target(&mut lost, &hostiles), None);
    assert_eq!(lost.lock_target_id, None);
    let mut idle = jet(true, None);
    assert_eq!(track_target(&mut idle, &hostiles), None);
}

#[test]
fn firing_strikes_and_releases() {
    let mut hostiles = vec![hostile(1, BOSS, 3, true), hostile(2, NUKE, 1, true)];
    let mut j = jet(true, Some(1));
    assert_eq!(fire(&mut j, &mut hostiles), Some((0, Blast::Massive)));
    assert_eq!(j.lock_target_id, None);
    assert_eq!(hostiles[0].health, 2);
    assert!(hostiles[0].active);
    let mut k = jet(true, Some(2));
    assert_eq!(fire(&mut k, &mut hostiles), Some((1, Blast::Nuclear)));
    assert!(!hostiles[1].active);
    let mut gone = jet(true, Some(2));
    assert_eq!(fire(&mut gone, &mut hostiles), None);
    assert_eq!(gone.lock_target_id, None);
}
