use lib::contacts::{Blast, Hostile, BATTERY, BOSS};
use lib::drones::Drone;
use lib::engagement::{Contact, Observation};
use lib::jets::JetLock;
use lib::roster::retain_marked;
use lib::sector::{Sector, FIRST_ENEMY_ID};
use lib::shield::FULL_SHIELD;

#[test]
fn new_sector_is_empty() {
    let s = Sector::new();
    assert_eq!(s.next_enemy_id, FIRST_ENEMY_ID);
    assert_eq!(s.shield, FULL_SHIELD);
    assert!(s.hostiles.is_empty());
    assert!(s.jets.is_empty());
    assert!(s.drones.is_empty());
}

#[test]
fn init_clears_sector() {
    let mut s = Sector::new();
    s.spawn(BATTERY);
    s.man_patrol();
    s.shield = 30;
    s.init();
    assert!(s.hostiles.is_empty());
    assert!(s.jets.is_empty());
    assert!(s.drones.is_empty());
    assert_eq!(s.shield, FULL_SHIELD);
    assert_eq!(s.next_enemy_id, FIRST_ENEMY_ID);
}

#[test]
fn detected_battery_is_hunted() {
    let mut s = Sector::new();
    s.man_patrol();
    let id = s.spawn(BATTERY);
    assert_eq!(id, 1);
    let mut e = s.begin_sweep();
    let obs = Observation { out_of_bounds: false, hits_shield: false, main_sweep: true };
    let c = e.resolve_contact(&mut s.hostiles[0], &obs, &vec![false, false], &vec![Some(3), Some(4)]);
    assert_eq!(c, Contact::Detected { jet_lock: None, sweep_lock: Some(0), drone_launched: true });
    assert!(!s.end_sweep(e));
    assert_eq!(s.drones, vec![Drone { target_id: 1, active: true }]);
    assert_eq!(s.jets[0].lock_target_id, Some(1));
}

#[test]
fn shield_down_resets_sector() {
    let mut s = Sector::new();
    s.man_patrol();
    s.shield = 5;
    s.spawn(BOSS);
    s.spawn(BATTERY);
    let mut e = s.begin_sweep();
    let hit = Observation { out_of_bounds: false, hits_shield: true, main_sweep: false };
    let c = e.resolve_contact(&mut s.hostiles[0], &hit, &vec![false, false], &vec![None, None]);
    assert_eq!(c, Contact::Impact { shield_down: true });
    assert!(s.end_sweep(e));
    assert!(s.hostiles.is_empty());
    assert_eq!(s.shield, FULL_SHIELD);
    assert_eq!(s.jets.len(), 2);
    assert_eq!(s.next_enemy_id, 3);
}

#[test]
fn firing_and_pruning() {
    let mut s = Sector::new();
    s.man_patrol();
    s.spawn(BATTERY);
    s.spawn(BOSS);
    s.jets[0] = JetLock { active: true, lock_target_id: Some(1) };
    s.jets[1] = JetLock { active: true, lock_target_id: Some(2) };
    assert_eq!(s.fire(0), Some((0, Blast::Massive)));
    assert_eq!(s.fire(1), Some((1, Blast::Massive)));
    assert_eq!(s.jets[0].lock_target_id, None);
    assert_eq!(s.track(1), None);
    let (hf, df) = s.prune();
    assert_eq!(hf, vec![false, true]);
    assert!(df.is_empty());
    assert_eq!(s.hostiles, vec![Hostile { id: 2, target_type: BOSS, health: 2, is_heavy: true, active: true }]);
}

#[test]
fn drones_in_sector() {
    let mut s = Sector::new();
    s.spawn(BATTERY);
    s.drones.push(Drone { target_id: 1, active: true });
    s.drones.push(Drone { target_id: 7, active: true });
    assert_eq!(s.drone_target(0), Some(0));
    assert_eq!(s.drone_target(1), None);
    assert_eq!(s.lose_drone(1), Blast::FailurePuff);
    assert_eq!(s.detonate_drone(0), Some((0, Blast::Explosion)));
    let (hf, df) = s.prune();
    assert_eq!(hf, vec![false]);
    assert_eq!(df, vec![false, false]);
    assert!(s.hostiles.is_empty());
    assert!(s.drones.is_empty());
}

#[test]
fn retain_marked_keeps_order() {
    let mut v = vec!['a', 'b', 'c', 'd'];
    retain_marked(&mut v, &vec![true, false, false, true]);
    assert_eq!(v, vec!['a', 'd']);
    let mut w: Vec<u32> = vec![1, 2];
    retain_marked(&mut w, &vec![false, false]);
    assert!(w.is_empty());
}

#[test]
fn one_jet_per_contact_in_a_sweep() {
    let mut s = Sector::new();
    s.man_patrol();
    for _ in 0..3 {
        s.spawn(BATTERY);
    }
    let mut e = s.begin_sweep();
    let obs = Observation { out_of_bounds: false, hits_shield: false, main_sweep: true };
    let mut outcomes = Vec::new();
    for i in 0..3 {
        outcomes.push(e.resolve_contact(&mut s.hostiles[i], &obs, &vec![false, false], &vec![Some(10), Some(10)]));
    }
    assert_eq!(outcomes[0], Contact::Detected { jet_lock: None, sweep_lock: Some(0), drone_launched: true });
    assert_eq!(outcomes[1], Contact::Detected { jet_lock: None, sweep_lock: Some(1), drone_launched: true });
    assert_eq!(outcomes[2], Contact::Detected { jet_lock: None, sweep_lock: None, drone_launched: true });
    assert!(!s.end_sweep(e));
    assert_eq!(s.jets[0].lock_target_id, Some(1));
    assert_eq!(s.jets[1].lock_target_id, Some(2));
    assert_eq!(s.drones.len(), 3);
}

#[test]
fn ids_keep_counting() {
    let mut s = Sector::new();
    let ids: Vec<u32> = (0..5).map(|_| s.spawn(BATTERY)).collect();
    assert_eq!(ids, vec![1, 2, 3, 4, 5]);
    assert_eq!(s.next_enemy_id, 6);
}

#[test]
fn repeat_detection_sends_no_second_drone() {
    let mut s = Sector::new();
    s.man_patrol();
    s.spawn(BATTERY);
    let obs = Observation { out_of_bounds: false, hits_shield: false, main_sweep: true };
    for _ in 0..3 {
        let mut e = s.begin_sweep();
        e.resolve_contact(&mut s.hostiles[0], &obs, &vec![true, true], &vec![Some(1), Some(1)]);
        s.end_sweep(e);
    }
    assert_eq!(s.drones.len(), 1);
    assert_eq!(s.jets[0].lock_target_id, Some(1));
    assert_eq!(s.jets[1].lock_target_id, None);
}
