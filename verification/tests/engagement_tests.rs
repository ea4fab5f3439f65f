use lib::contacts::{Hostile, BATTERY, BOSS, NUKE, SCOUT};
use lib::drones::{
    anti_air, count_active_drones, detonate, dispatch, is_hunted, lose, AntiAir, Drone,
};
use lib::contacts::Blast;
use lib::engagement::{Contact, Engagement, Observation};
use lib::jets::JetLock;
use lib::shield::{absorb, depletion, FULL_SHIELD};

fn hostile(id: u32, target_type: u8) -> Hostile {
    Hostile {
        id,
        target_type,
        health: if target_type == BOSS { 3 } else { 1 },
        is_heavy: target_type != SCOUT,
        active: true,
    }
}

fn patrol() -> Vec<JetLock> {
    vec![
        JetLock { active: true, lock_target_id: None },
        JetLock { active: true, lock_target_id: None },
    ]
}

fn seen_by_main() -> Observation {
    Observation { out_of_bounds: false, hits_shield: false, main_sweep: true }
}

#[test]
fn main_sweep_detection_locks_nearest_jet_and_sends_drone() {
    let mut e = Engagement::open(patrol(), Vec::new(), FULL_SHIELD);
    let mut h = hostile(1, BATTERY);
    let c = e.resolve_contact(&mut h, &seen_by_main(), &vec![false, false], &vec![Some(50), Some(20)]);
    assert_eq!(c, Contact::Detected { jet_lock: None, sweep_lock: Some(1), drone_launched: true });
    assert_eq!(e.jets[1].lock_target_id, Some(1));
    assert_eq!(e.jets[0].lock_target_id, None);
    assert_eq!(e.locked, vec![1]);
    assert_eq!(e.drones, vec![Drone { target_id: 1, active: true }]);
    assert!(h.active);
}

#[test]
fn jet_sweep_lock_comes_first() {
    let mut e = Engagement::open(patrol(), Vec::new(), FULL_SHIELD);
    let mut h = hostile(2, NUKE);
    let c = e.resolve_contact(&mut h, &seen_by_main(), &vec![false, true], &vec![Some(1), Some(9)]);
    assert_eq!(c, Contact::Detected { jet_lock: Some(1), sweep_lock: None, drone_launched: true });
    assert_eq!(e.jets[1].lock_target_id, Some(2));
    assert_eq!(e.jets[0].lock_target_id, None);
}

#[test]
fn scouts_are_detected_but_never_locked() {
    let mut e = Engagement::open(patrol(), Vec::new(), FULL_SHIELD);
    let mut h = hostile(3, SCOUT);
    let c = e.resolve_contact(&mut h, &seen_by_main(), &vec![true, true], &vec![Some(1), Some(1)]);
    assert_eq!(c, Contact::Detected { jet_lock: None, sweep_lock: None, drone_launched: true });
    assert!(e.jets.iter().all(|j| j.lock_target_id.is_none()));
}

#[test]
fn already_locked_contact_gets_no_second_jet() {
    let jets = vec![
        JetLock { active: true, lock_target_id: Some(4) },
        JetLock { active: true, lock_target_id: None },
    ];
    let drones = vec![Drone { target_id: 4, active: true }];
    let mut e = Engagement::open(jets, drones, FULL_SHIELD);
    let mut h = hostile(4, BATTERY);
    let c = e.resolve_contact(&mut h, &seen_by_main(), &vec![true, true], &vec![Some(1), Some(1)]);
    assert_eq!(c, Contact::Detected { jet_lock: None, sweep_lock: None, drone_launched: false });
    assert_eq!(e.jets[1].lock_target_id, None);
    assert_eq!(e.drones.len(), 1);
}

#[test]
fn unseen_contact_changes_nothing() {
    let mut e = Engagement::open(patrol(), Vec::new(), FULL_SHIELD);
    let mut h = hostile(5, BATTERY);
    let obs = Observation { out_of_bounds: false, hits_shield: false, main_sweep: false };
    let c = e.resolve_contact(&mut h, &obs, &vec![false, false], &vec![Some(1), Some(1)]);
    assert_eq!(c, Contact::Unseen);
    assert!(e.drones.is_empty());
    assert!(e.locked.is_empty());
}

#[test]
fn departed_contact_leaves_play() {
    let mut e = Engagement::open(patrol(), Vec::new(), FULL_SHIELD);
    let mut h = hostile(6, BATTERY);
    let obs = Observation { out_of_bounds: true, hits_shield: true, main_sweep: true };
    assert_eq!(e.resolve_contact(&mut h, &obs, &vec![true, true], &vec![Some(1), Some(1)]), Contact::Departed);
    assert!(!h.active);
    assert_eq!(e.shield, FULL_SHIELD);
}

#[test]
fn impacts_drain_shield_and_force_reset() {
    let mut e = Engagement::open(patrol(), vec![Drone { target_id: 9, active: true }], FULL_SHIELD);
    let hit = Observation { out_of_bounds: false, hits_shield: true, main_sweep: false };
    let mut a = hostile(7, NUKE);
    assert_eq!(e.resolve_contact(&mut a, &hit, &vec![false, false], &vec![None, None]), Contact::Impact { shield_down: false });
    assert_eq!(e.shield, 50);
    assert!(!a.active);
    let mut b = hostile(8, BOSS);
    assert_eq!(e.resolve_contact(&mut b, &hit, &vec![false, false], &vec![None, None]), Contact::Impact { shield_down: false });
    assert_eq!(e.shield, 10);
    let mut c = hostile(9, BATTERY);
    assert_eq!(e.resolve_contact(&mut c, &hit, &vec![false, false], &vec![None, None]), Contact::Impact { shield_down: true });
    assert_eq!(e.shield, 0);
    assert!(e.reset_pending);
    assert!(e.settle());
    assert_eq!(e.shield, FULL_SHIELD);
    assert!(e.drones.is_empty());
    assert!(!e.settle());
}

#[test]
fn shield_costs() {
    assert_eq!(depletion(NUKE), 50);
    assert_eq!(depletion(BOSS), 40);
    assert_eq!(depletion(BATTERY), 10);
    assert_eq!(depletion(SCOUT), 5);
    let mut s: u32 = 7;
    assert!(!absorb(&mut s, SCOUT));
    assert_eq!(s, 2);
    assert!(absorb(&mut s, SCOUT));
    assert_eq!(s, 0);
}

#[test]
fn dispatch_sends_one_drone_per_contact() {
    let mut drones = vec![Drone { target_id: 3, active: false }];
    assert!(dispatch(&mut drones, 3));
    assert!(!dispatch(&mut drones, 3));
    assert!(dispatch(&mut drones, 4));
    assert_eq!(drones.len(), 3);
    assert!(is_hunted(&drones, 3));
    assert_eq!(count_active_drones(&drones), 2);
}

#[test]
fn ground_fire() {
    assert_eq!(anti_air(BOSS), AntiAir::Certain);
    assert_eq!(anti_air(BATTERY), AntiAir::Chance);
    assert_eq!(anti_air(NUKE), AntiAir::Harmless);
    assert_eq!(anti_air(SCOUT), AntiAir::Harmless);
}

#[test]
fn drones_detonate() {
    let mut hostiles = vec![hostile(1, BOSS), hostile(2, BATTERY)];
    let mut d = Drone { target_id: 1, active: true };
    assert_eq!(detonate(&mut d, &mut hostiles), Some((0, Blast::FailurePuff)));
    assert!(!d.active);
    assert!(hostiles[0].active);
    let mut e = Drone { target_id: 2, active: true };
    assert_eq!(detonate(&mut e, &mut hostiles), Some((1, Blast::Explosion)));
    assert!(!hostiles[1].active);
    let mut f = Drone { target_id: 2, active: true };
    assert_eq!(detonate(&mut f, &mut hostiles), None);
    let mut g = Drone { target_id: 5, active: true };
    assert_eq!(lose(&mut g), Blast::FailurePuff);
    assert!(!g.active);
}
