use lib::contacts::{Blast, BATTERY, BOSS, NUKE, SCOUT};
use lib::drones::Drone;
use lib::engagement::{Contact, Observation};
use lib::jets::JetLock;
use lib::sector::{DroneFate, DroneSense, JetTurn, Sector, Sighting};
use lib::shield::FULL_SHIELD;

fn sighting(out_of_bounds: bool, hits_shield: bool, main_sweep: bool, sees: Vec<bool>, keys: Vec<Option<u32>>) -> Sighting {
    Sighting { obs: Observation { out_of_bounds, hits_shield, main_sweep }, sees, keys }
}

#[test]
fn payload_spawns_only_when_none_in_play() {
    let mut s = Sector::new();
    assert_eq!(s.spawn_if_absent(NUKE, false), None);
    assert_eq!(s.spawn_if_absent(NUKE, true), Some(1));
    assert_eq!(s.spawn_if_absent(NUKE, true), None);
    assert_eq!(s.spawn_if_absent(BOSS, true), Some(2));
    assert_eq!(s.hostiles.len(), 2);
    s.hostiles[0].active = false;
    assert_eq!(s.spawn_if_absent(NUKE, true), Some(3));
}

#[test]
fn battery_cap_is_at_least_one() {
    let mut s = Sector::new();
    assert!(s.battery_below_cap(0));
    s.spawn(BATTERY);
    assert!(!s.battery_below_cap(0));
    assert!(!s.battery_below_cap(1));
    assert!(s.battery_below_cap(3));
    s.spawn(SCOUT);
    s.spawn(BATTERY);
    s.spawn(BATTERY);
    assert!(!s.battery_below_cap(3));
}

#[test]
fn patrol_is_kept_at_two() {
    let mut s = Sector::new();
    s.man_patrol();
    s.man_patrol();
    assert_eq!(s.jets.len(), 2);
}

#[test]
fn sweep_over_all_contacts() {
    let mut s = Sector::new();
    s.man_patrol();
    s.spawn(BATTERY);
    s.spawn(SCOUT);
    s.spawn(NUKE);
    s.spawn(BATTERY);
    s.hostiles[3].active = false;
    let sightings = vec![
        sighting(false, false, true, vec![false, false], vec![Some(9), Some(3)]),
        sighting(false, false, false, vec![false, false], vec![None, None]),
        sighting(false, true, false, vec![false, false], vec![None, None]),
        sighting(false, false, true, vec![true, true], vec![Some(1), Some(1)]),
    ];
    let (contacts, reset) = s.sweep(&sightings);
    assert!(!reset);
    assert_eq!(contacts[0], Some(Contact::Detected { jet_lock: None, sweep_lock: Some(1), drone_launched: true }));
    assert_eq!(contacts[1], Some(Contact::Unseen));
    assert_eq!(contacts[2], Some(Contact::Impact { shield_down: false }));
    assert_eq!(contacts[3], None);
    assert_eq!(s.shield, FULL_SHIELD - 50);
    assert!(!s.hostiles[2].active);
    assert_eq!(s.jets[1].lock_target_id, Some(1));
    assert_eq!(s.drones, vec![Drone { target_id: 1, active: true }]);
}

#[test]
fn sweep_resets_when_shield_falls() {
    let mut s = Sector::new();
    s.man_patrol();
    s.shield = 40;
    s.spawn(BOSS);
    s.spawn(BATTERY);
    let sightings = vec![
        sighting(false, true, false, vec![false, false], vec![None, None]),
        sighting(false, false, true, vec![false, false], vec![Some(2), Some(2)]),
    ];
    let (contacts, reset) = s.sweep(&sightings);
    assert!(reset);
    assert_eq!(contacts[0], Some(Contact::Impact { shield_down: true }));
    assert!(matches!(contacts[1], Some(Contact::Detected { .. })));
    assert_eq!(s.shield, FULL_SHIELD);
    assert!(s.hostiles.is_empty());
    assert!(s.drones.is_empty());
}

#[test]
fn jet_round_fires_on_charged_locks() {
    let mut s = Sector::new();
    s.man_patrol();
    s.spawn(BOSS);
    s.spawn(NUKE);
    s.spawn(BATTERY);
    s.jets[0] = JetLock { active: true, lock_target_id: Some(1) };
    s.jets[1] = JetLock { active: true, lock_target_id: Some(2) };
    s.jets.push(JetLock { active: true, lock_target_id: Some(9) });
    assert!(s.check_rules());
    assert_eq!(s.lock_targets(), vec![Some(0), Some(1), None]);
    let turns = s.jet_round(&vec![true, false, true]);
    assert_eq!(turns[0], JetTurn { found: Some(0), fired: Some((0, Blast::Massive)) });
    assert_eq!(turns[1], JetTurn { found: Some(1), fired: None });
    assert_eq!(turns[2], JetTurn { found: None, fired: None });
    assert_eq!(s.hostiles[0].health, 2);
    assert!(s.hostiles[0].active && s.hostiles[1].active);
    assert_eq!(s.jets[0].lock_target_id, None);
    assert_eq!(s.jets[1].lock_target_id, Some(2));
    assert_eq!(s.jets[2].lock_target_id, None);
    let turns = s.jet_round(&vec![false, true, false]);
    assert_eq!(turns[1].fired, Some((1, Blast::Nuclear)));
    assert!(!s.hostiles[1].active);
}

#[test]
fn rules_are_checked() {
    let mut s = Sector::new();
    s.man_patrol();
    assert!(s.check_rules());
    s.jets[0].lock_target_id = Some(4);
    s.jets[1].lock_target_id = Some(4);
    assert!(!s.check_rules());
    s.jets[1].lock_target_id = None;
    s.drones.push(Drone { target_id: 3, active: true });
    s.drones.push(Drone { target_id: 3, active: false });
    assert!(s.check_rules());
    s.drones[1].active = true;
    assert!(!s.check_rules());
    s.drones[1].active = false;
    s.shield = 101;
    assert!(!s.check_rules());
    s.shield = 100;
    s.jets[1].active = false;
    assert!(!s.check_rules());
}

#[test]
fn batteries_come_one_at_a_time_up_to_the_cap() {
    let mut s = Sector::new();
    assert_eq!(s.spawn_battery_if_room(2, false), None);
    assert_eq!(s.spawn_battery_if_room(2, true), Some(1));
    assert_eq!(s.spawn_battery_if_room(2, true), Some(2));
    assert_eq!(s.spawn_battery_if_room(2, true), None);
    assert_eq!(s.spawn_battery_if_room(0, true), None);
    assert_eq!(s.hostiles.len(), 2);
    s.hostiles[0].active = false;
    assert_eq!(s.spawn_battery_if_room(0, true), None);
    s.hostiles[1].active = false;
    assert_eq!(s.spawn_battery_if_room(0, true), Some(3));
}

#[test]
fn sweep_costs_shield_per_impact() {
    let mut s = Sector::new();
    s.man_patrol();
    s.spawn(SCOUT);
    s.spawn(BATTERY);
    s.spawn(BOSS);
    let hit = || sighting(false, true, false, vec![false, false], vec![None, None]);
    let (contacts, reset) = s.sweep(&vec![hit(), hit(), hit()]);
    assert!(!reset);
    assert_eq!(s.shield, FULL_SHIELD - 5 - 10 - 40);
    assert!(contacts.iter().all(|c| *c == Some(Contact::Impact { shield_down: false })));
    assert!(s.hostiles.iter().all(|h| !h.active));
}

fn sense(in_anti_air_range: bool, battery_fire_hits: bool, in_seeker_range: bool, arrived: bool, close: bool) -> DroneSense {
    DroneSense { in_anti_air_range, battery_fire_hits, in_seeker_range, arrived, close }
}

#[test]
fn drone_fates() {
    let mut s = Sector::new();
    s.spawn(BOSS);
    s.spawn(BATTERY);
    s.spawn(SCOUT);
    for id in [1, 2, 2, 3, 3, 9] {
        s.drones.push(Drone { target_id: id, active: true });
    }
    assert_eq!(s.drone_step(0, &sense(true, false, true, false, true)), (Some(0), DroneFate::ShotDown));
    assert_eq!(s.drone_step(1, &sense(true, false, true, false, false)), (Some(1), DroneFate::Flying { seeking: true }));
    assert!(s.drones[1].active);
    assert_eq!(s.drone_step(2, &sense(true, true, true, false, true)), (Some(1), DroneFate::ShotDown));
    assert_eq!(s.drone_step(3, &sense(false, false, true, false, true)), (Some(2), DroneFate::Detonated { target: 2, blast: Blast::Explosion }));
    assert!(!s.hostiles[2].active);
    assert_eq!(s.drone_step(4, &sense(false, false, false, true, false)), (None, DroneFate::Spent));
    assert_eq!(s.drone_step(5, &sense(true, true, true, false, true)), (None, DroneFate::Flying { seeking: false }));
    assert!(!s.drones[0].active && !s.drones[2].active && !s.drones[3].active && !s.drones[4].active);
    assert!(s.hostiles[0].active && s.hostiles[1].active);
}

#[test]
fn dreadnought_shrugs_off_a_drone() {
    let mut s = Sector::new();
    s.spawn(BOSS);
    s.drones.push(Drone { target_id: 1, active: true });
    assert_eq!(s.drone_step(0, &sense(false, false, true, false, true)), (Some(0), DroneFate::Detonated { target: 0, blast: Blast::FailurePuff }));
    assert!(s.hostiles[0].active);
    assert!(!s.drones[0].active);
}
