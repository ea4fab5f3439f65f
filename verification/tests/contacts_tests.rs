use lib::contacts::{
    any_active_of_kind, commission, count_active_of_kind, find_active, find_active_of_kind,
    launches_scouts, spawn_edge, strike, Blast, Edge, Hostile, BATTERY, BOSS, NUKE, SCOUT,
};

fn hostile(id: u32, target_type: u8, health: u8, active: bool) -> Hostile {
    Hostile { id, target_type, health, is_heavy: target_type != SCOUT, active }
}

#[test]
fn commission_hands_out_ids_in_order() {
    let mut next: u32 = 1;
    let a = commission(BATTERY, &mut next);
    let b = commission(SCOUT, &mut next);
    assert_eq!(a.id, 1);
    assert_eq!(b.id, 2);
    assert_eq!(next, 3);
    assert!(a.is_heavy && a.active && a.health == 1);
    assert!(!b.is_heavy && b.active && b.health == 1);
}

#[test]
fn commission_boss_has_three_health() {
    let mut next: u32 = 9;
    let boss = commission(BOSS, &mut next);
    assert_eq!(boss.health, 3);
    assert!(boss.is_heavy);
    let nuke = commission(NUKE, &mut next);
    assert_eq!(nuke.health, 1);
    assert!(nuke.is_heavy);
    assert_eq!(nuke.id, 10);
}

#[test]
fn commission_wraps_the_counter() {
    let mut next: u32 = u32::MAX;
    let h = commission(BATTERY, &mut next);
    assert_eq!(h.id, u32::MAX);
    assert_eq!(next, 0);
}

#[test]
fn dreadnought_takes_three_strikes() {
    let mut boss = hostile(4, BOSS, 3, true);
    assert_eq!(strike(&mut boss), Blast::Massive);
    assert!(boss.active && boss.health == 2);
    assert_eq!(strike(&mut boss), Blast::Massive);
    assert!(boss.active && boss.health == 1);
    assert_eq!(strike(&mut boss), Blast::Massive);
    assert!(!boss.active && boss.health == 0);
    assert_eq!(strike(&mut boss), Blast::Massive);
    assert!(!boss.active && boss.health == 0);
}

#[test]
fn single_strike_destroys_others() {
    let mut nuke = hostile(1, NUKE, 1, true);
    assert_eq!(strike(&mut nuke), Blast::Nuclear);
    assert!(!nuke.active);
    let mut battery = hostile(2, BATTERY, 1, true);
    assert_eq!(strike(&mut battery), Blast::Massive);
    assert!(!battery.active);
    let mut scout = hostile(3, SCOUT, 1, true);
    assert_eq!(strike(&mut scout), Blast::Massive);
    assert!(!scout.active);
}

#[test]
fn particle_counts() {
    assert_eq!(Blast::Explosion.particle_count(), 10);
    assert_eq!(Blast::Massive.particle_count(), 30);
    assert_eq!(Blast::FailurePuff.particle_count(), 6);
    assert_eq!(Blast::Nuclear.particle_count(), 80);
}

#[test]
fn find_active_skips_inactive_and_takes_first() {
    let v = vec![hostile(5, SCOUT, 1, false), hostile(5, BATTERY, 1, true), hostile(5, NUKE, 1, true)];
    assert_eq!(find_active(&v, 5), Some(1));
    assert_eq!(find_active(&v, 6), None);
    assert_eq!(find_active(&Vec::new(), 5), None);
}

#[test]
fn kinds_in_play() {
    let v = vec![
        hostile(1, BATTERY, 1, true),
        hostile(2, NUKE, 1, false),
        hostile(3, BATTERY, 1, true),
        hostile(4, BOSS, 3, true),
    ];
    assert_eq!(count_active_of_kind(&v, BATTERY), 2);
    assert_eq!(count_active_of_kind(&v, NUKE), 0);
    assert!(!any_active_of_kind(&v, NUKE));
    assert!(any_active_of_kind(&v, BOSS));
    assert_eq!(find_active_of_kind(&v, BOSS), Some(3));
    assert_eq!(find_active_of_kind(&v, NUKE), None);
}

#[test]
fn scouts_launch_from_batteries_and_dreadnoughts() {
    assert!(launches_scouts(&hostile(1, BATTERY, 1, true)));
    assert!(launches_scouts(&hostile(1, BOSS, 3, true)));
    assert!(!launches_scouts(&hostile(1, BOSS, 3, false)));
    assert!(!launches_scouts(&hostile(1, NUKE, 1, true)));
    assert!(!launches_scouts(&hostile(1, SCOUT, 1, true)));
}

#[test]
fn spawn_edges() {
    assert_eq!(spawn_edge(0), Edge::Top);
    assert_eq!(spawn_edge(1), Edge::Bottom);
    assert_eq!(spawn_edge(2), Edge::Left);
    assert_eq!(spawn_edge(3), Edge::Right);
    assert_eq!(spawn_edge(77), Edge::Right);
}
