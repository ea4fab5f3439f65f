use vstd::prelude::*;
use crate::contacts::{Hostile, Blast, BATTERY, BOSS, first_live, none_live, find_active};

verus! {

/// The discrete part of an interceptor drone: the contact it hunts and
/// whether it is still flying.
#[derive(Clone, Copy, Debug, PartialEq, Eq, Structural)]
pub struct Drone {
    pub target_id: u32,
    pub active: bool,
}

/// Some flying drone hunts the contact `id`.
pub open spec fn hunted(drones: Seq<Drone>, id: u32) -> bool {
    exists|k: int| 0 <= k < drones.len() && (#[trigger] drones[k]).active && drones[k].target_id == id
}

/// No two flying drones hunt the same contact.
pub open spec fn drones_unique(drones: Seq<Drone>) -> bool {
    forall|a: int, b: int|
        0 <= a < drones.len() && 0 <= b < drones.len() && a != b && (#[trigger] drones[a]).active
            && (#[trigger] drones[b]).active ==> drones[a].target_id != drones[b].target_id
}

/// Whether some flying drone already hunts the contact `id`.
pub fn is_hunted(drones: &Vec<Drone>, id: u32) -> (r: bool)
    ensures
        r == hunted(drones@, id),
{
    let mut i: usize = 0;
    while i < drones.len()
        invariant
            i <= drones.len(),
            forall|k: int| 0 <= k < i ==> !((#[trigger] drones@[k]).active && drones@[k].target_id == id),
        decreases drones.len() - i,
    {
        if drones[i].active && drones[i].target_id == id {
            return true;
        }
        i = i + 1;
    }
    false
}

/// Launches a drone at a detected contact unless a flying drone already
/// hunts it. Returns whether one was launched. Afterwards a flying drone
/// hunts the contact, and no contact is hunted twice if none was before.
pub fn dispatch(drones: &mut Vec<Drone>, id: u32) -> (launched: bool)
    ensures
        launched == !hunted(old(drones)@, id),
        launched == forall|k: int| 0 <= k < old(drones)@.len() ==> !(#[trigger] old(drones)@[k]).active || old(drones)@[k].target_id != id,
        final(drones)@.len() == old(drones)@.len() + if launched { 1int } else { 0int },
        launched ==> final(drones)@.last() == (Drone { target_id: id, active: true }),
        final(drones)@ == if launched {
            old(drones)@.push(Drone { target_id: id, active: true })
        } else {
            old(drones)@
        },
        hunted(final(drones)@, id),
        drones_unique(old(drones)@) ==> drones_unique(final(drones)@),
{
    if is_hunted(drones, id) {
        false
    } else {
        drones.push(Drone { target_id: id, active: true });
        let ghost n = drones@.len() - 1;
        assert(drones@[n].active && drones@[n].target_id == id);
        true
    }
}

/// What ground fire a contact puts up against a drone that comes close.
#[derive(Clone, Copy, Debug, PartialEq, Eq, Structural)]
pub enum AntiAir {
    /// The drone is shot down.
    Certain,
    /// The drone is shot down on a nine-in-ten roll.
    Chance,
    /// No ground fire.
    Harmless,
}

/// Dreadnoughts always shoot drones down, batteries usually, others never.
pub open spec fn spec_anti_air(target_type: u8) -> AntiAir {
    if target_type == BOSS {
        AntiAir::Certain
    } else if target_type == BATTERY {
        AntiAir::Chance
    } else {
        AntiAir::Harmless
    }
}

/// Only batteries and dreadnoughts fire on drones: a dreadnought always
/// brings one down, a battery on a roll, nothing else ever does.
pub proof fn lemma_anti_air(target_type: u8)
    ensures
        spec_anti_air(target_type) == AntiAir::Certain <==> target_type == BOSS,
        spec_anti_air(target_type) == AntiAir::Chance <==> target_type == BATTERY,
        spec_anti_air(target_type) == AntiAir::Harmless <==> (target_type != BOSS && target_type != BATTERY),
{
}

/// The ground fire a contact of this type puts up.
pub fn anti_air(target_type: u8) -> (a: AntiAir)
    ensures
        a == spec_anti_air(target_type),
        (a == AntiAir::Certain) == (target_type == BOSS),
        (a == AntiAir::Chance) == (target_type == BATTERY),
        (a == AntiAir::Harmless) == (target_type != BOSS && target_type != BATTERY),
{
    if target_type == BOSS {
        AntiAir::Certain
    } else if target_type == BATTERY {
        AntiAir::Chance
    } else {
        AntiAir::Harmless
    }
}

/// The drone is lost (shot down, or out of track); it leaves a puff.
pub fn lose(d: &mut Drone) -> (b: Blast)
    requires
        old(d).active,
    ensures
        *final(d) == (Drone { active: false, ..*old(d) }),
        b == Blast::FailurePuff,
{
    d.active = false;
    Blast::FailurePuff
}

/// The contact after a drone reaches it: a dreadnought shrugs it off,
/// anything else is destroyed.
pub open spec fn hit_by_drone(h: Hostile) -> Hostile {
    if h.target_type == BOSS {
        h
    } else {
        Hostile { active: false, ..h }
    }
}

/// The burst a drone strike leaves: an explosion at the contact, or a puff
/// at the drone when a dreadnought shrugs it off.
pub open spec fn drone_blast(h: Hostile) -> Blast {
    if h.target_type == BOSS {
        Blast::FailurePuff
    } else {
        Blast::Explosion
    }
}

/// A drone destroys whatever contact it reaches except a dreadnought, and
/// leaves an explosion there; a dreadnought is left exactly as it was, and
/// the drone only leaves a puff. Nothing but whether the contact is in play
/// changes.
pub proof fn lemma_drone_hit(h: Hostile)
    ensures
        hit_by_drone(h).active == (h.active && h.target_type == BOSS),
        hit_by_drone(h).id == h.id,
        hit_by_drone(h).target_type == h.target_type,
        hit_by_drone(h).health == h.health,
        hit_by_drone(h).is_heavy == h.is_heavy,
        h.target_type != BOSS ==> drone_blast(h) == Blast::Explosion,
        h.target_type == BOSS ==> drone_blast(h) == Blast::FailurePuff && hit_by_drone(h) == h,
{
}

/// The drone has reached its contact and detonates: it leaves play, and
/// the contact, if still in play, is destroyed unless it is a dreadnought.
/// Returns the contact reached and the burst left behind.
pub fn detonate(d: &mut Drone, hostiles: &mut Vec<Hostile>) -> (r: Option<(usize, Blast)>)
    requires
        old(d).active,
    ensures
        *final(d) == (Drone { active: false, ..*old(d) }),
        match r {
            Some((k, b)) => {
                &&& first_live(old(hostiles)@, old(d).target_id, k as int)
                &&& final(hostiles)@ == old(hostiles)@.update(k as int, hit_by_drone(old(hostiles)@[k as int]))
                &&& b == drone_blast(old(hostiles)@[k as int])
            },
            None => none_live(old(hostiles)@, old(d).target_id) && final(hostiles)@ == old(hostiles)@,
        },
        match r {
            Some((k, b)) => {
                &&& final(hostiles)@[k as int].active == (old(hostiles)@[k as int].target_type == BOSS)
                &&& (b == Blast::Explosion) == (old(hostiles)@[k as int].target_type != BOSS)
                &&& (b == Blast::FailurePuff) == (old(hostiles)@[k as int].target_type == BOSS)
            },
            None => true,
        },
{
    d.active = false;
    match find_active(hostiles, d.target_id) {
        None => None,
        Some(k) => {
            if hostiles[k].target_type != BOSS {
                let mut h = hostiles[k];
                h.active = false;
                hostiles[k] = h;
                Some((k, Blast::Explosion))
            } else {
                Some((k, Blast::FailurePuff))
            }
        },
    }
}

/// Grounding a drone never makes two flying drones hunt the same contact.
pub proof fn lemma_grounding_keeps_unique(drones: Seq<Drone>, i: int)
    requires
        drones_unique(drones),
        0 <= i < drones.len(),
    ensures
        drones_unique(drones.update(i, Drone { active: false, ..drones[i] })),
{
    let after = drones.update(i, Drone { active: false, ..drones[i] });
    assert forall|a: int, b: int|
        0 <= a < after.len() && 0 <= b < after.len() && a != b && (#[trigger] after[a]).active
            && (#[trigger] after[b]).active implies after[a].target_id != after[b].target_id by {
        assert(after[a] == drones[a] && after[b] == drones[b]);
    }
}

/// Number of flying drones.
pub open spec fn count_flying(drones: Seq<Drone>) -> nat
    decreases drones.len(),
{
    if drones.len() == 0 {
        0
    } else {
        count_flying(drones.drop_last()) + if drones.last().active { 1nat } else { 0nat }
    }
}

/// Counts the flying drones (shown on the display).
pub fn count_active_drones(drones: &Vec<Drone>) -> (n: usize)
    ensures
        n == count_flying(drones@),
{
    let mut n: usize = 0;
    let mut i: usize = 0;
    while i < drones.len()
        invariant
            i <= drones.len(),
            n == count_flying(drones@.take(i as int)),
            n <= i,
        decreases drones.len() - i,
    {
        assert(drones@.take(i + 1).drop_last() =~= drones@.take(i as int));
        if drones[i].active {
            n = n + 1;
        }
        i = i + 1;
    }
    assert(drones@.take(i as int) =~= drones@);
    n
}

} // verus!
