use vstd::prelude::*;
use crate::contacts::{
    Hostile, Blast, BOSS, BATTERY, retired_from, lemma_retired, ids_sound, lemma_count_kind_push, lemma_count_kind_zero,
    is_live, kind_in_play, count_kind, count_active_of_kind, any_active_of_kind, fresh_hostile, next_id, commission,
    first_live, none_live, struck, strike_blast, find_active,
};
use crate::jets::{JetLock, all_flying, spotted_by_jet, seer, locks_distinct, released, active_locks, patrol_jet, lemma_release_keeps_distinct, fill_patrol, track_target, fire};
use crate::drones::{Drone, drones_unique, anti_air, AntiAir, hunted, hit_by_drone, drone_blast, detonate, lose, lemma_grounding_keeps_unique};
use crate::shield::FULL_SHIELD;
use crate::engagement::{Engagement, Observation, Contact, after_outcome, SweepLedger, contact_result, ledger_after};
use crate::roster::{kept, lemma_kept_all, lemma_kept_count, lemma_kept_ids, retain_marked, hostile_flags, drone_flags, lemma_pruned_contacts, lemma_pruned_drones};

verus! {

/// The id the first contact of a sector gets.
pub const FIRST_ENEMY_ID: u32 = 1;

/// The discrete state of a defended sector: the id counter, the shield,
/// and the contacts, jets and drones in it.
pub struct Sector {
    pub next_enemy_id: u32,
    pub shield: u32,
    pub hostiles: Vec<Hostile>,
    pub jets: Vec<JetLock>,
    pub drones: Vec<Drone>,
}

/// What the caller measured about one contact before a radar sweep: the
/// observation, whether each jet's sweep has it (`sees`), and the order key
/// of each jet's distance to it (`keys`, `None` when out of reach).
pub struct Sighting {
    pub obs: Observation,
    pub sees: Vec<bool>,
    pub keys: Vec<Option<u32>>,
}

/// The kind of outcome a sweep gives a contact in play: out of the sector,
/// at the base, seen (by the main sweep or a jet's), or unseen.
pub open spec fn outcome_fits(c: Contact, s: Sighting, jets: Seq<JetLock>) -> bool {
    if s.obs.out_of_bounds {
        c == Contact::Departed
    } else if s.obs.hits_shield {
        c is Impact
    } else if s.obs.main_sweep || spotted_by_jet(jets, s.sees@) {
        c is Detected
    } else {
        c == Contact::Unseen
    }
}

/// The sweep detected the contact.
pub open spec fn detected_in(c: Option<Contact>) -> bool {
    match c {
        Some(Contact::Detected { .. }) => true,
        _ => false,
    }
}

/// The ledger a sweep starts from: the sector's jets with the ids they
/// hold, its drones and shield, and no reset due.
pub open spec fn sweep_start(jets: Seq<JetLock>, drones: Seq<Drone>, shield: u32) -> SweepLedger {
    SweepLedger { jets, locked: active_locks(jets), drones, shield, reset: false }
}

/// The first `n` contacts resolved in order from the ledger `s`: the ledger
/// after them, and each one's outcome (`None` for a contact out of play).
pub open spec fn sweep_fold(s: SweepLedger, hs: Seq<Hostile>, sights: Seq<Sighting>, n: nat) -> (SweepLedger, Seq<Option<Contact>>)
    decreases n,
{
    if n == 0 {
        (s, Seq::empty())
    } else {
        let (s1, cs) = sweep_fold(s, hs, sights, (n - 1) as nat);
        let i = n - 1;
        if hs[i].active {
            let g = sights[i];
            (
                ledger_after(s1, hs[i], g.obs, g.sees@, g.keys@),
                cs.push(Some(contact_result(s1, hs[i], g.obs, g.sees@, g.keys@))),
            )
        } else {
            (s1, cs.push(None))
        }
    }
}

/// Shield strength that the contacts among the first `n` that reach the
/// base cost.
pub open spec fn impact_cost(hs: Seq<Hostile>, sights: Seq<Sighting>, n: nat) -> int
    decreases n,
{
    if n == 0 {
        0
    } else {
        let i = n - 1;
        impact_cost(hs, sights, (n - 1) as nat) + if hs[i].active && !sights[i].obs.out_of_bounds
            && sights[i].obs.hits_shield {
            crate::shield::spec_depletion(hs[i].target_type) as int
        } else {
            0
        }
    }
}

/// A sweep that does not end in a reset costs the shield exactly the sum
/// of what each contact reaching the base costs.
pub proof fn lemma_sweep_shield(s: SweepLedger, hs: Seq<Hostile>, sights: Seq<Sighting>, n: nat)
    requires
        n <= hs.len(),
        n <= sights.len(),
        !s.reset,
        !sweep_fold(s, hs, sights, n).0.reset,
    ensures
        sweep_fold(s, hs, sights, n).0.shield == s.shield - impact_cost(hs, sights, n),
    decreases n,
{
    if n > 0 {
        let (s1, cs) = sweep_fold(s, hs, sights, (n - 1) as nat);
        let i = n - 1;
        if hs[i].active {
            let g = sights[i];
            assert(s1.reset ==> ledger_after(s1, hs[i], g.obs, g.sees@, g.keys@).reset);
        }
        lemma_sweep_shield(s, hs, sights, (n - 1) as nat);
    }
}

/// Whether a jet's sweep has a contact depends only on which jets fly.
proof fn lemma_spotted_same_fleet(a: Seq<JetLock>, b: Seq<JetLock>, sees: Seq<bool>)
    requires
        a.len() == b.len(),
        forall|j: int| 0 <= j < a.len() ==> (#[trigger] a[j]).active == b[j].active,
    ensures
        spotted_by_jet(a, sees) == spotted_by_jet(b, sees),
{
    if spotted_by_jet(a, sees) {
        let w = choose|w: int| #[trigger] seer(a, sees, w);
        assert(seer(b, sees, w));
    }
    if spotted_by_jet(b, sees) {
        let w = choose|w: int| #[trigger] seer(b, sees, w);
        assert(seer(a, sees, w));
    }
}

impl Sector {
    /// The sector's standing rules: every jet flies, no contact is held by
    /// two jets, none is hunted by two flying drones, and the shield is at
    /// most full.
    pub open spec fn wf(&self) -> bool {
        &&& all_flying(self.jets@)
        &&& locks_distinct(self.jets@)
        &&& drones_unique(self.drones@)
        &&& self.shield <= FULL_SHIELD
    }

    /// The sector as it starts: nothing in it, a full shield, and ids
    /// counting from one.
    pub open spec fn is_fresh(&self) -> bool {
        &&& self.next_enemy_id == FIRST_ENEMY_ID
        &&& self.shield == FULL_SHIELD
        &&& self.hostiles@.len() == 0
        &&& self.jets@.len() == 0
        &&& self.drones@.len() == 0
    }

    /// A fresh sector.
    pub fn new() -> (s: Sector)
        ensures
            s.is_fresh(),
            s.wf(),
    {
        Sector {
            next_enemy_id: FIRST_ENEMY_ID,
            shield: FULL_SHIELD,
            hostiles: Vec::new(),
            jets: Vec::new(),
            drones: Vec::new(),
        }
    }

    /// Starts the sector over: everything in it is cleared, the shield is
    /// full and ids count from one again.
    pub fn init(&mut self)
        ensures
            final(self).is_fresh(),
            final(self).wf(),
    {
        self.hostiles.clear();
        self.drones.clear();
        self.jets.clear();
        self.shield = FULL_SHIELD;
        self.next_enemy_id = FIRST_ENEMY_ID;
    }

    /// Brings a new contact of the given type into the sector under the
    /// next id. Returns that id.
    pub fn spawn(&mut self, target_type: u8) -> (id: u32)
        ensures
            old(self).wf() ==> final(self).wf(),
            id == old(self).next_enemy_id,
            final(self).next_enemy_id == next_id(old(self).next_enemy_id),
            final(self).hostiles@ == old(self).hostiles@.push(fresh_hostile(target_type, id)),
            final(self).jets@ == old(self).jets@,
            final(self).drones@ == old(self).drones@,
            final(self).shield == old(self).shield,
            forall|t: u8| #[trigger] count_kind(final(self).hostiles@, t) == count_kind(old(self).hostiles@, t)
                + if t == target_type { 1nat } else { 0nat },
            ids_sound(old(self).hostiles@, old(self).next_enemy_id) && old(self).next_enemy_id < u32::MAX
                ==> ids_sound(final(self).hostiles@, final(self).next_enemy_id),
    {
        proof {
            assert forall|t: u8| #[trigger] count_kind(old(self).hostiles@.push(fresh_hostile(target_type, old(self).next_enemy_id)), t)
                == count_kind(old(self).hostiles@, t) + if t == target_type { 1nat } else { 0nat } by {
                lemma_count_kind_push(old(self).hostiles@, fresh_hostile(target_type, old(self).next_enemy_id), t);
            }
        }
        let id = self.next_enemy_id;
        let h = commission(target_type, &mut self.next_enemy_id);
        self.hostiles.push(h);
        id
    }

    /// Keeps the patrol at full strength.
    pub fn man_patrol(&mut self)
        ensures
            old(self).wf() ==> final(self).wf(),
            final(self).jets@.len() == if old(self).jets@.len() < 2 { 2 } else { old(self).jets@.len() },
            forall|i: int| 0 <= i < old(self).jets@.len() ==> final(self).jets@[i] == old(self).jets@[i],
            forall|i: int| old(self).jets@.len() <= i < final(self).jets@.len() ==> final(self).jets@[i] == patrol_jet(),
            final(self).hostiles@ == old(self).hostiles@,
            final(self).drones@ == old(self).drones@,
            final(self).shield == old(self).shield,
            final(self).next_enemy_id == old(self).next_enemy_id,
    {
        fill_patrol(&mut self.jets);
    }

    /// Jet `i` checks on its locked contact; it drops the lock when that
    /// contact is out of play. Returns where the contact is.
    pub fn track(&mut self, i: usize) -> (r: Option<usize>)
        requires
            i < old(self).jets@.len(),
        ensures
            old(self).wf() ==> final(self).wf(),
            match old(self).jets@[i as int].lock_target_id {
                None => r is None && final(self).jets@ == old(self).jets@,
                Some(t) => match r {
                    Some(k) => first_live(old(self).hostiles@, t, k as int) && final(self).jets@ == old(self).jets@,
                    None => none_live(old(self).hostiles@, t)
                        && final(self).jets@ == old(self).jets@.update(i as int, released(old(self).jets@[i as int])),
                },
            },
            final(self).hostiles@ == old(self).hostiles@,
            final(self).drones@ == old(self).drones@,
            final(self).shield == old(self).shield,
            final(self).next_enemy_id == old(self).next_enemy_id,
    {
        let mut jet = self.jets[i];
        let r = track_target(&mut jet, &self.hostiles);
        self.jets[i] = jet;
        proof {
            if locks_distinct(old(self).jets@) {
                lemma_release_keeps_distinct(old(self).jets@, i as int);
            }
        }
        r
    }

    /// Jet `i`'s lock has charged: it fires on its contact if still in
    /// play and drops the lock either way. Returns the contact hit and the
    /// burst left behind.
    pub fn fire(&mut self, i: usize) -> (r: Option<(usize, Blast)>)
        requires
            i < old(self).jets@.len(),
        ensures
            old(self).wf() ==> final(self).wf(),
            final(self).jets@ == old(self).jets@.update(i as int, released(old(self).jets@[i as int])),
            match old(self).jets@[i as int].lock_target_id {
                None => r is None && final(self).hostiles@ == old(self).hostiles@,
                Some(t) => match r {
                    Some((k, b)) => {
                        &&& first_live(old(self).hostiles@, t, k as int)
                        &&& final(self).hostiles@ == old(self).hostiles@.update(k as int, struck(old(self).hostiles@[k as int]))
                        &&& b == strike_blast(old(self).hostiles@[k as int])
                    },
                    None => none_live(old(self).hostiles@, t) && final(self).hostiles@ == old(self).hostiles@,
                },
            },
            ids_sound(old(self).hostiles@, old(self).next_enemy_id) ==> ids_sound(final(self).hostiles@, final(self).next_enemy_id),
            forall|t: u8| #[trigger] count_kind(final(self).hostiles@, t) <= count_kind(old(self).hostiles@, t),
            final(self).drones@ == old(self).drones@,
            final(self).shield == old(self).shield,
            final(self).next_enemy_id == old(self).next_enemy_id,
    {
        let mut jet = self.jets[i];
        let r = fire(&mut jet, &mut self.hostiles);
        self.jets[i] = jet;
        proof {
            assert(retired_from(old(self).hostiles@, self.hostiles@));
            lemma_retired(old(self).hostiles@, self.hostiles@, self.next_enemy_id);
            if locks_distinct(old(self).jets@) {
                lemma_release_keeps_distinct(old(self).jets@, i as int);
            }
        }
        r
    }

    /// Drone `d` is lost (shot down, or out of track). Returns its puff.
    pub fn lose_drone(&mut self, d: usize) -> (b: Blast)
        requires
            d < old(self).drones@.len(),
            old(self).drones@[d as int].active,
        ensures
            old(self).wf() ==> final(self).wf(),
            b == Blast::FailurePuff,
            final(self).drones@ == old(self).drones@.update(d as int, Drone { active: false, ..old(self).drones@[d as int] }),
            final(self).hostiles@ == old(self).hostiles@,
            final(self).jets@ == old(self).jets@,
            final(self).shield == old(self).shield,
            final(self).next_enemy_id == old(self).next_enemy_id,
    {
        let mut drone = self.drones[d];
        let b = lose(&mut drone);
        self.drones[d] = drone;
        proof {
            if drones_unique(old(self).drones@) {
                lemma_grounding_keeps_unique(old(self).drones@, d as int);
            }
        }
        b
    }

    /// Drone `d` has reached its contact and detonates. Returns the contact
    /// reached and the burst left behind.
    pub fn detonate_drone(&mut self, d: usize) -> (r: Option<(usize, Blast)>)
        requires
            d < old(self).drones@.len(),
            old(self).drones@[d as int].active,
        ensures
            old(self).wf() ==> final(self).wf(),
            final(self).drones@ == old(self).drones@.update(d as int, Drone { active: false, ..old(self).drones@[d as int] }),
            match r {
                Some((k, b)) => {
                    &&& first_live(old(self).hostiles@, old(self).drones@[d as int].target_id, k as int)
                    &&& final(self).hostiles@ == old(self).hostiles@.update(k as int, hit_by_drone(old(self).hostiles@[k as int]))
                    &&& b == drone_blast(old(self).hostiles@[k as int])
                },
                None => none_live(old(self).hostiles@, old(self).drones@[d as int].target_id)
                    && final(self).hostiles@ == old(self).hostiles@,
            },
            ids_sound(old(self).hostiles@, old(self).next_enemy_id) ==> ids_sound(final(self).hostiles@, final(self).next_enemy_id),
            forall|t: u8| #[trigger] count_kind(final(self).hostiles@, t) <= count_kind(old(self).hostiles@, t),
            match r {
                Some((k, b)) => {
                    &&& final(self).hostiles@[k as int].active == (old(self).hostiles@[k as int].target_type == BOSS)
                    &&& (b == Blast::Explosion) == (old(self).hostiles@[k as int].target_type != BOSS)
                },
                None => true,
            },
            final(self).jets@ == old(self).jets@,
            final(self).shield == old(self).shield,
            final(self).next_enemy_id == old(self).next_enemy_id,
    {
        let mut drone = self.drones[d];
        let r = detonate(&mut drone, &mut self.hostiles);
        self.drones[d] = drone;
        proof {
            assert(retired_from(old(self).hostiles@, self.hostiles@));
            lemma_retired(old(self).hostiles@, self.hostiles@, self.next_enemy_id);
            if drones_unique(old(self).drones@) {
                lemma_grounding_keeps_unique(old(self).drones@, d as int);
            }
        }
        r
    }

    /// Where drone `d`'s contact is, if still in play.
    pub fn drone_target(&self, d: usize) -> (r: Option<usize>)
        requires
            d < self.drones@.len(),
        ensures
            match r {
                Some(k) => first_live(self.hostiles@, self.drones@[d as int].target_id, k as int),
                None => none_live(self.hostiles@, self.drones@[d as int].target_id),
            },
    {
        find_active(&self.hostiles, self.drones[d].target_id)
    }

    /// Clears out the contacts no longer in play and the grounded drones;
    /// the rest stay in order. Returns the flags that were used for each,
    /// so that what the caller keeps alongside can be pruned the same way.
    pub fn prune(&mut self) -> (flags: (Vec<bool>, Vec<bool>))
        ensures
            old(self).wf() ==> final(self).wf(),
            flags.0@.len() == old(self).hostiles@.len(),
            forall|i: int| 0 <= i < old(self).hostiles@.len() ==> flags.0@[i] == (#[trigger] old(self).hostiles@[i]).active,
            flags.1@.len() == old(self).drones@.len(),
            forall|i: int| 0 <= i < old(self).drones@.len() ==> flags.1@[i] == (#[trigger] old(self).drones@[i]).active,
            final(self).hostiles@ == kept(old(self).hostiles@, flags.0@),
            final(self).drones@ == kept(old(self).drones@, flags.1@),
            forall|k: int| 0 <= k < final(self).hostiles@.len() ==> (#[trigger] final(self).hostiles@[k]).active,
            forall|k: int| 0 <= k < final(self).drones@.len() ==> (#[trigger] final(self).drones@[k]).active,
            ids_sound(old(self).hostiles@, old(self).next_enemy_id) ==> ids_sound(final(self).hostiles@, final(self).next_enemy_id),
            forall|t: u8| #[trigger] count_kind(final(self).hostiles@, t) <= count_kind(old(self).hostiles@, t),
            final(self).jets@ == old(self).jets@,
            final(self).shield == old(self).shield,
            final(self).next_enemy_id == old(self).next_enemy_id,
    {
        let hf = hostile_flags(&self.hostiles);
        let df = drone_flags(&self.drones);
        proof {
            if ids_sound(self.hostiles@, self.next_enemy_id) {
                lemma_kept_ids(self.hostiles@, hf@, self.next_enemy_id);
            }
            assert forall|t: u8| #[trigger] count_kind(kept(self.hostiles@, hf@), t) <= count_kind(self.hostiles@, t) by {
                lemma_kept_count(self.hostiles@, hf@, t);
            }
            lemma_pruned_contacts(self.hostiles@, hf@);
            if drones_unique(self.drones@) {
                lemma_pruned_drones(self.drones@, df@);
            }
            lemma_kept_all(self.drones@, df@, |d: Drone| d.active);
            lemma_kept_all(self.hostiles@, hf@, |h: Hostile| h.active);
        }
        retain_marked(&mut self.hostiles, &hf);
        retain_marked(&mut self.drones, &df);
        (hf, df)
    }

    /// Hands the jets and drones over to a radar sweep.
    pub fn begin_sweep(&mut self) -> (e: Engagement)
        ensures
            e.wf(),
            e.jets@ == old(self).jets@,
            e.locked@ == active_locks(old(self).jets@),
            e.drones@ == old(self).drones@,
            e.shield == old(self).shield,
            !e.reset_pending,
            final(self).jets@.len() == 0,
            final(self).drones@.len() == 0,
            final(self).hostiles@ == old(self).hostiles@,
            final(self).shield == old(self).shield,
            final(self).next_enemy_id == old(self).next_enemy_id,
    {
        let mut jets: Vec<JetLock> = Vec::new();
        std::mem::swap(&mut jets, &mut self.jets);
        let mut drones: Vec<Drone> = Vec::new();
        std::mem::swap(&mut drones, &mut self.drones);
        Engagement::open(jets, drones, self.shield)
    }

    /// Takes the jets and drones back from a finished sweep. When the
    /// shield went down during it, the shield is restored and the sector is
    /// cleared of contacts and drones; returns whether that happened.
    pub fn end_sweep(&mut self, e: Engagement) -> (reset: bool)
        ensures
            all_flying(e.jets@) && locks_distinct(e.jets@) && drones_unique(e.drones@) && e.shield <= FULL_SHIELD
                ==> final(self).wf(),
            reset == e.reset_pending,
            final(self).jets@ == e.jets@,
            reset ==> {
                &&& final(self).shield == FULL_SHIELD
                &&& final(self).hostiles@.len() == 0
                &&& final(self).drones@.len() == 0
            },
            !reset ==> {
                &&& final(self).shield == e.shield
                &&& final(self).hostiles@ == old(self).hostiles@
                &&& final(self).drones@ == e.drones@
            },
            final(self).next_enemy_id == old(self).next_enemy_id,
    {
        let mut e = e;
        let reset = e.settle();
        if reset {
            self.hostiles.clear();
        }
        self.jets = e.jets;
        self.drones = e.drones;
        self.shield = e.shield;
        reset
    }
}

impl Sector {
    /// Brings a contact of the given type (a payload, a dreadnought) into
    /// the sector when the spawn roll hit and no contact of that type is in
    /// play. Returns the new contact's id when one came.
    pub fn spawn_if_absent(&mut self, target_type: u8, roll_hit: bool) -> (r: Option<u32>)
        ensures
            old(self).wf() ==> final(self).wf(),
            r is Some <==> roll_hit && !kind_in_play(old(self).hostiles@, target_type),
            count_kind(old(self).hostiles@, target_type) <= 1 ==> count_kind(final(self).hostiles@, target_type) <= 1,
            forall|t: u8| t != target_type ==> #[trigger] count_kind(final(self).hostiles@, t) == count_kind(old(self).hostiles@, t),
            ids_sound(old(self).hostiles@, old(self).next_enemy_id) && old(self).next_enemy_id < u32::MAX
                ==> ids_sound(final(self).hostiles@, final(self).next_enemy_id),
            match r {
                Some(id) => {
                    &&& id == old(self).next_enemy_id
                    &&& final(self).next_enemy_id == next_id(old(self).next_enemy_id)
                    &&& final(self).hostiles@ == old(self).hostiles@.push(fresh_hostile(target_type, id))
                },
                None => final(self).next_enemy_id == old(self).next_enemy_id && final(self).hostiles@ == old(self).hostiles@,
            },
            final(self).jets@ == old(self).jets@,
            final(self).drones@ == old(self).drones@,
            final(self).shield == old(self).shield,
    {
        proof {
            lemma_count_kind_zero(old(self).hostiles@, target_type);
        }
        if roll_hit && !any_active_of_kind(&self.hostiles, target_type) {
            Some(self.spawn(target_type))
        } else {
            None
        }
    }

    /// Whether another ground battery may come: fewer batteries are in play
    /// than the cap, and the cap is at least one whatever `scaled_cap` says.
    pub fn battery_below_cap(&self, scaled_cap: usize) -> (r: bool)
        ensures
            r == (count_kind(self.hostiles@, BATTERY) < if scaled_cap < 1 { 1 } else { scaled_cap }),
    {
        let cap = if scaled_cap < 1 { 1 } else { scaled_cap };
        count_active_of_kind(&self.hostiles, BATTERY) < cap
    }

    /// Brings a ground battery into the sector when the spawn roll hit and
    /// fewer batteries are in play than the cap (at least one). At most one
    /// battery comes, and never past the cap.
    pub fn spawn_battery_if_room(&mut self, scaled_cap: usize, roll_hit: bool) -> (r: Option<u32>)
        ensures
            old(self).wf() ==> final(self).wf(),
            r is Some <==> roll_hit && count_kind(old(self).hostiles@, BATTERY) < if scaled_cap < 1 { 1 } else { scaled_cap },
            match r {
                Some(id) => {
                    &&& id == old(self).next_enemy_id
                    &&& final(self).next_enemy_id == next_id(old(self).next_enemy_id)
                    &&& final(self).hostiles@ == old(self).hostiles@.push(fresh_hostile(BATTERY, id))
                },
                None => final(self).next_enemy_id == old(self).next_enemy_id && final(self).hostiles@ == old(self).hostiles@,
            },
            count_kind(final(self).hostiles@, BATTERY) <= count_kind(old(self).hostiles@, BATTERY) + 1,
            count_kind(final(self).hostiles@, BATTERY) <= if count_kind(old(self).hostiles@, BATTERY) < (if scaled_cap < 1 { 1 } else { scaled_cap }) {
                (if scaled_cap < 1 { 1 } else { scaled_cap }) as nat
            } else {
                count_kind(old(self).hostiles@, BATTERY)
            },
            forall|t: u8| t != BATTERY ==> #[trigger] count_kind(final(self).hostiles@, t) == count_kind(old(self).hostiles@, t),
            ids_sound(old(self).hostiles@, old(self).next_enemy_id) && old(self).next_enemy_id < u32::MAX
                ==> ids_sound(final(self).hostiles@, final(self).next_enemy_id),
            final(self).jets@ == old(self).jets@,
            final(self).drones@ == old(self).drones@,
            final(self).shield == old(self).shield,
    {
        if roll_hit && self.battery_below_cap(scaled_cap) {
            Some(self.spawn(BATTERY))
        } else {
            None
        }
    }

    /// One radar sweep over the contacts, in order. Each contact in play is
    /// resolved as `Engagement::resolve_contact` says, from its sighting;
    /// contacts out of play are skipped (`None`). When the shield went down
    /// the sector is reset: shield full, no contacts, no drones (`reset`).
    ///
    /// Across the whole sweep: the standing rules are kept; the shield never
    /// rises, and stays above zero unless the sector was reset; the sector
    /// is reset exactly when an impact took the shield down; every contact
    /// detected is hunted by a flying drone afterwards (unless reset); drones
    /// are only added; and a jet that held a lock still holds it.
    pub fn sweep(&mut self, sightings: &Vec<Sighting>) -> (out: (Vec<Option<Contact>>, bool))
        requires
            sightings@.len() == old(self).hostiles@.len(),
            forall|i: int| 0 <= i < sightings@.len() ==> (#[trigger] sightings@[i]).sees@.len() == old(self).jets@.len()
                && sightings@[i].keys@.len() == old(self).jets@.len(),
        ensures
            ({
                let (fin, cs) = sweep_fold(
                    sweep_start(old(self).jets@, old(self).drones@, old(self).shield),
                    old(self).hostiles@,
                    sightings@,
                    old(self).hostiles@.len(),
                );
                &&& out.0@ == cs
                &&& out.1 == fin.reset
                &&& final(self).jets@ == fin.jets
                &&& !out.1 ==> final(self).shield == fin.shield && final(self).drones@ == fin.drones
            }),
            !out.1 ==> final(self).shield == old(self).shield - impact_cost(old(self).hostiles@, sightings@, old(self).hostiles@.len()),
            old(self).wf() ==> final(self).wf(),
            out.0@.len() == old(self).hostiles@.len(),
            forall|i: int| 0 <= i < out.0@.len() ==> ((#[trigger] out.0@[i]) is None <==> !old(self).hostiles@[i].active),
            forall|i: int| 0 <= i < out.0@.len() && old(self).hostiles@[i].active ==> {
                &&& (#[trigger] out.0@[i]) is Some
                &&& outcome_fits(out.0@[i]->0, sightings@[i], old(self).jets@)
            },
            out.1 <==> exists|i: int| 0 <= i < out.0@.len() && #[trigger] out.0@[i] == Some(Contact::Impact { shield_down: true }),
            out.1 ==> {
                &&& final(self).shield == FULL_SHIELD
                &&& final(self).hostiles@.len() == 0
                &&& final(self).drones@.len() == 0
            },
            !out.1 ==> {
                &&& final(self).shield <= old(self).shield
                &&& (old(self).shield > 0 ==> final(self).shield > 0)
                &&& final(self).hostiles@.len() == old(self).hostiles@.len()
                &&& forall|i: int| 0 <= i < old(self).hostiles@.len() ==> #[trigger] final(self).hostiles@[i] == match out.0@[i] {
                    Some(c) => after_outcome(old(self).hostiles@[i], c),
                    None => old(self).hostiles@[i],
                }
                &&& final(self).drones@.len() >= old(self).drones@.len()
                &&& forall|k: int| 0 <= k < old(self).drones@.len() ==> #[trigger] final(self).drones@[k] == old(self).drones@[k]
                &&& forall|i: int| 0 <= i < out.0@.len() && detected_in(#[trigger] out.0@[i])
                    ==> hunted(final(self).drones@, old(self).hostiles@[i].id)
                &&& forall|j: int| 0 <= j < final(self).jets@.len() && old(self).jets@[j].lock_target_id is None
                    && (#[trigger] final(self).jets@[j]).lock_target_id is Some
                    ==> exists|k: int| 0 <= k < final(self).hostiles@.len()
                        && is_live(#[trigger] final(self).hostiles@[k], final(self).jets@[j].lock_target_id->0)
            },
            ids_sound(old(self).hostiles@, old(self).next_enemy_id) ==> ids_sound(final(self).hostiles@, final(self).next_enemy_id),
            forall|t: u8| #[trigger] count_kind(final(self).hostiles@, t) <= count_kind(old(self).hostiles@, t),
            final(self).jets@.len() == old(self).jets@.len(),
            forall|j: int| 0 <= j < old(self).jets@.len() && old(self).jets@[j].lock_target_id is Some
                ==> #[trigger] final(self).jets@[j] == old(self).jets@[j],
            final(self).next_enemy_id == old(self).next_enemy_id,
    {
        let ghost h0 = self.hostiles@;
        let ghost j0 = self.jets@;
        let ghost d0 = self.drones@;
        let ghost s0 = self.shield;
        let ghost wf0 = self.wf();
        let mut e = self.begin_sweep();
        let mut contacts: Vec<Option<Contact>> = Vec::new();
        let n = self.hostiles.len();
        let mut i: usize = 0;
        while i < n
            invariant
                n == h0.len(),
                n == sightings@.len(),
                0 <= i <= n,
                self.hostiles@.len() == n,
                forall|p: int| 0 <= p < sightings@.len() ==> (#[trigger] sightings@[p]).sees@.len() == j0.len()
                    && sightings@[p].keys@.len() == j0.len(),
                contacts@.len() == i,
                (e.ledger(), contacts@) == sweep_fold(sweep_start(j0, d0, s0), h0, sightings@, i as nat),
                self.next_enemy_id == old(self).next_enemy_id,
                wf0 ==> e.wf(),
                wf0 ==> all_flying(e.jets@) && locks_distinct(e.jets@) && drones_unique(e.drones@) && e.shield <= FULL_SHIELD,
                e.jets@.len() == j0.len(),
                forall|j: int| 0 <= j < j0.len() ==> (#[trigger] e.jets@[j]).active == j0[j].active,
                forall|j: int| 0 <= j < j0.len() && j0[j].lock_target_id is Some ==> #[trigger] e.jets@[j] == j0[j],
                e.shield <= s0,
                !e.reset_pending ==> (s0 > 0 ==> e.shield > 0),
                e.reset_pending <==> exists|p: int| 0 <= p < i && #[trigger] contacts@[p] == Some(Contact::Impact { shield_down: true }),
                e.drones@.len() >= d0.len(),
                forall|k: int| 0 <= k < d0.len() ==> #[trigger] e.drones@[k] == d0[k],
                forall|p: int| 0 <= p < i ==> ((#[trigger] contacts@[p]) is None <==> !h0[p].active),
                forall|p: int| 0 <= p < i && h0[p].active ==> {
                    &&& (#[trigger] contacts@[p]) is Some
                    &&& outcome_fits(contacts@[p]->0, sightings@[p], j0)
                },
                forall|p: int| 0 <= p < i ==> #[trigger] self.hostiles@[p] == match contacts@[p] {
                    Some(c) => after_outcome(h0[p], c),
                    None => h0[p],
                },
                forall|p: int| i <= p < n ==> #[trigger] self.hostiles@[p] == h0[p],
                forall|p: int| 0 <= p < i && detected_in(#[trigger] contacts@[p])
                    ==> hunted(e.drones@, h0[p].id),
                forall|j: int| 0 <= j < j0.len() && j0[j].lock_target_id is None && (#[trigger] e.jets@[j]).lock_target_id is Some
                    ==> exists|p: int| 0 <= p < i && detected_in(#[trigger] contacts@[p]) && h0[p].active
                        && e.jets@[j].lock_target_id == Some(h0[p].id),
            decreases n - i,
        {
            let ghost c0 = contacts@;
            let ghost rp0 = e.reset_pending;
            let ghost ejs = e.jets@;
            if self.hostiles[i].active {
                let mut h = self.hostiles[i];
                let ghost ej = e.jets@;
                let ghost ed = e.drones@;
                let c = e.resolve_contact(&mut h, &sightings[i].obs, &sightings[i].sees, &sightings[i].keys);
                proof {
                    lemma_spotted_same_fleet(ej, j0, sightings@[i as int].sees@);
                    assert forall|p: int| 0 <= p < i && detected_in(#[trigger] contacts@[p])
                        implies hunted(e.drones@, h0[p].id) by {
                        let w = choose|w: int| 0 <= w < ed.len() && (#[trigger] ed[w]).active && ed[w].target_id == h0[p].id;
                        assert(e.drones@[w] == ed[w]);
                    }
                }
                assert(e.reset_pending == (rp0 || c == Contact::Impact { shield_down: true }));
                self.hostiles.set(i, h);
                contacts.push(Some(c));
                proof {
                    if e.reset_pending && !rp0 {
                        assert(contacts@[i as int] == Some(Contact::Impact { shield_down: true }));
                    }
                }
            } else {
                contacts.push(None);
            }
            proof {
                assert forall|p: int| 0 <= p < i implies #[trigger] contacts@[p] == c0[p] by {}
                assert forall|j: int| 0 <= j < j0.len() && j0[j].lock_target_id is None && (#[trigger] e.jets@[j]).lock_target_id is Some
                    implies exists|p: int| 0 <= p < i + 1 && detected_in(#[trigger] contacts@[p]) && h0[p].active
                        && e.jets@[j].lock_target_id == Some(h0[p].id) by {
                    if ejs[j].lock_target_id is Some {
                        let p = choose|p: int| 0 <= p < i && detected_in(#[trigger] c0[p]) && h0[p].active
                            && ejs[j].lock_target_id == Some(h0[p].id);
                        assert(contacts@[p] == c0[p]);
                        assert(e.jets@[j] == ejs[j]);
                    } else {
                        assert(detected_in(contacts@[i as int]));
                    }
                }
                if rp0 {
                    let p = choose|p: int| 0 <= p < i && #[trigger] c0[p] == Some(Contact::Impact { shield_down: true });
                    assert(contacts@[p] == c0[p]);
                }
                if exists|p: int| 0 <= p < i + 1 && #[trigger] contacts@[p] == Some(Contact::Impact { shield_down: true }) {
                    let p = choose|p: int| 0 <= p < i + 1 && #[trigger] contacts@[p] == Some(Contact::Impact { shield_down: true });
                    if p < i {
                        assert(c0[p] == contacts@[p]);
                    }
                }
            }
            i = i + 1;
        }
        let ghost ej = e.jets@;
        let ghost fin = e.ledger();
        proof {
            if !fin.reset {
                lemma_sweep_shield(sweep_start(j0, d0, s0), h0, sightings@, n as nat);
            }
        }
        let reset = self.end_sweep(e);
        proof {
            if !reset {
                assert(retired_from(h0, self.hostiles@));
                lemma_retired(h0, self.hostiles@, self.next_enemy_id);
            } else {
                assert forall|t: u8| #[trigger] count_kind(self.hostiles@, t) <= count_kind(h0, t) by {}
            }
            if !reset {
                assert forall|j: int| 0 <= j < self.jets@.len() && j0[j].lock_target_id is None
                    && (#[trigger] self.jets@[j]).lock_target_id is Some
                    implies exists|k: int| 0 <= k < self.hostiles@.len()
                        && is_live(#[trigger] self.hostiles@[k], self.jets@[j].lock_target_id->0) by {
                    assert(self.jets@[j] == ej[j]);
                    let p = choose|p: int| 0 <= p < n && detected_in(#[trigger] contacts@[p]) && h0[p].active
                        && ej[j].lock_target_id == Some(h0[p].id);
                    assert(self.hostiles@[p] == h0[p]);
                }
            }
        }
        (contacts, reset)
    }
}

/// What one jet did in a patrol round: where its locked contact was found
/// (if it still had one in play), and the contact it fired on with the
/// burst left behind (if its lock had charged).
#[derive(Clone, Copy, Debug, PartialEq, Eq)]
pub struct JetTurn {
    pub found: Option<usize>,
    pub fired: Option<(usize, Blast)>,
}

/// `r` is where the contact locked by `j` is in play: the first live
/// contact under the locked id, or `None` when there is none (or no lock).
pub open spec fn lock_found(hostiles: Seq<Hostile>, j: JetLock, r: Option<usize>) -> bool {
    match j.lock_target_id {
        None => r is None,
        Some(t) => match r {
            Some(k) => first_live(hostiles, t, k as int),
            None => none_live(hostiles, t),
        },
    }
}

/// The turn fired on contact `k`.
pub open spec fn fired_at(turn: JetTurn, k: int) -> bool {
    match turn.fired {
        Some((kk, _)) => kk == k,
        None => false,
    }
}

/// Some turn of the round fired on contact `k`.
pub open spec fn hit_in_round(turns: Seq<JetTurn>, k: int) -> bool {
    exists|i: int| 0 <= i < turns.len() && fired_at(#[trigger] turns[i], k)
}

/// The contacts under id `t` are the same in `a` and `b`.
pub open spec fn same_under(a: Seq<Hostile>, b: Seq<Hostile>, t: u32) -> bool {
    &&& a.len() == b.len()
    &&& forall|k: int| 0 <= k < a.len() && (a[k].id == t || b[k].id == t) ==> #[trigger] a[k] == b[k]
}

/// Where the live contact under `t` is depends only on the contacts under `t`.
proof fn lemma_same_under_live(a: Seq<Hostile>, b: Seq<Hostile>, t: u32)
    requires
        same_under(a, b, t),
    ensures
        forall|k: int| first_live(a, t, k) <==> first_live(b, t, k),
        none_live(a, t) <==> none_live(b, t),
{
    assert forall|k: int| 0 <= k < a.len() implies is_live(a[k], t) == is_live(b[k], t) by {
        if a[k].id == t || b[k].id == t {
            assert(a[k] == b[k]);
        }
    }
    assert forall|k: int| first_live(a, t, k) <==> first_live(b, t, k) by {
        if first_live(a, t, k) {
            assert forall|q: int| 0 <= q < k implies !is_live(#[trigger] b[q], t) by {
                assert(!is_live(a[q], t));
            }
        }
        if first_live(b, t, k) {
            assert forall|q: int| 0 <= q < k implies !is_live(#[trigger] a[q], t) by {
                assert(!is_live(b[q], t));
            }
        }
    }
    if none_live(a, t) {
        assert forall|q: int| 0 <= q < b.len() implies !is_live(#[trigger] b[q], t) by {
            assert(!is_live(a[q], t));
        }
    }
    if none_live(b, t) {
        assert forall|q: int| 0 <= q < a.len() implies !is_live(#[trigger] a[q], t) by {
            assert(!is_live(b[q], t));
        }
    }
}

impl Sector {
    /// Where each jet's locked contact is in play (`None` for a jet with no
    /// lock, or whose contact is out of play).
    pub fn lock_targets(&self) -> (r: Vec<Option<usize>>)
        ensures
            r@.len() == self.jets@.len(),
            forall|i: int| 0 <= i < r@.len() ==> lock_found(self.hostiles@, self.jets@[i], #[trigger] r@[i]),
    {
        let mut r: Vec<Option<usize>> = Vec::new();
        let mut i: usize = 0;
        while i < self.jets.len()
            invariant
                i <= self.jets@.len(),
                r@.len() == i,
                forall|p: int| 0 <= p < i ==> lock_found(self.hostiles@, self.jets@[p], #[trigger] r@[p]),
            decreases self.jets@.len() - i,
        {
            let found = match self.jets[i].lock_target_id {
                None => None,
                Some(t) => find_active(&self.hostiles, t),
            };
            r.push(found);
            i = i + 1;
        }
        r
    }

    /// One patrol round: each jet in turn checks on its locked contact
    /// (dropping the lock when the contact is out of play) and, when its
    /// lock has charged (`charged[i]`), fires on it and drops the lock.
    ///
    /// Since no two jets hold the same contact, no jet's shot disturbs
    /// another jet's contact: each jet finds its contact where it was before
    /// the round (as `lock_targets` reports), each contact is struck at most
    /// once, and after the round every lock held is on a contact in play.
    pub fn jet_round(&mut self, charged: &Vec<bool>) -> (turns: Vec<JetTurn>)
        requires
            old(self).wf(),
            charged@.len() == old(self).jets@.len(),
        ensures
            final(self).wf(),
            turns@.len() == old(self).jets@.len(),
            forall|i: int| 0 <= i < turns@.len() ==> lock_found(old(self).hostiles@, old(self).jets@[i], (#[trigger] turns@[i]).found),
            forall|i: int| 0 <= i < turns@.len() ==> (#[trigger] turns@[i]).fired == if charged@[i] && turns@[i].found is Some {
                Some((turns@[i].found->0, strike_blast(old(self).hostiles@[turns@[i].found->0 as int])))
            } else {
                None
            },
            final(self).jets@.len() == old(self).jets@.len(),
            forall|i: int| 0 <= i < turns@.len() ==> #[trigger] final(self).jets@[i] == if charged@[i] || turns@[i].found is None {
                released(old(self).jets@[i])
            } else {
                old(self).jets@[i]
            },
            final(self).hostiles@.len() == old(self).hostiles@.len(),
            forall|k: int| 0 <= k < old(self).hostiles@.len() ==> #[trigger] final(self).hostiles@[k] == if hit_in_round(turns@, k) {
                struck(old(self).hostiles@[k])
            } else {
                old(self).hostiles@[k]
            },
            forall|i: int| 0 <= i < final(self).jets@.len() && (#[trigger] final(self).jets@[i]).lock_target_id is Some
                ==> exists|k: int| first_live(final(self).hostiles@, final(self).jets@[i].lock_target_id->0, k),
            ids_sound(old(self).hostiles@, old(self).next_enemy_id) ==> ids_sound(final(self).hostiles@, final(self).next_enemy_id),
            forall|t: u8| #[trigger] count_kind(final(self).hostiles@, t) <= count_kind(old(self).hostiles@, t),
            final(self).drones@ == old(self).drones@,
            final(self).shield == old(self).shield,
            final(self).next_enemy_id == old(self).next_enemy_id,
    {
        let ghost h0 = self.hostiles@;
        let ghost j0 = self.jets@;
        let n = self.jets.len();
        let mut turns: Vec<JetTurn> = Vec::new();
        let mut i: usize = 0;
        while i < n
            invariant
                n == j0.len(),
                charged@.len() == n,
                0 <= i <= n,
                all_flying(j0),
                locks_distinct(j0),
                self.wf(),
                self.jets@.len() == n,
                self.drones@ == old(self).drones@,
                self.shield == old(self).shield,
                self.next_enemy_id == old(self).next_enemy_id,
                turns@.len() == i,
                self.hostiles@.len() == h0.len(),
                forall|k: int| 0 <= k < h0.len() ==> (#[trigger] self.hostiles@[k]).id == h0[k].id,
                forall|k: int| 0 <= k < h0.len() ==> #[trigger] self.hostiles@[k] == if hit_in_round(turns@, k) {
                    struck(h0[k])
                } else {
                    h0[k]
                },
                forall|p: int, k: int| 0 <= p < i && #[trigger] fired_at(turns@[p], k)
                    ==> 0 <= k < h0.len() && j0[p].lock_target_id == Some(h0[k].id),
                forall|j: int| i <= j < n ==> #[trigger] self.jets@[j] == j0[j],
                forall|p: int| 0 <= p < i ==> lock_found(h0, j0[p], (#[trigger] turns@[p]).found),
                forall|p: int| 0 <= p < i ==> (#[trigger] turns@[p]).fired == if charged@[p] && turns@[p].found is Some {
                    Some((turns@[p].found->0, strike_blast(h0[turns@[p].found->0 as int])))
                } else {
                    None
                },
                forall|p: int| 0 <= p < i ==> #[trigger] self.jets@[p] == if charged@[p] || turns@[p].found is None {
                    released(j0[p])
                } else {
                    j0[p]
                },
                forall|p: int| 0 <= p < i && (#[trigger] self.jets@[p]).lock_target_id is Some
                    ==> exists|k: int| first_live(self.hostiles@, self.jets@[p].lock_target_id->0, k),
            decreases n - i,
        {
            let ghost hc = self.hostiles@;
            let ghost tc = turns@;
            let ghost jc = self.jets@;
            proof {
                // The contacts under this jet's lock are untouched so far.
                if let Some(t) = j0[i as int].lock_target_id {
                    assert forall|k: int| 0 <= k < hc.len() && (hc[k].id == t || h0[k].id == t) implies #[trigger] hc[k] == h0[k] by {
                        if hit_in_round(tc, k) {
                            let p = choose|p: int| 0 <= p < tc.len() && fired_at(#[trigger] tc[p], k);
                            assert(j0[p].lock_target_id == Some(h0[k].id));
                            assert(j0[p].active && j0[i as int].active);
                        }
                    }
                    lemma_same_under_live(hc, h0, t);
                }
            }
            let found = self.track(i);
            let fired = if charged[i] { self.fire(i) } else { None };
            turns.push(JetTurn { found, fired });
            proof {
                let tn = turns@;
                assert forall|p: int| 0 <= p < i implies #[trigger] tn[p] == tc[p] by {}
                assert forall|k: int| 0 <= k < h0.len() implies hit_in_round(tn, k) == (hit_in_round(tc, k) || fired_at(tn[i as int], k)) by {
                    if hit_in_round(tn, k) {
                        let p = choose|p: int| 0 <= p < tn.len() && fired_at(#[trigger] tn[p], k);
                        if p < i {
                            assert(fired_at(tc[p], k));
                        }
                    }
                    if hit_in_round(tc, k) {
                        let p = choose|p: int| 0 <= p < tc.len() && fired_at(#[trigger] tc[p], k);
                        assert(fired_at(tn[p], k));
                    }
                    if fired_at(tn[i as int], k) {
                        assert(fired_at(tn[i as int], k));
                    }
                }
                if let Some((k, _)) = fired {
                    // This contact was never struck before: earlier shots hit other ids.
                    assert(!hit_in_round(tc, k as int)) by {
                        if hit_in_round(tc, k as int) {
                            let p = choose|p: int| 0 <= p < tc.len() && fired_at(#[trigger] tc[p], k as int);
                            assert(j0[p].lock_target_id == Some(h0[k as int].id));
                            assert(j0[p].active && j0[i as int].active);
                        }
                    }
                    // Locks kept by earlier jets stay on contacts in play.
                    let t = j0[i as int].lock_target_id->0;
                    assert forall|p: int| 0 <= p < i && (#[trigger] self.jets@[p]).lock_target_id is Some
                        implies exists|q: int| first_live(self.hostiles@, self.jets@[p].lock_target_id->0, q) by {
                        let u = self.jets@[p].lock_target_id->0;
                        assert(jc[p] == self.jets@[p]);
                        assert(j0[p].lock_target_id == Some(u));
                        assert(j0[p].active && j0[i as int].active);
                        assert(u != t);
                        assert forall|q: int| 0 <= q < hc.len() && (self.hostiles@[q].id == u || hc[q].id == u)
                            implies #[trigger] self.hostiles@[q] == hc[q] by {
                            if q == k {
                                assert(hc[q].id == t);
                            }
                        }
                        lemma_same_under_live(self.hostiles@, hc, u);
                        let w = choose|w: int| first_live(hc, u, w);
                        assert(first_live(self.hostiles@, u, w));
                    }
                } else {
                    assert forall|p: int| 0 <= p < i && (#[trigger] self.jets@[p]).lock_target_id is Some
                        implies exists|q: int| first_live(self.hostiles@, self.jets@[p].lock_target_id->0, q) by {
                        assert(jc[p] == self.jets@[p]);
                    }
                }
                if self.jets@[i as int].lock_target_id is Some {
                    assert(first_live(self.hostiles@, self.jets@[i as int].lock_target_id->0, found->0 as int));
                }
            }
            i = i + 1;
        }
        proof {
            assert(retired_from(h0, self.hostiles@));
            lemma_retired(h0, self.hostiles@, self.next_enemy_id);
        }
        turns
    }
}

impl Sector {
    /// Whether the sector's standing rules hold.
    pub fn check_rules(&self) -> (r: bool)
        ensures
            r == self.wf(),
    {
        if self.shield > FULL_SHIELD {
            return false;
        }
        let n = self.jets.len();
        let mut i: usize = 0;
        while i < n
            invariant
                n == self.jets@.len(),
                i <= n,
                forall|a: int| 0 <= a < i ==> (#[trigger] self.jets@[a]).active,
                forall|a: int, b: int| 0 <= a < i && 0 <= b < n && a != b && (#[trigger] self.jets@[a]).lock_target_id is Some
                    ==> self.jets@[a].lock_target_id != (#[trigger] self.jets@[b]).lock_target_id,
            decreases n - i,
        {
            if !self.jets[i].active {
                return false;
            }
            if self.jets[i].lock_target_id.is_some() {
                let mut j: usize = 0;
                while j < n
                    invariant
                        n == self.jets@.len(),
                        i < n,
                        j <= n,
                        self.jets@[i as int].lock_target_id is Some,
                        self.jets@[i as int].active,
                        forall|b: int| 0 <= b < j && b != i ==> self.jets@[i as int].lock_target_id != (#[trigger] self.jets@[b]).lock_target_id,
                    decreases n - j,
                {
                    if j != i && self.jets[j].lock_target_id == self.jets[i].lock_target_id {
                        return false;
                    }
                    j = j + 1;
                }
            }
            i = i + 1;
        }
        let m = self.drones.len();
        let mut a: usize = 0;
        while a < m
            invariant
                m == self.drones@.len(),
                a <= m,
                all_flying(self.jets@),
                locks_distinct(self.jets@),
                forall|x: int, y: int| 0 <= x < a && 0 <= y < m && x != y && (#[trigger] self.drones@[x]).active
                    && (#[trigger] self.drones@[y]).active ==> self.drones@[x].target_id != self.drones@[y].target_id,
            decreases m - a,
        {
            if self.drones[a].active {
                let mut b: usize = 0;
                while b < m
                    invariant
                        m == self.drones@.len(),
                        a < m,
                        b <= m,
                        self.drones@[a as int].active,
                        forall|y: int| 0 <= y < b && y != a && (#[trigger] self.drones@[y]).active
                            ==> self.drones@[a as int].target_id != self.drones@[y].target_id,
                    decreases m - b,
                {
                    if b != a && self.drones[b].active && self.drones[b].target_id == self.drones[a].target_id {
                        return false;
                    }
                    b = b + 1;
                }
            }
            a = a + 1;
        }
        true
    }
}

/// What the caller measured about one flying drone this frame.
#[derive(Clone, Copy, Debug, PartialEq, Eq, Structural)]
pub struct DroneSense {
    /// The drone is within ground-fire range of its contact.
    pub in_anti_air_range: bool,
    /// The nine-in-ten roll against a battery's ground fire hit (drawn only
    /// when that fire applies).
    pub battery_fire_hits: bool,
    /// The drone's seeker has its contact (within seeker range).
    pub in_seeker_range: bool,
    /// The drone has reached the point it was heading for.
    pub arrived: bool,
    /// The drone is close enough to its contact to detonate.
    pub close: bool,
}

/// What became of a drone this frame.
#[derive(Clone, Copy, Debug, PartialEq, Eq, Structural)]
pub enum DroneFate {
    /// Ground fire brought it down.
    ShotDown,
    /// It reached its waypoint with nothing there, and is spent.
    Spent,
    /// It detonated on the contact at `target`, leaving `blast`.
    Detonated { target: usize, blast: Blast },
    /// It flies on; `seeking` when its seeker has the contact.
    Flying { seeking: bool },
}

/// The fate of a drone whose contact is at `target` (if in play) given
/// what was measured: ground fire first (a dreadnought always, a battery on
/// the roll), then a spent drone at its waypoint, then detonation on a
/// contact the seeker has, else flight.
pub open spec fn drone_fate(hs: Seq<Hostile>, target: Option<usize>, sense: DroneSense) -> DroneFate {
    match target {
        Some(k) => {
            let t = hs[k as int].target_type;
            if sense.in_anti_air_range && (t == BOSS || (t == BATTERY && sense.battery_fire_hits)) {
                DroneFate::ShotDown
            } else if sense.arrived {
                DroneFate::Spent
            } else if sense.in_seeker_range && sense.close {
                DroneFate::Detonated { target: k, blast: drone_blast(hs[k as int]) }
            } else {
                DroneFate::Flying { seeking: sense.in_seeker_range }
            }
        },
        None => if sense.arrived {
            DroneFate::Spent
        } else {
            DroneFate::Flying { seeking: false }
        },
    }
}

/// Ground fire brings a drone down only near a dreadnought, or near a
/// battery whose roll hit; a drone that detonates on a contact destroys it
/// unless it is a dreadnought; a drone with no contact in play is never
/// shot down and never detonates.
pub proof fn lemma_drone_fate(hs: Seq<Hostile>, target: Option<usize>, sense: DroneSense)
    requires
        target matches Some(k) ==> k < hs.len(),
    ensures
        drone_fate(hs, target, sense) == DroneFate::ShotDown ==> target is Some && sense.in_anti_air_range && {
            let t = hs[target->0 as int].target_type;
            t == BOSS || (t == BATTERY && sense.battery_fire_hits)
        },
        target is None ==> drone_fate(hs, target, sense) != DroneFate::ShotDown,
        drone_fate(hs, target, sense) matches DroneFate::Detonated { target: k, blast } ==> {
            &&& target == Some(k)
            &&& sense.in_seeker_range && sense.close && !sense.arrived
            &&& (blast == Blast::Explosion) == (hs[k as int].target_type != BOSS)
        },
{
}

impl Sector {
    /// One frame of flying drone `d`: finds its contact, then decides and
    /// applies its fate (`drone_fate`). A drone shot down, spent or
    /// detonated leaves flight; a detonation destroys the contact unless it
    /// is a dreadnought. Returns where the contact was and the fate.
    pub fn drone_step(&mut self, d: usize, sense: &DroneSense) -> (out: (Option<usize>, DroneFate))
        requires
            d < old(self).drones@.len(),
            old(self).drones@[d as int].active,
        ensures
            old(self).wf() ==> final(self).wf(),
            match out.0 {
                Some(k) => first_live(old(self).hostiles@, old(self).drones@[d as int].target_id, k as int),
                None => none_live(old(self).hostiles@, old(self).drones@[d as int].target_id),
            },
            out.1 == drone_fate(old(self).hostiles@, out.0, *sense),
            final(self).drones@ == if out.1 is Flying {
                old(self).drones@
            } else {
                old(self).drones@.update(d as int, Drone { active: false, ..old(self).drones@[d as int] })
            },
            final(self).hostiles@ == match out.1 {
                DroneFate::Detonated { target, .. } => old(self).hostiles@.update(target as int, hit_by_drone(old(self).hostiles@[target as int])),
                _ => old(self).hostiles@,
            },
            match out.1 {
                DroneFate::Detonated { target, blast } => {
                    &&& final(self).hostiles@[target as int].active == (old(self).hostiles@[target as int].target_type == BOSS)
                    &&& (blast == Blast::Explosion) == (old(self).hostiles@[target as int].target_type != BOSS)
                },
                _ => true,
            },
            out.1 == DroneFate::ShotDown ==> out.0 is Some && sense.in_anti_air_range && {
                let t = old(self).hostiles@[out.0->0 as int].target_type;
                t == BOSS || (t == BATTERY && sense.battery_fire_hits)
            },
            ids_sound(old(self).hostiles@, old(self).next_enemy_id) ==> ids_sound(final(self).hostiles@, final(self).next_enemy_id),
            forall|t: u8| #[trigger] count_kind(final(self).hostiles@, t) <= count_kind(old(self).hostiles@, t),
            final(self).jets@ == old(self).jets@,
            final(self).shield == old(self).shield,
            final(self).next_enemy_id == old(self).next_enemy_id,
    {
        let target = self.drone_target(d);
        if let Some(k) = target {
            let shot_down = match anti_air(self.hostiles[k].target_type) {
                AntiAir::Certain => sense.in_anti_air_range,
                AntiAir::Chance => sense.in_anti_air_range && sense.battery_fire_hits,
                AntiAir::Harmless => false,
            };
            if shot_down {
                self.lose_drone(d);
                return (target, DroneFate::ShotDown);
            }
        }
        if sense.arrived {
            self.lose_drone(d);
            return (target, DroneFate::Spent);
        }
        match target {
            Some(k) => {
                if sense.in_seeker_range && sense.close {
                    let r = self.detonate_drone(d);
                    match r {
                        Some((kk, blast)) => (target, DroneFate::Detonated { target: kk, blast }),
                        None => (target, DroneFate::Flying { seeking: true }),
                    }
                } else {
                    (target, DroneFate::Flying { seeking: sense.in_seeker_range })
                }
            },
            None => (target, DroneFate::Flying { seeking: false }),
        }
    }
}

} // verus!
