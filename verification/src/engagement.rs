use vstd::prelude::*;
use crate::contacts::Hostile;
use crate::jets::{
    JetLock, locked_onto, locks_distinct, active_locks, lemma_active_locks_contains,
    locked_by_active, free_seer, first_free_seer, in_reach, is_nearest, spotted_by_jet,
    any_jet_sees, first_free_jet_seeing, nearest_free_jet,
};
use crate::drones::{Drone, hunted, drones_unique, dispatch};
use crate::shield::{FULL_SHIELD, absorbed, absorb};

verus! {

/// What the caller measured about one contact during a sweep.
#[derive(Clone, Copy, Debug, PartialEq, Eq, Structural)]
pub struct Observation {
    /// The contact has left the sector.
    pub out_of_bounds: bool,
    /// The contact has reached the base shield.
    pub hits_shield: bool,
    /// The main radar sweep has the contact.
    pub main_sweep: bool,
}

/// What became of one contact during a sweep.
#[derive(Clone, Copy, Debug, PartialEq, Eq, Structural)]
pub enum Contact {
    /// It left the sector and is out of play.
    Departed,
    /// It reached the base and is out of play; `shield_down` when the
    /// shield has nothing left.
    Impact { shield_down: bool },
    /// Neither the main sweep nor any jet has it.
    Unseen,
    /// It was detected. `jet_lock` is the jet that locked on to it because
    /// that jet's own sweep had it; `sweep_lock` the jet sent after it
    /// because the main sweep had it; `drone_launched` whether a drone was
    /// sent to hunt it.
    Detected { jet_lock: Option<usize>, sweep_lock: Option<usize>, drone_launched: bool },
}

/// The discrete state one radar sweep works on: the jets and their locks,
/// the ids locked so far, the drones, and the shield.
pub struct Engagement {
    pub jets: Vec<JetLock>,
    pub locked: Vec<u32>,
    pub drones: Vec<Drone>,
    pub shield: u32,
    pub reset_pending: bool,
}

/// Every lock held by a flying jet is among the ids locked this sweep.
pub open spec fn locks_listed(jets: Seq<JetLock>, locked: Seq<u32>) -> bool {
    forall|i: int|
        0 <= i < jets.len() && (#[trigger] jets[i]).active && jets[i].lock_target_id is Some
            ==> locked.contains(jets[i].lock_target_id->0)
}

/// The jets after jet `r` (if any) locks on to `id`.
pub open spec fn with_lock(jets: Seq<JetLock>, r: Option<usize>, id: u32) -> Seq<JetLock> {
    match r {
        Some(i) => jets.update(i as int, locked_onto(jets[i as int], id)),
        None => jets,
    }
}

/// The locked ids after a lock on `id` is (or is not) taken.
pub open spec fn with_id(locked: Seq<u32>, r: Option<usize>, id: u32) -> Seq<u32> {
    match r {
        Some(_) => locked.push(id),
        None => locked,
    }
}

/// `r` is the jet that locks on to `e` because its own sweep has it: the
/// first free jet that sees it, when `e` is heavy and not yet locked.
pub open spec fn jet_pass(jets: Seq<JetLock>, locked: Seq<u32>, sees: Seq<bool>, e: Hostile, r: Option<usize>) -> bool {
    match r {
        Some(i) => e.is_heavy && !locked.contains(e.id) && first_free_seer(jets, sees, i as int),
        None => !(e.is_heavy && !locked.contains(e.id) && exists|k: int| #[trigger] free_seer(jets, sees, k)),
    }
}

/// `r` is the jet sent after `e` because the main sweep has it: the
/// nearest free jet in reach, when `e` is heavy and not yet locked.
pub open spec fn sweep_pass(jets: Seq<JetLock>, locked: Seq<u32>, keys: Seq<Option<u32>>, main_sweep: bool, e: Hostile, r: Option<usize>) -> bool {
    match r {
        Some(i) => main_sweep && e.is_heavy && !locked.contains(e.id) && is_nearest(jets, keys, i as int),
        None => !(main_sweep && e.is_heavy && !locked.contains(e.id) && exists|k: int| #[trigger] in_reach(jets, keys, k)),
    }
}

/// A contact after its sweep outcome: one that left or reached the base is
/// out of play; any other is as it was.
pub open spec fn after_outcome(h: Hostile, c: Contact) -> Hostile {
    match c {
        Contact::Departed => Hostile { active: false, ..h },
        Contact::Impact { .. } => Hostile { active: false, ..h },
        _ => h,
    }
}

/// The bookkeeping of a sweep in progress, as values.
pub struct SweepLedger {
    pub jets: Seq<JetLock>,
    pub locked: Seq<u32>,
    pub drones: Seq<Drone>,
    pub shield: u32,
    pub reset: bool,
}

/// The jet that locks on to `e` because its own sweep has it: the first
/// free jet that sees it, when `e` is heavy and not yet locked.
pub open spec fn jet_pick(jets: Seq<JetLock>, locked: Seq<u32>, sees: Seq<bool>, e: Hostile) -> Option<usize> {
    if e.is_heavy && !locked.contains(e.id) && exists|k: int| #[trigger] free_seer(jets, sees, k) {
        Some(choose|i: usize| first_free_seer(jets, sees, i as int))
    } else {
        None
    }
}

/// The jet the main sweep sends after `e`: the nearest free jet in reach,
/// when `e` is heavy and not yet locked.
pub open spec fn sweep_pick(jets: Seq<JetLock>, locked: Seq<u32>, keys: Seq<Option<u32>>, main_sweep: bool, e: Hostile) -> Option<usize> {
    if main_sweep && e.is_heavy && !locked.contains(e.id) && exists|k: int| #[trigger] in_reach(jets, keys, k) {
        Some(choose|i: usize| is_nearest(jets, keys, i as int))
    } else {
        None
    }
}

/// What becomes of contact `e` when resolved against the ledger `s`.
pub open spec fn contact_result(s: SweepLedger, e: Hostile, obs: Observation, sees: Seq<bool>, keys: Seq<Option<u32>>) -> Contact {
    if obs.out_of_bounds {
        Contact::Departed
    } else if obs.hits_shield {
        Contact::Impact { shield_down: absorbed(s.shield, e.target_type) == 0 }
    } else if obs.main_sweep || spotted_by_jet(s.jets, sees) {
        let jl = jet_pick(s.jets, s.locked, sees, e);
        let sl = sweep_pick(with_lock(s.jets, jl, e.id), with_id(s.locked, jl, e.id), keys, obs.main_sweep, e);
        Contact::Detected { jet_lock: jl, sweep_lock: sl, drone_launched: !hunted(s.drones, e.id) }
    } else {
        Contact::Unseen
    }
}

/// The ledger after contact `e` is resolved against `s`: an impact costs
/// the shield (and calls for a reset when it is down); a detection applies
/// the jet lock, then the sweep lock, and launches a drone if one was due.
pub open spec fn ledger_after(s: SweepLedger, e: Hostile, obs: Observation, sees: Seq<bool>, keys: Seq<Option<u32>>) -> SweepLedger {
    match contact_result(s, e, obs, sees, keys) {
        Contact::Impact { .. } => {
            let sh = absorbed(s.shield, e.target_type);
            SweepLedger { shield: sh, reset: s.reset || sh == 0, ..s }
        },
        Contact::Detected { jet_lock, sweep_lock, drone_launched } => {
            let j1 = with_lock(s.jets, jet_lock, e.id);
            let l1 = with_id(s.locked, jet_lock, e.id);
            SweepLedger {
                jets: with_lock(j1, sweep_lock, e.id),
                locked: with_id(l1, sweep_lock, e.id),
                drones: if drone_launched { s.drones.push(Drone { target_id: e.id, active: true }) } else { s.drones },
                ..s
            }
        },
        _ => s,
    }
}

/// A jet pass names exactly the jet `jet_pick` names.
proof fn lemma_jet_pick(jets: Seq<JetLock>, locked: Seq<u32>, sees: Seq<bool>, e: Hostile, r: Option<usize>)
    requires
        jet_pass(jets, locked, sees, e, r),
    ensures
        r == jet_pick(jets, locked, sees, e),
{
    if let Some(i) = r {
        assert(free_seer(jets, sees, i as int));
        let c = choose|c: usize| first_free_seer(jets, sees, c as int);
        assert(first_free_seer(jets, sees, c as int));
        if c < i {
            assert(!free_seer(jets, sees, c as int));
        }
        if i < c {
            assert(!free_seer(jets, sees, i as int));
        }
    }
}

/// A sweep pass names exactly the jet `sweep_pick` names.
proof fn lemma_sweep_pick(jets: Seq<JetLock>, locked: Seq<u32>, keys: Seq<Option<u32>>, main_sweep: bool, e: Hostile, r: Option<usize>)
    requires
        sweep_pass(jets, locked, keys, main_sweep, e, r),
    ensures
        r == sweep_pick(jets, locked, keys, main_sweep, e),
{
    if let Some(i) = r {
        assert(in_reach(jets, keys, i as int));
        let c = choose|c: usize| is_nearest(jets, keys, c as int);
        assert(is_nearest(jets, keys, c as int));
        assert(in_reach(jets, keys, c as int));
        if c < i {
            assert(keys[i as int]->0 < keys[c as int]->0);
        }
        if i < c {
            assert(keys[c as int]->0 < keys[i as int]->0);
        }
    }
}

/// The jet named by `jet_pick` is the first free jet whose sweep has the
/// contact, whenever the contact is heavy and not yet locked.
pub proof fn lemma_jet_pick_is(jets: Seq<JetLock>, locked: Seq<u32>, sees: Seq<bool>, e: Hostile, i: usize)
    requires
        e.is_heavy,
        !locked.contains(e.id),
        first_free_seer(jets, sees, i as int),
    ensures
        jet_pick(jets, locked, sees, e) == Some(i),
{
    lemma_jet_pick(jets, locked, sees, e, Some(i));
}

/// The jet named by `sweep_pick` is the nearest free jet in reach, whenever
/// the main sweep has the contact and it is heavy and not yet locked.
pub proof fn lemma_sweep_pick_is(jets: Seq<JetLock>, locked: Seq<u32>, keys: Seq<Option<u32>>, main_sweep: bool, e: Hostile, i: usize)
    requires
        main_sweep,
        e.is_heavy,
        !locked.contains(e.id),
        is_nearest(jets, keys, i as int),
    ensures
        sweep_pick(jets, locked, keys, main_sweep, e) == Some(i),
{
    lemma_sweep_pick(jets, locked, keys, main_sweep, e, Some(i));
}

/// Whether `id` is in `ids`.
pub fn holds_id(ids: &Vec<u32>, id: u32) -> (r: bool)
    ensures
        r == ids@.contains(id),
{
    let mut i: usize = 0;
    while i < ids.len()
        invariant
            i <= ids.len(),
            forall|k: int| 0 <= k < i ==> ids@[k] != id,
        decreases ids.len() - i,
    {
        if ids[i] == id {
            assert(ids@[i as int] == id);
            return true;
        }
        i = i + 1;
    }
    false
}

impl Engagement {
    /// The sweep's bookkeeping as values.
    pub open spec fn ledger(&self) -> SweepLedger {
        SweepLedger {
            jets: self.jets@,
            locked: self.locked@,
            drones: self.drones@,
            shield: self.shield,
            reset: self.reset_pending,
        }
    }

    /// The sweep's bookkeeping is consistent: every lock held by a flying
    /// jet is listed.
    pub open spec fn wf(&self) -> bool {
        locks_listed(self.jets@, self.locked@)
    }

    /// Starts a sweep: the ids locked so far are those flying jets hold.
    pub fn open(jets: Vec<JetLock>, drones: Vec<Drone>, shield: u32) -> (e: Engagement)
        ensures
            e.wf(),
            e.jets@ == jets@,
            e.locked@ == active_locks(jets@),
            e.drones@ == drones@,
            e.shield == shield,
            !e.reset_pending,
    {
        let locked = locked_by_active(&jets);
        proof {
            assert forall|i: int|
                0 <= i < jets@.len() && (#[trigger] jets@[i]).active && jets@[i].lock_target_id is Some
                    implies locked@.contains(jets@[i].lock_target_id->0) by {
                lemma_active_locks_contains(jets@, jets@[i].lock_target_id->0);
            }
        }
        Engagement { jets, locked, drones, shield, reset_pending: false }
    }

    /// Jet `i` locks on to `id`.
    fn take_lock(&mut self, i: usize, id: u32)
        requires
            i < old(self).jets@.len(),
            old(self).jets@[i as int].active,
            old(self).jets@[i as int].lock_target_id is None,
            !old(self).locked@.contains(id),
        ensures
            old(self).wf() ==> final(self).wf(),
            final(self).jets@ == old(self).jets@.update(i as int, locked_onto(old(self).jets@[i as int], id)),
            final(self).locked@ == old(self).locked@.push(id),
            final(self).drones@ == old(self).drones@,
            final(self).shield == old(self).shield,
            final(self).reset_pending == old(self).reset_pending,
            old(self).wf() && locks_distinct(old(self).jets@) ==> locks_distinct(final(self).jets@),
    {
        let ghost j0 = self.jets@;
        let ghost l0 = self.locked@;
        self.jets[i] = JetLock { active: self.jets[i].active, lock_target_id: Some(id) };
        self.locked.push(id);
        proof {
            let j1 = self.jets@;
            let l1 = self.locked@;
            if locks_listed(j0, l0) {
                assert forall|k: int|
                    0 <= k < j1.len() && (#[trigger] j1[k]).active && j1[k].lock_target_id is Some
                        implies l1.contains(j1[k].lock_target_id->0) by {
                    if k == i {
                        assert(l1[l0.len() as int] == id);
                    } else {
                        assert(j1[k] == j0[k]);
                        let t = j0[k].lock_target_id->0;
                        let p = choose|p: int| 0 <= p < l0.len() && l0[p] == t;
                        assert(l1[p] == t);
                    }
                }
            }
            if locks_listed(j0, l0) && locks_distinct(j0) {
                assert forall|a: int, b: int|
                    0 <= a < j1.len() && 0 <= b < j1.len() && a != b && (#[trigger] j1[a]).active
                        && (#[trigger] j1[b]).active && j1[a].lock_target_id is Some
                        implies j1[a].lock_target_id != j1[b].lock_target_id by {
                    if a == i {
                        assert(j1[b] == j0[b]);
                        if j0[b].lock_target_id == Some(id) {
                            assert(l0.contains(id));
                        }
                    } else if b == i {
                        assert(j1[a] == j0[a]);
                        if j0[a].lock_target_id == Some(id) {
                            assert(l0.contains(id));
                        }
                    } else {
                        assert(j1[a] == j0[a] && j1[b] == j0[b]);
                    }
                }
            }
        }
    }

    /// Resolves one contact in play during the sweep, in the order the
    /// sweep checks things: a contact that has left the sector drops out;
    /// one that reaches the base drops out and costs the shield (a shield
    /// with nothing left calls for a reset); otherwise, when the main sweep
    /// or a jet's sweep has it, a heavy contact not yet locked is locked by
    /// the first free jet whose own sweep has it, else (main sweep only) by
    /// the nearest free jet in reach, and a drone is sent after it unless
    /// one already hunts it.
    ///
    /// `sees[i]` tells whether jet `i`'s sweep has the contact; `keys[i]` is
    /// the order key of jet `i`'s distance to it, `None` when out of reach.
    pub fn resolve_contact(
        &mut self,
        enemy: &mut Hostile,
        obs: &Observation,
        sees: &Vec<bool>,
        keys: &Vec<Option<u32>>,
    ) -> (c: Contact)
        requires
            sees@.len() == old(self).jets@.len(),
            keys@.len() == old(self).jets@.len(),
        ensures
            c == contact_result(old(self).ledger(), *old(enemy), *obs, sees@, keys@),
            final(self).ledger() == ledger_after(old(self).ledger(), *old(enemy), *obs, sees@, keys@),
            *final(enemy) == after_outcome(*old(enemy), c),
            old(self).wf() ==> final(self).wf(),
            old(self).wf() && locks_distinct(old(self).jets@) ==> locks_distinct(final(self).jets@),
            drones_unique(old(self).drones@) ==> drones_unique(final(self).drones@),
            final(self).jets@.len() == old(self).jets@.len(),
            forall|j: int| 0 <= j < old(self).jets@.len() ==> (#[trigger] final(self).jets@[j]).active == old(self).jets@[j].active,
            forall|j: int| 0 <= j < old(self).jets@.len() && old(self).jets@[j].lock_target_id is Some
                ==> #[trigger] final(self).jets@[j] == old(self).jets@[j],
            forall|j: int| 0 <= j < old(self).jets@.len() && old(self).jets@[j].lock_target_id is None
                && (#[trigger] final(self).jets@[j]).lock_target_id is Some
                ==> final(self).jets@[j].lock_target_id == Some(old(enemy).id) && c is Detected,
            obs.out_of_bounds ==> {
                &&& c == Contact::Departed
                &&& *final(enemy) == (Hostile { active: false, ..*old(enemy) })
                &&& final(self).jets@ == old(self).jets@
                &&& final(self).locked@ == old(self).locked@
                &&& final(self).drones@ == old(self).drones@
                &&& final(self).shield == old(self).shield
                &&& final(self).reset_pending == old(self).reset_pending
            },
            !obs.out_of_bounds && obs.hits_shield ==> {
                &&& c == (Contact::Impact { shield_down: final(self).shield == 0 })
                &&& *final(enemy) == (Hostile { active: false, ..*old(enemy) })
                &&& final(self).shield == absorbed(old(self).shield, old(enemy).target_type)
                &&& final(self).reset_pending == (old(self).reset_pending || final(self).shield == 0)
                &&& final(self).jets@ == old(self).jets@
                &&& final(self).locked@ == old(self).locked@
                &&& final(self).drones@ == old(self).drones@
            },
            !obs.out_of_bounds && !obs.hits_shield ==> {
                &&& *final(enemy) == *old(enemy)
                &&& final(self).shield == old(self).shield
                &&& final(self).reset_pending == old(self).reset_pending
                &&& match c {
                    Contact::Unseen => {
                        &&& !obs.main_sweep
                        &&& !spotted_by_jet(old(self).jets@, sees@)
                        &&& final(self).jets@ == old(self).jets@
                        &&& final(self).locked@ == old(self).locked@
                        &&& final(self).drones@ == old(self).drones@
                    },
                    Contact::Detected { jet_lock, sweep_lock, drone_launched } => {
                        let id = old(enemy).id;
                        let j1 = with_lock(old(self).jets@, jet_lock, id);
                        let l1 = with_id(old(self).locked@, jet_lock, id);
                        &&& obs.main_sweep || spotted_by_jet(old(self).jets@, sees@)
                        &&& jet_pass(old(self).jets@, old(self).locked@, sees@, *old(enemy), jet_lock)
                        &&& sweep_pass(j1, l1, keys@, obs.main_sweep, *old(enemy), sweep_lock)
                        &&& final(self).jets@ == with_lock(j1, sweep_lock, id)
                        &&& final(self).locked@ == with_id(l1, sweep_lock, id)
                        &&& drone_launched == !hunted(old(self).drones@, id)
                        &&& final(self).drones@ == if drone_launched {
                            old(self).drones@.push(Drone { target_id: id, active: true })
                        } else {
                            old(self).drones@
                        }
                        &&& hunted(final(self).drones@, id)
                    },
                    _ => false,
                }
            },
    {
        if obs.out_of_bounds {
            enemy.active = false;
            return Contact::Departed;
        }
        if obs.hits_shield {
            enemy.active = false;
            let down = absorb(&mut self.shield, enemy.target_type);
            if down {
                self.reset_pending = true;
            }
            return Contact::Impact { shield_down: down };
        }
        let id = enemy.id;
        let spotted = any_jet_sees(&self.jets, sees);

        // A jet whose own sweep has the contact locks on to it.
        let mut jet_lock: Option<usize> = None;
        if enemy.is_heavy && !holds_id(&self.locked, id) {
            jet_lock = first_free_jet_seeing(&self.jets, sees);
            if let Some(i) = jet_lock {
                self.take_lock(i, id);
            }
        }
        let ghost j1 = self.jets@;
        proof {
            // A lock taken by a jet's own sweep does not change who sees it.
            if let Some(i) = jet_lock {
                assert(spotted_by_jet(j1, sees@) == spotted_by_jet(old(self).jets@, sees@)) by {
                    if spotted_by_jet(old(self).jets@, sees@) {
                        let w = choose|w: int| #[trigger] crate::jets::seer(old(self).jets@, sees@, w);
                        assert(crate::jets::seer(j1, sees@, w));
                    }
                    if spotted_by_jet(j1, sees@) {
                        let w = choose|w: int| #[trigger] crate::jets::seer(j1, sees@, w);
                        assert(crate::jets::seer(old(self).jets@, sees@, w));
                    }
                }
            }
        }

        if !(obs.main_sweep || spotted) {
            return Contact::Unseen;
        }

        // The main sweep sends the nearest free jet after a heavy contact.
        let mut sweep_lock: Option<usize> = None;
        if obs.main_sweep && enemy.is_heavy && !holds_id(&self.locked, id) {
            sweep_lock = nearest_free_jet(&self.jets, keys);
            if let Some(i) = sweep_lock {
                self.take_lock(i, id);
            }
        }

        let drone_launched = dispatch(&mut self.drones, id);
        proof {
            lemma_jet_pick(old(self).jets@, old(self).locked@, sees@, *old(enemy), jet_lock);
            lemma_sweep_pick(j1, with_id(old(self).locked@, jet_lock, id), keys@, obs.main_sweep, *old(enemy), sweep_lock);
        }
        Contact::Detected { jet_lock, sweep_lock, drone_launched }
    }

    /// Ends the sweep: when the shield went down, the shield is restored,
    /// all drones are withdrawn, and `true` tells the caller to clear the
    /// sector of contacts too.
    pub fn settle(&mut self) -> (reset: bool)
        ensures
            reset == old(self).reset_pending,
            reset ==> final(self).shield == FULL_SHIELD && final(self).drones@.len() == 0,
            !reset ==> final(self).shield == old(self).shield && final(self).drones@ == old(self).drones@,
            final(self).jets@ == old(self).jets@,
            final(self).locked@ == old(self).locked@,
            !final(self).reset_pending,
    {
        if self.reset_pending {
            self.shield = FULL_SHIELD;
            self.drones.clear();
            self.reset_pending = false;
            true
        } else {
            false
        }
    }
}

} // verus!
