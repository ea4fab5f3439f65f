use vstd::prelude::*;
use crate::contacts::{Hostile, Blast, first_live, none_live, struck, strike_blast, find_active, strike};

verus! {

/// The discrete part of a patrol jet: whether it flies, and which contact
/// (if any) it has locked on to.
#[derive(Clone, Copy, Debug, PartialEq, Eq, Structural)]
pub struct JetLock {
    pub active: bool,
    pub lock_target_id: Option<u32>,
}

/// Number of patrol jets the sector keeps in the air.
pub const PATROL_SIZE: usize = 2;

/// A jet as it takes off: flying, with no lock.
pub open spec fn patrol_jet() -> JetLock {
    JetLock { active: true, lock_target_id: None }
}

/// The jet after it locks on to `id`.
pub open spec fn locked_onto(j: JetLock, id: u32) -> JetLock {
    JetLock { active: j.active, lock_target_id: Some(id) }
}

/// The jet after it drops its lock.
pub open spec fn released(j: JetLock) -> JetLock {
    JetLock { active: j.active, lock_target_id: None }
}

/// Every jet of the patrol flies.
pub open spec fn all_flying(jets: Seq<JetLock>) -> bool {
    forall|i: int| 0 <= i < jets.len() ==> (#[trigger] jets[i]).active
}

/// No contact is held by two flying jets.
pub open spec fn locks_distinct(jets: Seq<JetLock>) -> bool {
    forall|a: int, b: int|
        0 <= a < jets.len() && 0 <= b < jets.len() && a != b && (#[trigger] jets[a]).active
            && (#[trigger] jets[b]).active && jets[a].lock_target_id is Some
            ==> jets[a].lock_target_id != jets[b].lock_target_id
}

/// Tops the patrol up to `PATROL_SIZE` jets; the jets already there stay
/// as they are.
pub fn fill_patrol(jets: &mut Vec<JetLock>)
    ensures
        final(jets)@.len() == if old(jets)@.len() < PATROL_SIZE { PATROL_SIZE as nat } else { old(jets)@.len() },
        forall|i: int| 0 <= i < old(jets)@.len() ==> final(jets)@[i] == old(jets)@[i],
        forall|i: int| old(jets)@.len() <= i < final(jets)@.len() ==> final(jets)@[i] == patrol_jet(),
        forall|i: int| old(jets)@.len() <= i < final(jets)@.len() ==> (#[trigger] final(jets)@[i]).active
            && final(jets)@[i].lock_target_id is None,
        locks_distinct(old(jets)@) ==> locks_distinct(final(jets)@),
{
    if jets.len() < PATROL_SIZE {
        while jets.len() < PATROL_SIZE
            invariant
                old(jets)@.len() <= jets@.len() <= PATROL_SIZE,
                forall|i: int| 0 <= i < old(jets)@.len() ==> jets@[i] == old(jets)@[i],
                forall|i: int| old(jets)@.len() <= i < jets@.len() ==> jets@[i] == patrol_jet(),
            decreases PATROL_SIZE - jets@.len(),
        {
            jets.push(JetLock { active: true, lock_target_id: None });
        }
    }
}

/// The ids held by flying jets, in jet order.
pub open spec fn active_locks(jets: Seq<JetLock>) -> Seq<u32>
    decreases jets.len(),
{
    if jets.len() == 0 {
        Seq::empty()
    } else {
        let rest = active_locks(jets.drop_last());
        let j = jets.last();
        if j.active && j.lock_target_id is Some {
            rest.push(j.lock_target_id->0)
        } else {
            rest
        }
    }
}

/// An id is among the active locks exactly when some flying jet holds it.
pub proof fn lemma_active_locks_contains(jets: Seq<JetLock>, id: u32)
    ensures
        active_locks(jets).contains(id) <==> exists|i: int|
            0 <= i < jets.len() && (#[trigger] jets[i]).active && jets[i].lock_target_id == Some(id),
    decreases jets.len(),
{
    if jets.len() > 0 {
        let init = jets.drop_last();
        lemma_active_locks_contains(init, id);
        let n = jets.len() - 1;
        if active_locks(jets).contains(id) {
            if active_locks(init).contains(id) {
                let i = choose|i: int| 0 <= i < init.len() && (#[trigger] init[i]).active && init[i].lock_target_id == Some(id);
                assert(jets[i] == init[i]);
            } else {
                let k = choose|k: int| 0 <= k < active_locks(jets).len() && active_locks(jets)[k] == id;
                if !(jets[n].active && jets[n].lock_target_id is Some) {
                    assert(active_locks(init).contains(id));
                } else {
                    assert(k == active_locks(init).len() ==> jets[n].lock_target_id == Some(id));
                    if k < active_locks(init).len() {
                        assert(active_locks(init)[k] == id);
                    }
                }
            }
        }
        if exists|i: int| 0 <= i < jets.len() && (#[trigger] jets[i]).active && jets[i].lock_target_id == Some(id) {
            let i = choose|i: int| 0 <= i < jets.len() && (#[trigger] jets[i]).active && jets[i].lock_target_id == Some(id);
            if i < n {
                assert(init[i] == jets[i]);
                let k = choose|k: int| 0 <= k < active_locks(init).len() && active_locks(init)[k] == id;
                assert(active_locks(jets)[k] == id);
            } else {
                assert(active_locks(jets).last() == id);
                assert(active_locks(jets)[active_locks(jets).len() - 1] == id);
            }
        }
    }
}

/// Collects the ids that flying jets are locked on to, in jet order.
pub fn locked_by_active(jets: &Vec<JetLock>) -> (ids: Vec<u32>)
    ensures
        ids@ == active_locks(jets@),
{
    let mut ids: Vec<u32> = Vec::new();
    let mut i: usize = 0;
    while i < jets.len()
        invariant
            i <= jets.len(),
            ids@ == active_locks(jets@.take(i as int)),
        decreases jets.len() - i,
    {
        assert(jets@.take(i + 1).drop_last() =~= jets@.take(i as int));
        if jets[i].active {
            if let Some(t) = jets[i].lock_target_id {
                ids.push(t);
            }
        }
        i = i + 1;
    }
    assert(jets@.take(i as int) =~= jets@);
    ids
}


/// Jet `i` flies, holds no lock, and has the contact within reach
/// (`keys[i]` is the order key of its distance to it).
pub open spec fn in_reach(jets: Seq<JetLock>, keys: Seq<Option<u32>>, i: int) -> bool {
    &&& 0 <= i < jets.len()
    &&& jets[i].active
    &&& jets[i].lock_target_id is None
    &&& keys[i] is Some
}

/// Jet `i` is the nearest free jet in reach: no free jet in reach is
/// nearer, and every free jet in reach before it is strictly farther.
pub open spec fn is_nearest(jets: Seq<JetLock>, keys: Seq<Option<u32>>, i: int) -> bool {
    &&& in_reach(jets, keys, i)
    &&& forall|j: int| #[trigger] in_reach(jets, keys, j) ==> keys[i]->0 <= keys[j]->0
    &&& forall|j: int| 0 <= j < i && #[trigger] in_reach(jets, keys, j) ==> keys[i]->0 < keys[j]->0
}

/// Picks the nearest free jet in reach of a contact, the first one among
/// equally near jets. `keys[i]` is `None` when jet `i` is out of reach,
/// else an order key of its distance (a smaller key is a nearer jet).
pub fn nearest_free_jet(jets: &Vec<JetLock>, keys: &Vec<Option<u32>>) -> (r: Option<usize>)
    requires
        keys@.len() == jets@.len(),
    ensures
        match r {
            Some(i) => is_nearest(jets@, keys@, i as int),
            None => forall|j: int| !#[trigger] in_reach(jets@, keys@, j),
        },
        match r {
            Some(i) => {
                &&& i < jets@.len()
                &&& jets@[i as int].active && jets@[i as int].lock_target_id is None && keys@[i as int] is Some
                &&& forall|j: int| 0 <= j < jets@.len() && (#[trigger] jets@[j]).active && jets@[j].lock_target_id is None
                    && keys@[j] is Some ==> keys@[i as int]->0 <= keys@[j]->0
                &&& forall|j: int| 0 <= j < i && (#[trigger] jets@[j]).active && jets@[j].lock_target_id is None
                    && keys@[j] is Some ==> keys@[i as int]->0 < keys@[j]->0
            },
            None => forall|j: int| 0 <= j < jets@.len() && (#[trigger] jets@[j]).active && jets@[j].lock_target_id is None
                ==> keys@[j] is None,
        },
{
    let mut best: Option<usize> = None;
    let mut best_key: u32 = 0;
    let mut i: usize = 0;
    while i < jets.len()
        invariant
            i <= jets.len(),
            keys@.len() == jets@.len(),
            match best {
                Some(b) => {
                    &&& b < i
                    &&& in_reach(jets@, keys@, b as int)
                    &&& keys@[b as int] == Some(best_key)
                    &&& forall|j: int| 0 <= j < i && #[trigger] in_reach(jets@, keys@, j) ==> best_key <= keys@[j]->0
                    &&& forall|j: int| 0 <= j < b && #[trigger] in_reach(jets@, keys@, j) ==> best_key < keys@[j]->0
                },
                None => forall|j: int| 0 <= j < i ==> !#[trigger] in_reach(jets@, keys@, j),
            },
        decreases jets.len() - i,
    {
        if jets[i].active && jets[i].lock_target_id.is_none() {
            if let Some(k) = keys[i] {
                let closer = match best {
                    Some(_) => k < best_key,
                    None => true,
                };
                if closer {
                    best = Some(i);
                    best_key = k;
                }
            }
        }
        i = i + 1;
    }
    proof {
        match best {
            Some(b) => {
                assert forall|j: int| 0 <= j < jets@.len() && (#[trigger] jets@[j]).active && jets@[j].lock_target_id is None
                    && keys@[j] is Some implies keys@[b as int]->0 <= keys@[j]->0 by {
                    assert(in_reach(jets@, keys@, j));
                }
                assert forall|j: int| 0 <= j < b && (#[trigger] jets@[j]).active && jets@[j].lock_target_id is None
                    && keys@[j] is Some implies keys@[b as int]->0 < keys@[j]->0 by {
                    assert(in_reach(jets@, keys@, j));
                }
            },
            None => {
                assert forall|j: int| 0 <= j < jets@.len() && (#[trigger] jets@[j]).active && jets@[j].lock_target_id is None
                    implies keys@[j] is None by {
                    assert(!in_reach(jets@, keys@, j));
                }
            },
        }
    }
    best
}

/// Jet `i` flies and its own sweep has the contact.
pub open spec fn seer(jets: Seq<JetLock>, sees: Seq<bool>, i: int) -> bool {
    0 <= i < jets.len() && jets[i].active && sees[i]
}

/// Some flying jet's sweep has the contact.
pub open spec fn spotted_by_jet(jets: Seq<JetLock>, sees: Seq<bool>) -> bool {
    exists|i: int| #[trigger] seer(jets, sees, i)
}

/// Jet `i` sees the contact and is free to lock on to it.
pub open spec fn free_seer(jets: Seq<JetLock>, sees: Seq<bool>, i: int) -> bool {
    seer(jets, sees, i) && jets[i].lock_target_id is None
}

/// Jet `i` is the first free jet whose sweep has the contact.
pub open spec fn first_free_seer(jets: Seq<JetLock>, sees: Seq<bool>, i: int) -> bool {
    &&& free_seer(jets, sees, i)
    &&& forall|k: int| 0 <= k < i ==> !#[trigger] free_seer(jets, sees, k)
}

/// Whether any flying jet's sweep has the contact (`sees[i]` tells
/// whether jet `i`'s sweep has it).
pub fn any_jet_sees(jets: &Vec<JetLock>, sees: &Vec<bool>) -> (r: bool)
    requires
        sees@.len() == jets@.len(),
    ensures
        r == spotted_by_jet(jets@, sees@),
{
    let mut i: usize = 0;
    while i < jets.len()
        invariant
            i <= jets.len(),
            sees@.len() == jets@.len(),
            forall|k: int| 0 <= k < i ==> !#[trigger] seer(jets@, sees@, k),
        decreases jets.len() - i,
    {
        if jets[i].active && sees[i] {
            assert(seer(jets@, sees@, i as int));
            return true;
        }
        i = i + 1;
    }
    false
}

/// The first free flying jet whose sweep has the contact.
pub fn first_free_jet_seeing(jets: &Vec<JetLock>, sees: &Vec<bool>) -> (r: Option<usize>)
    requires
        sees@.len() == jets@.len(),
    ensures
        match r {
            Some(i) => first_free_seer(jets@, sees@, i as int),
            None => forall|k: int| !#[trigger] free_seer(jets@, sees@, k),
        },
        match r {
            Some(i) => {
                &&& i < jets@.len()
                &&& jets@[i as int].active && sees@[i as int] && jets@[i as int].lock_target_id is None
                &&& forall|k: int| 0 <= k < i && (#[trigger] jets@[k]).active && sees@[k] ==> jets@[k].lock_target_id is Some
            },
            None => forall|k: int| 0 <= k < jets@.len() && (#[trigger] jets@[k]).active && sees@[k] ==> jets@[k].lock_target_id is Some,
        },
{
    let mut i: usize = 0;
    while i < jets.len()
        invariant
            i <= jets.len(),
            sees@.len() == jets@.len(),
            forall|k: int| 0 <= k < i ==> !#[trigger] free_seer(jets@, sees@, k),
        decreases jets.len() - i,
    {
        if jets[i].active && sees[i] && jets[i].lock_target_id.is_none() {
            proof {
                assert forall|k: int| 0 <= k < i && (#[trigger] jets@[k]).active && sees@[k]
                    implies jets@[k].lock_target_id is Some by {
                    assert(!free_seer(jets@, sees@, k));
                }
            }
            return Some(i);
        }
        i = i + 1;
    }
    proof {
        assert forall|k: int| 0 <= k < jets@.len() && (#[trigger] jets@[k]).active && sees@[k]
            implies jets@[k].lock_target_id is Some by {
            assert(!free_seer(jets@, sees@, k));
        }
    }
    None
}

/// The jet keeps chasing its locked contact while that contact is in play,
/// and drops the lock when it is not. Returns where the contact is.
pub fn track_target(jet: &mut JetLock, hostiles: &Vec<Hostile>) -> (r: Option<usize>)
    ensures
        match old(jet).lock_target_id {
            None => r is None && *final(jet) == *old(jet),
            Some(t) => match r {
                Some(k) => first_live(hostiles@, t, k as int) && *final(jet) == *old(jet),
                None => none_live(hostiles@, t) && *final(jet) == released(*old(jet)),
            },
        },
{
    match jet.lock_target_id {
        None => None,
        Some(t) => {
            let found = find_active(hostiles, t);
            if found.is_none() {
                jet.lock_target_id = None;
            }
            found
        },
    }
}

/// The jet's lock has charged: it fires on its locked contact if that is
/// still in play, and drops the lock either way. Returns the contact hit
/// and the burst left behind.
pub fn fire(jet: &mut JetLock, hostiles: &mut Vec<Hostile>) -> (r: Option<(usize, Blast)>)
    ensures
        *final(jet) == released(*old(jet)),
        final(jet).lock_target_id is None,
        final(jet).active == old(jet).active,
        final(hostiles)@.len() == old(hostiles)@.len(),
        match old(jet).lock_target_id {
            None => r is None && final(hostiles)@ == old(hostiles)@,
            Some(t) => match r {
                Some((k, b)) => {
                    &&& first_live(old(hostiles)@, t, k as int)
                    &&& final(hostiles)@ == old(hostiles)@.update(k as int, struck(old(hostiles)@[k as int]))
                    &&& b == strike_blast(old(hostiles)@[k as int])
                },
                None => none_live(old(hostiles)@, t) && final(hostiles)@ == old(hostiles)@,
            },
        },
{
    let result = match jet.lock_target_id {
        None => None,
        Some(t) => match find_active(hostiles, t) {
            None => None,
            Some(k) => {
                let mut h = hostiles[k];
                let b = strike(&mut h);
                hostiles[k] = h;
                Some((k, b))
            },
        },
    };
    jet.lock_target_id = None;
    result
}


/// Dropping a jet's lock never makes two flying jets hold the same contact.
pub proof fn lemma_release_keeps_distinct(jets: Seq<JetLock>, i: int)
    requires
        locks_distinct(jets),
        0 <= i < jets.len(),
    ensures
        locks_distinct(jets.update(i, released(jets[i]))),
{
    let after = jets.update(i, released(jets[i]));
    assert forall|a: int, b: int|
        0 <= a < after.len() && 0 <= b < after.len() && a != b && (#[trigger] after[a]).active
            && (#[trigger] after[b]).active && after[a].lock_target_id is Some
            implies after[a].lock_target_id != after[b].lock_target_id by {
        if a != i && b != i {
            assert(after[a] == jets[a] && after[b] == jets[b]);
        }
    }
}

} // verus!
