use vstd::prelude::*;
use crate::contacts::{Hostile, count_kind, ids_sound, lemma_count_kind_push};
use crate::drones::{Drone, drones_unique};

verus! {

/// The items of `s` whose flag in `keep` is set, in their order.
pub open spec fn kept<T>(s: Seq<T>, keep: Seq<bool>) -> Seq<T>
    decreases s.len(),
{
    if s.len() == 0 {
        Seq::empty()
    } else {
        let rest = kept(s.drop_last(), keep.take(s.len() - 1));
        if keep[s.len() - 1] {
            rest.push(s.last())
        } else {
            rest
        }
    }
}

/// Keeping items one at a time: `kept` of a longer prefix extends that of
/// the shorter one by the next item exactly when it is flagged.
proof fn lemma_kept_step<T>(s: Seq<T>, keep: Seq<bool>, j: int)
    requires
        0 <= j < s.len(),
        keep.len() == s.len(),
    ensures
        kept(s.take(j + 1), keep.take(j + 1)) == if keep[j] {
            kept(s.take(j), keep.take(j)).push(s[j])
        } else {
            kept(s.take(j), keep.take(j))
        },
{
    assert(s.take(j + 1).drop_last() =~= s.take(j));
    assert(keep.take(j + 1).take(j) =~= keep.take(j));
}

/// Removes the items whose flag in `keep` is clear; the others stay, in
/// their order.
pub fn retain_marked<T>(items: &mut Vec<T>, keep: &Vec<bool>)
    requires
        keep@.len() == old(items)@.len(),
    ensures
        final(items)@ == kept(old(items)@, keep@),
{
    let ghost s = items@;
    let n = keep.len();
    let mut j: usize = 0;
    let mut p: usize = 0;
    while j < n
        invariant
            n == keep@.len(),
            n == s.len(),
            j <= n,
            p <= j,
            kept(s.take(j as int), keep@.take(j as int)).len() == p,
            items@ == kept(s.take(j as int), keep@.take(j as int)) + s.skip(j as int),
        decreases n - j,
    {
        proof {
            lemma_kept_step(s, keep@, j as int);
        }
        let ghost before = items@;
        assert(before[p as int] == s[j as int]);
        if keep[j] {
            p = p + 1;
        } else {
            items.remove(p);
        }
        assert(items@ =~= kept(s.take(j + 1), keep@.take(j + 1)) + s.skip(j + 1));
        j = j + 1;
    }
    assert(s.take(n as int) =~= s);
    assert(keep@.take(n as int) =~= keep@);
    assert(items@ =~= kept(s, keep@));
}


/// Nothing is added by keeping: what holds of every flagged item of `s`
/// holds of every item kept.
pub proof fn lemma_kept_all<T>(s: Seq<T>, keep: Seq<bool>, p: spec_fn(T) -> bool)
    requires
        keep.len() == s.len(),
        forall|i: int| 0 <= i < s.len() && keep[i] ==> p(#[trigger] s[i]),
    ensures
        kept(s, keep).len() <= s.len(),
        forall|k: int| 0 <= k < kept(s, keep).len() ==> p(#[trigger] kept(s, keep)[k]),
    decreases s.len(),
{
    if s.len() > 0 {
        let n = s.len() - 1;
        let s0 = s.drop_last();
        let k0 = keep.take(n);
        assert forall|i: int| 0 <= i < s0.len() && k0[i] implies p(#[trigger] s0[i]) by {
            assert(s0[i] == s[i] && k0[i] == keep[i]);
        }
        lemma_kept_all(s0, k0, p);
        let r0 = kept(s0, k0);
        let r = kept(s, keep);
        assert(r == if keep[n] { r0.push(s[n]) } else { r0 });
        assert forall|k: int| 0 <= k < r.len() implies p(#[trigger] r[k]) by {
            if k < r0.len() {
                assert(r[k] == r0[k]);
            }
        }
    }
}

/// Nothing flagged is lost: each flagged item of `s` is kept.
pub proof fn lemma_kept_contains<T>(s: Seq<T>, keep: Seq<bool>)
    requires
        keep.len() == s.len(),
    ensures
        forall|i: int| 0 <= i < s.len() && keep[i] ==> kept(s, keep).contains(#[trigger] s[i]),
    decreases s.len(),
{
    if s.len() > 0 {
        let n = s.len() - 1;
        let s0 = s.drop_last();
        let k0 = keep.take(n);
        lemma_kept_contains(s0, k0);
        let r0 = kept(s0, k0);
        let r = kept(s, keep);
        assert(r == if keep[n] { r0.push(s[n]) } else { r0 });
        assert forall|i: int| 0 <= i < s.len() && keep[i] implies r.contains(#[trigger] s[i]) by {
            if i < n {
                assert(s0[i] == s[i] && k0[i] == keep[i]);
                assert(r0.contains(s0[i]));
                let k = choose|k: int| 0 <= k < r0.len() && r0[k] == s0[i];
                assert(r[k] == r0[k]);
            } else {
                assert(r[r.len() - 1] == s[n]);
            }
        }
    }
}

/// One flag per contact: set exactly when the contact is still in play.
pub fn hostile_flags(hostiles: &Vec<Hostile>) -> (flags: Vec<bool>)
    ensures
        flags@.len() == hostiles@.len(),
        forall|i: int| 0 <= i < hostiles@.len() ==> flags@[i] == (#[trigger] hostiles@[i]).active,
{
    let mut flags: Vec<bool> = Vec::new();
    let mut i: usize = 0;
    while i < hostiles.len()
        invariant
            i <= hostiles.len(),
            flags@.len() == i,
            forall|k: int| 0 <= k < i ==> flags@[k] == (#[trigger] hostiles@[k]).active,
        decreases hostiles.len() - i,
    {
        flags.push(hostiles[i].active);
        i = i + 1;
    }
    flags
}

/// One flag per drone: set exactly when the drone still flies.
pub fn drone_flags(drones: &Vec<Drone>) -> (flags: Vec<bool>)
    ensures
        flags@.len() == drones@.len(),
        forall|i: int| 0 <= i < drones@.len() ==> flags@[i] == (#[trigger] drones@[i]).active,
{
    let mut flags: Vec<bool> = Vec::new();
    let mut i: usize = 0;
    while i < drones.len()
        invariant
            i <= drones.len(),
            flags@.len() == i,
            forall|k: int| 0 <= k < i ==> flags@[k] == (#[trigger] drones@[k]).active,
        decreases drones.len() - i,
    {
        flags.push(drones[i].active);
        i = i + 1;
    }
    flags
}

/// Clearing out the contacts no longer in play leaves exactly those in
/// play: every contact that remains is in play, and every contact in play
/// remains.
pub proof fn lemma_pruned_contacts(s: Seq<Hostile>, keep: Seq<bool>)
    requires
        keep.len() == s.len(),
        forall|i: int| 0 <= i < s.len() ==> keep[i] == (#[trigger] s[i]).active,
    ensures
        forall|k: int| 0 <= k < kept(s, keep).len() ==> (#[trigger] kept(s, keep)[k]).active,
        forall|i: int| 0 <= i < s.len() && (#[trigger] s[i]).active ==> kept(s, keep).contains(s[i]),
{
    let p = |h: Hostile| h.active;
    lemma_kept_all(s, keep, p);
    lemma_kept_contains(s, keep);
    assert forall|k: int| 0 <= k < kept(s, keep).len() implies (#[trigger] kept(s, keep)[k]).active by {
        assert(p(kept(s, keep)[k]));
    }
}

/// Clearing out the grounded drones leaves only flying drones, keeps every
/// flying drone, and keeps no contact hunted twice.
pub proof fn lemma_pruned_drones(s: Seq<Drone>, keep: Seq<bool>)
    requires
        keep.len() == s.len(),
        forall|i: int| 0 <= i < s.len() ==> keep[i] == (#[trigger] s[i]).active,
        drones_unique(s),
    ensures
        forall|k: int| 0 <= k < kept(s, keep).len() ==> (#[trigger] kept(s, keep)[k]).active,
        forall|i: int| 0 <= i < s.len() && (#[trigger] s[i]).active ==> kept(s, keep).contains(s[i]),
        drones_unique(kept(s, keep)),
    decreases s.len(),
{
    let fly = |d: Drone| d.active;
    lemma_kept_all(s, keep, fly);
    lemma_kept_contains(s, keep);
    let r = kept(s, keep);
    assert forall|k: int| 0 <= k < r.len() implies (#[trigger] r[k]).active by {
        assert(fly(r[k]));
    }
    if s.len() > 0 {
        let n = s.len() - 1;
        let s0 = s.drop_last();
        let k0 = keep.take(n);
        assert forall|i: int| 0 <= i < s0.len() implies k0[i] == (#[trigger] s0[i]).active by {
            assert(s0[i] == s[i] && k0[i] == keep[i]);
        }
        assert forall|a: int, b: int|
            0 <= a < s0.len() && 0 <= b < s0.len() && a != b && (#[trigger] s0[a]).active
                && (#[trigger] s0[b]).active implies s0[a].target_id != s0[b].target_id by {
            assert(s0[a] == s[a] && s0[b] == s[b]);
        }
        lemma_pruned_drones(s0, k0);
        let r0 = kept(s0, k0);
        assert(r == if keep[n] { r0.push(s[n]) } else { r0 });
        if keep[n] {
            let last = s[n];
            let apart = |d: Drone| d.target_id != last.target_id;
            assert forall|i: int| 0 <= i < s0.len() && k0[i] implies apart(#[trigger] s0[i]) by {
                assert(s0[i] == s[i] && k0[i] == keep[i]);
            }
            lemma_kept_all(s0, k0, apart);
            assert forall|a: int, b: int|
                0 <= a < r.len() && 0 <= b < r.len() && a != b && (#[trigger] r[a]).active
                    && (#[trigger] r[b]).active implies r[a].target_id != r[b].target_id by {
                if a < r0.len() && b < r0.len() {
                    assert(r[a] == r0[a] && r[b] == r0[b]);
                } else if a < r0.len() {
                    assert(r[a] == r0[a] && apart(r0[a]));
                } else {
                    assert(r[b] == r0[b] && apart(r0[b]));
                }
            }
        }
    }
}

/// Clearing out contacts adds to no type's count.
pub proof fn lemma_kept_count(s: Seq<Hostile>, keep: Seq<bool>, t: u8)
    requires
        keep.len() == s.len(),
    ensures
        count_kind(kept(s, keep), t) <= count_kind(s, t),
    decreases s.len(),
{
    if s.len() > 0 {
        let n = s.len() - 1;
        let s0 = s.drop_last();
        let k0 = keep.take(n);
        lemma_kept_count(s0, k0, t);
        let r0 = kept(s0, k0);
        assert(kept(s, keep) == if keep[n] { r0.push(s[n]) } else { r0 });
        lemma_count_kind_push(r0, s[n], t);
    }
}

/// Clearing out contacts keeps ids sound.
pub proof fn lemma_kept_ids(s: Seq<Hostile>, keep: Seq<bool>, next: u32)
    requires
        keep.len() == s.len(),
        ids_sound(s, next),
    ensures
        ids_sound(kept(s, keep), next),
    decreases s.len(),
{
    let below = |h: Hostile| h.id < next;
    lemma_kept_all(s, keep, below);
    let r = kept(s, keep);
    assert forall|k: int| 0 <= k < r.len() implies (#[trigger] r[k]).id < next by {
        assert(below(r[k]));
    }
    if s.len() > 0 {
        let n = s.len() - 1;
        let s0 = s.drop_last();
        let k0 = keep.take(n);
        assert forall|x: int, y: int| 0 <= x < s0.len() && 0 <= y < s0.len() && x != y
            implies (#[trigger] s0[x]).id != (#[trigger] s0[y]).id by {
            assert(s0[x] == s[x] && s0[y] == s[y]);
        }
        lemma_kept_ids(s0, k0, next);
        let r0 = kept(s0, k0);
        assert(r == if keep[n] { r0.push(s[n]) } else { r0 });
        if keep[n] {
            let last = s[n];
            let apart = |h: Hostile| h.id != last.id;
            assert forall|i: int| 0 <= i < s0.len() && k0[i] implies apart(#[trigger] s0[i]) by {
                assert(s0[i] == s[i]);
            }
            lemma_kept_all(s0, k0, apart);
            assert forall|a: int, b: int| 0 <= a < r.len() && 0 <= b < r.len() && a != b
                implies (#[trigger] r[a]).id != (#[trigger] r[b]).id by {
                if a < r0.len() && b < r0.len() {
                    assert(r[a] == r0[a] && r[b] == r0[b]);
                } else if a < r0.len() {
                    assert(r[a] == r0[a] && apart(r0[a]));
                } else {
                    assert(r[b] == r0[b] && apart(r0[b]));
                }
            }
        }
    }
}

} // verus!
