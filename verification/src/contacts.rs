use vstd::prelude::*;

verus! {

/// A fast scout, launched from batteries and dreadnoughts.
pub const SCOUT: u8 = 0;
/// A slow ground battery.
pub const BATTERY: u8 = 1;
/// A ballistic nuclear payload.
pub const NUKE: u8 = 2;
/// A dreadnought (boss) that takes several strikes.
pub const BOSS: u8 = 3;

/// The discrete part of an enemy ship: who it is, what it is, how much
/// health it has left and whether it is still in play.
#[derive(Clone, Copy, Debug, PartialEq, Eq, Structural)]
pub struct Hostile {
    pub id: u32,
    pub target_type: u8,
    pub health: u8,
    pub is_heavy: bool,
    pub active: bool,
}

/// The particle burst that an event leaves behind.
#[derive(Clone, Copy, Debug, PartialEq, Eq, Structural)]
pub enum Blast {
    /// A drone destroying its target.
    Explosion,
    /// A jet laser strike on a battery, scout or dreadnought.
    Massive,
    /// A drone lost or deflected.
    FailurePuff,
    /// A jet laser strike on a nuclear payload.
    Nuclear,
}

/// Number of particles in each burst.
pub open spec fn spec_particle_count(b: Blast) -> nat {
    match b {
        Blast::Explosion => 10,
        Blast::Massive => 30,
        Blast::FailurePuff => 6,
        Blast::Nuclear => 80,
    }
}

impl Blast {
    /// How many particles this burst spawns.
    pub fn particle_count(&self) -> (n: usize)
        ensures
            n == spec_particle_count(*self),
            *self == Blast::Explosion ==> n == 10,
            *self == Blast::Massive ==> n == 30,
            *self == Blast::FailurePuff ==> n == 6,
            *self == Blast::Nuclear ==> n == 80,
    {
        match self {
            Blast::Explosion => 10,
            Blast::Massive => 30,
            Blast::FailurePuff => 6,
            Blast::Nuclear => 80,
        }
    }
}

/// The id after `id`, wrapping around at `u32::MAX`.
pub open spec fn next_id(id: u32) -> u32 {
    ((id as int + 1) % 0x1_0000_0000) as u32
}

/// A freshly spawned contact of the given type carrying the given id.
pub open spec fn fresh_hostile(target_type: u8, id: u32) -> Hostile {
    Hostile {
        id,
        target_type,
        health: if target_type == BOSS { 3 } else { 1 },
        is_heavy: target_type != SCOUT,
        active: true,
    }
}

/// A new contact is in play under the given id; every kind but a scout is
/// heavy (and can be locked); a dreadnought starts with three points of
/// health, everything else with one.
pub proof fn lemma_fresh_hostile(target_type: u8, id: u32)
    ensures
        fresh_hostile(target_type, id).id == id,
        fresh_hostile(target_type, id).target_type == target_type,
        fresh_hostile(target_type, id).active,
        fresh_hostile(target_type, id).is_heavy <==> target_type != SCOUT,
        fresh_hostile(target_type, id).health == 3 <==> target_type == BOSS,
        target_type != BOSS ==> fresh_hostile(target_type, id).health == 1,
{
}

/// Spawns a contact of `target_type` under the id `*next_id`, and advances
/// the id counter (wrapping).
pub fn commission(target_type: u8, next: &mut u32) -> (h: Hostile)
    ensures
        h == fresh_hostile(target_type, *old(next)),
        h.id == *old(next),
        h.target_type == target_type,
        h.active,
        h.is_heavy == (target_type != SCOUT),
        h.health == if target_type == BOSS { 3u8 } else { 1u8 },
        *final(next) == next_id(*old(next)),
{
    let id = *next;
    *next = id.wrapping_add(1);
    let health: u8 = if target_type == BOSS { 3 } else { 1 };
    Hostile { id, target_type, health, is_heavy: target_type != SCOUT, active: true }
}


/// `h` is the live contact answering to `id`.
pub open spec fn is_live(h: Hostile, id: u32) -> bool {
    h.active && h.id == id
}

/// `i` is the first index of `s` holding the live contact `id`.
pub open spec fn first_live(s: Seq<Hostile>, id: u32, i: int) -> bool {
    &&& 0 <= i < s.len()
    &&& is_live(s[i], id)
    &&& forall|k: int| 0 <= k < i ==> !is_live(#[trigger] s[k], id)
}

/// No contact of `s` is the live contact `id`.
pub open spec fn none_live(s: Seq<Hostile>, id: u32) -> bool {
    forall|k: int| 0 <= k < s.len() ==> !is_live(#[trigger] s[k], id)
}

/// Finds the first active contact with the given id.
pub fn find_active(hostiles: &Vec<Hostile>, id: u32) -> (r: Option<usize>)
    ensures
        match r {
            Some(i) => first_live(hostiles@, id, i as int),
            None => none_live(hostiles@, id),
        },
        match r {
            Some(i) => {
                &&& i < hostiles@.len()
                &&& hostiles@[i as int].active
                &&& hostiles@[i as int].id == id
                &&& forall|k: int| 0 <= k < i ==> !(#[trigger] hostiles@[k]).active || hostiles@[k].id != id
            },
            None => forall|k: int| 0 <= k < hostiles@.len() ==> !(#[trigger] hostiles@[k]).active || hostiles@[k].id != id,
        },
{
    let mut i: usize = 0;
    while i < hostiles.len()
        invariant
            i <= hostiles.len(),
            forall|k: int| 0 <= k < i ==> !is_live(#[trigger] hostiles@[k], id),
        decreases hostiles.len() - i,
    {
        if hostiles[i].active && hostiles[i].id == id {
            return Some(i);
        }
        i = i + 1;
    }
    None
}

/// `i` is the first index of `s` holding an active contact of the type.
pub open spec fn first_of_kind(s: Seq<Hostile>, target_type: u8, i: int) -> bool {
    &&& 0 <= i < s.len()
    &&& s[i].active && s[i].target_type == target_type
    &&& forall|k: int| 0 <= k < i ==> !((#[trigger] s[k]).active && s[k].target_type == target_type)
}

/// Finds the first active contact of the given type (the payload the main
/// sweep follows, say).
pub fn find_active_of_kind(hostiles: &Vec<Hostile>, target_type: u8) -> (r: Option<usize>)
    ensures
        match r {
            Some(i) => first_of_kind(hostiles@, target_type, i as int),
            None => !kind_in_play(hostiles@, target_type),
        },
{
    let mut i: usize = 0;
    while i < hostiles.len()
        invariant
            i <= hostiles.len(),
            forall|k: int| 0 <= k < i ==> !((#[trigger] hostiles@[k]).active && hostiles@[k].target_type == target_type),
        decreases hostiles.len() - i,
    {
        if hostiles[i].active && hostiles[i].target_type == target_type {
            return Some(i);
        }
        i = i + 1;
    }
    None
}

/// Some active contact of `s` has the given target type.
pub open spec fn kind_in_play(s: Seq<Hostile>, target_type: u8) -> bool {
    exists|k: int| 0 <= k < s.len() && (#[trigger] s[k]).active && s[k].target_type == target_type
}

/// Whether any active contact has the given target type (a nuke or a
/// dreadnought in play, say).
pub fn any_active_of_kind(hostiles: &Vec<Hostile>, target_type: u8) -> (r: bool)
    ensures
        r == kind_in_play(hostiles@, target_type),
{
    let mut i: usize = 0;
    while i < hostiles.len()
        invariant
            i <= hostiles.len(),
            forall|k: int| 0 <= k < i ==> !((#[trigger] hostiles@[k]).active && hostiles@[k].target_type == target_type),
        decreases hostiles.len() - i,
    {
        if hostiles[i].active && hostiles[i].target_type == target_type {
            return true;
        }
        i = i + 1;
    }
    false
}

/// Number of active contacts of the given target type.
pub open spec fn count_kind(s: Seq<Hostile>, target_type: u8) -> nat
    decreases s.len(),
{
    if s.len() == 0 {
        0
    } else {
        count_kind(s.drop_last(), target_type) + if s.last().active && s.last().target_type
            == target_type {
            1nat
        } else {
            0nat
        }
    }
}

/// Counts the active contacts of the given target type (the ground
/// batteries in play, say).
pub fn count_active_of_kind(hostiles: &Vec<Hostile>, target_type: u8) -> (n: usize)
    ensures
        n == count_kind(hostiles@, target_type),
{
    let mut n: usize = 0;
    let mut i: usize = 0;
    while i < hostiles.len()
        invariant
            i <= hostiles.len(),
            n == count_kind(hostiles@.take(i as int), target_type),
            n <= i,
        decreases hostiles.len() - i,
    {
        assert(hostiles@.take(i + 1).drop_last() =~= hostiles@.take(i as int));
        if hostiles[i].active && hostiles[i].target_type == target_type {
            n = n + 1;
        }
        i = i + 1;
    }
    assert(hostiles@.take(i as int) =~= hostiles@);
    n
}

/// Batteries and dreadnoughts in play launch scouts.
pub open spec fn spec_launches_scouts(h: Hostile) -> bool {
    h.active && (h.target_type == BATTERY || h.target_type == BOSS)
}

/// Only contacts in play launch scouts, and only batteries and
/// dreadnoughts: a destroyed contact, a payload or a scout never does.
pub proof fn lemma_launchers(h: Hostile)
    ensures
        spec_launches_scouts(h) ==> h.active,
        spec_launches_scouts(h) ==> h.target_type == BATTERY || h.target_type == BOSS,
        h.active && (h.target_type == BATTERY || h.target_type == BOSS) ==> spec_launches_scouts(h),
{
}

/// Whether this contact launches scouts.
pub fn launches_scouts(h: &Hostile) -> (r: bool)
    ensures
        r == spec_launches_scouts(*h),
        r ==> h.active,
        r == (h.active && (h.target_type == BATTERY || h.target_type == BOSS)),
{
    h.active && (h.target_type == BATTERY || h.target_type == BOSS)
}

/// The contact after one jet laser strike: a dreadnought loses one point
/// of health and leaves play when none is left; anything else leaves play.
pub open spec fn struck(h: Hostile) -> Hostile {
    if h.target_type == BOSS {
        let hp: u8 = if h.health == 0 { 0 } else { (h.health - 1) as u8 };
        Hostile { health: hp, active: h.active && hp != 0, ..h }
    } else {
        Hostile { active: false, ..h }
    }
}

/// The burst a jet strike leaves: nuclear for a payload, massive otherwise.
pub open spec fn strike_blast(h: Hostile) -> Blast {
    if h.target_type == NUKE {
        Blast::Nuclear
    } else {
        Blast::Massive
    }
}

/// A jet strike changes only health and whether the contact is in play: a
/// dreadnought loses one point of health and stays in play while it has
/// health left; anything else leaves play at once. A payload leaves a
/// nuclear burst, anything else a massive one.
pub proof fn lemma_struck(h: Hostile)
    ensures
        struck(h).id == h.id,
        struck(h).target_type == h.target_type,
        struck(h).is_heavy == h.is_heavy,
        struck(h).health == if h.target_type == BOSS && h.health > 0 { (h.health - 1) as u8 } else { h.health },
        struck(h).active == (h.active && h.target_type == BOSS && h.health > 1),
        strike_blast(h) == Blast::Nuclear <==> h.target_type == NUKE,
        strike_blast(h) == Blast::Massive <==> h.target_type != NUKE,
{
}

/// Applies one jet laser strike to the contact.
pub fn strike(h: &mut Hostile) -> (b: Blast)
    ensures
        *final(h) == struck(*old(h)),
        b == strike_blast(*old(h)),
        final(h).id == old(h).id,
        final(h).target_type == old(h).target_type,
        final(h).is_heavy == old(h).is_heavy,
        final(h).health == if old(h).target_type == BOSS && old(h).health > 0 { (old(h).health - 1) as u8 } else { old(h).health },
        final(h).active == (old(h).active && old(h).target_type == BOSS && old(h).health > 1),
        (b == Blast::Nuclear) == (old(h).target_type == NUKE),
        (b == Blast::Massive) == (old(h).target_type != NUKE),
{
    if h.target_type == BOSS {
        h.health = h.health.saturating_sub(1);
        if h.health == 0 {
            h.active = false;
        }
        Blast::Massive
    } else if h.target_type == NUKE {
        h.active = false;
        Blast::Nuclear
    } else {
        h.active = false;
        Blast::Massive
    }
}


/// The contact after `n` jet strikes.
pub open spec fn struck_times(h: Hostile, n: nat) -> Hostile
    decreases n,
{
    if n == 0 {
        h
    } else {
        struck(struck_times(h, (n - 1) as nat))
    }
}

/// A dreadnought in play with `health` points left stays in play through
/// fewer than `health` jet strikes and is out of play after `health` of
/// them; its health drops by one per strike, down to zero.
pub proof fn lemma_dreadnought_strikes(h: Hostile, n: nat)
    requires
        h.target_type == BOSS,
        h.active,
        h.health > 0,
    ensures
        struck_times(h, n).active <==> n < h.health,
        struck_times(h, n).health == if n < h.health { h.health - n } else { 0 },
        struck_times(h, n).id == h.id,
        struck_times(h, n).target_type == BOSS,
        struck_times(h, n).is_heavy == h.is_heavy,
    decreases n,
{
    if n > 0 {
        lemma_dreadnought_strikes(h, (n - 1) as nat);
    }
}

/// Any other contact is out of play after a single jet strike.
pub proof fn lemma_single_strike(h: Hostile)
    requires
        h.target_type != BOSS,
    ensures
        !struck(h).active,
        struck(h).id == h.id,
{
}

/// The id handed out by the `n`-th spawn from the counter value `start`.
pub open spec fn nth_id(start: u32, n: nat) -> u32
    decreases n,
{
    if n == 0 {
        start
    } else {
        next_id(nth_id(start, (n - 1) as nat))
    }
}

/// Spawning advances the id counter by one each time, modulo 2^32.
pub proof fn lemma_nth_id(start: u32, n: nat)
    ensures
        nth_id(start, n) == (start as int + n) % 0x1_0000_0000,
    decreases n,
{
    if n > 0 {
        lemma_nth_id(start, (n - 1) as nat);
        let p = nth_id(start, (n - 1) as nat) as int;
        let m = 0x1_0000_0000int;
        assert(((start as int + n - 1) % m + 1) % m == (start as int + n) % m) by {
            vstd::arithmetic::div_mod::lemma_add_mod_noop(start as int + n - 1, 1, m);
            vstd::arithmetic::div_mod::lemma_small_mod(1nat, m as nat);
        }
    }
}

/// Fewer than 2^32 consecutive spawns never hand out the same id twice.
pub proof fn lemma_ids_distinct(start: u32, a: nat, b: nat)
    requires
        a < b < 0x1_0000_0000,
    ensures
        nth_id(start, a) != nth_id(start, b),
{
    lemma_nth_id(start, a);
    lemma_nth_id(start, b);
    let m = 0x1_0000_0000int;
    let x = start as int + a;
    let y = start as int + b;
    if x % m == y % m {
        vstd::arithmetic::div_mod::lemma_fundamental_div_mod(x, m);
        vstd::arithmetic::div_mod::lemma_fundamental_div_mod(y, m);
        assert(0 < y - x < m);
        assert(y - x == m * (y / m - x / m)) by (nonlinear_arith)
            requires
                x == m * (x / m) + x % m,
                y == m * (y / m) + y % m,
                x % m == y % m,
        ;
        assert(false) by (nonlinear_arith)
            requires
                y - x == m * (y / m - x / m),
                0 < y - x < m,
                m > 0,
        ;
    }
}


/// The edge of the sector a contact enters from.
#[derive(Clone, Copy, Debug, PartialEq, Eq, Structural)]
pub enum Edge {
    Top,
    Bottom,
    Left,
    Right,
}

/// Roll 0 enters at the top, 1 at the bottom, 2 on the left, anything
/// else on the right.
pub open spec fn spec_spawn_edge(roll: u32) -> Edge {
    if roll == 0 {
        Edge::Top
    } else if roll == 1 {
        Edge::Bottom
    } else if roll == 2 {
        Edge::Left
    } else {
        Edge::Right
    }
}

/// The edge a contact enters from, given a roll in `0..4`.
pub fn spawn_edge(roll: u32) -> (e: Edge)
    ensures
        e == spec_spawn_edge(roll),
        (e == Edge::Top) == (roll == 0),
        (e == Edge::Bottom) == (roll == 1),
        (e == Edge::Left) == (roll == 2),
        (e == Edge::Right) == (roll >= 3),
{
    match roll {
        0 => Edge::Top,
        1 => Edge::Bottom,
        2 => Edge::Left,
        _ => Edge::Right,
    }
}

/// Adding a contact adds one to its type's count when it is in play.
pub proof fn lemma_count_kind_push(s: Seq<Hostile>, h: Hostile, t: u8)
    ensures
        count_kind(s.push(h), t) == count_kind(s, t) + if h.active && h.target_type == t { 1nat } else { 0nat },
{
    assert(s.push(h).drop_last() =~= s);
}

/// A type counts zero exactly when no contact of it is in play.
pub proof fn lemma_count_kind_zero(s: Seq<Hostile>, t: u8)
    ensures
        count_kind(s, t) == 0 <==> !kind_in_play(s, t),
    decreases s.len(),
{
    if s.len() > 0 {
        let s0 = s.drop_last();
        lemma_count_kind_zero(s0, t);
        if kind_in_play(s0, t) {
            let k = choose|k: int| 0 <= k < s0.len() && (#[trigger] s0[k]).active && s0[k].target_type == t;
            assert(s[k] == s0[k]);
        }
        if kind_in_play(s, t) {
            let k = choose|k: int| 0 <= k < s.len() && (#[trigger] s[k]).active && s[k].target_type == t;
            if k < s0.len() {
                assert(s0[k] == s[k]);
            }
        }
    }
}

/// Taking contacts out of play (and changing nothing else that counts)
/// never adds to a type's count.
pub proof fn lemma_count_kind_retire(a: Seq<Hostile>, b: Seq<Hostile>, t: u8)
    requires
        a.len() == b.len(),
        forall|k: int| 0 <= k < a.len() && (#[trigger] b[k]).active && b[k].target_type == t
            ==> a[k].active && a[k].target_type == t,
    ensures
        count_kind(b, t) <= count_kind(a, t),
    decreases a.len(),
{
    if a.len() > 0 {
        let n = a.len() - 1;
        assert forall|k: int| 0 <= k < n && (#[trigger] b.drop_last()[k]).active && b.drop_last()[k].target_type == t
            implies a.drop_last()[k].active && a.drop_last()[k].target_type == t by {
            assert(b.drop_last()[k] == b[k] && a.drop_last()[k] == a[k]);
        }
        lemma_count_kind_retire(a.drop_last(), b.drop_last(), t);
    }
}

/// Every contact's id is below `next`, and no two contacts share an id.
pub open spec fn ids_sound(s: Seq<Hostile>, next: u32) -> bool {
    &&& forall|k: int| 0 <= k < s.len() ==> (#[trigger] s[k]).id < next
    &&& forall|a: int, b: int| 0 <= a < s.len() && 0 <= b < s.len() && a != b ==> (#[trigger] s[a]).id != (#[trigger] s[b]).id
}

/// `b` is `a` with some contacts possibly taken out of play (and their
/// health changed), nothing else.
pub open spec fn retired_from(a: Seq<Hostile>, b: Seq<Hostile>) -> bool {
    &&& a.len() == b.len()
    &&& forall|k: int| 0 <= k < a.len() ==> {
        &&& (#[trigger] b[k]).id == a[k].id
        &&& b[k].target_type == a[k].target_type
        &&& (b[k].active ==> a[k].active)
    }
}

/// Taking contacts out of play keeps ids sound and adds to no type's count.
pub proof fn lemma_retired(a: Seq<Hostile>, b: Seq<Hostile>, next: u32)
    requires
        retired_from(a, b),
    ensures
        ids_sound(a, next) ==> ids_sound(b, next),
        forall|t: u8| #[trigger] count_kind(b, t) <= count_kind(a, t),
{
    assert forall|t: u8| #[trigger] count_kind(b, t) <= count_kind(a, t) by {
        assert forall|k: int| 0 <= k < a.len() && (#[trigger] b[k]).active && b[k].target_type == t
            implies a[k].active && a[k].target_type == t by {}
        lemma_count_kind_retire(a, b, t);
    }
    if ids_sound(a, next) {
        assert forall|x: int, y: int| 0 <= x < b.len() && 0 <= y < b.len() && x != y
            implies (#[trigger] b[x]).id != (#[trigger] b[y]).id by {
            assert(b[x].id == a[x].id && b[y].id == a[y].id);
        }
    }
}

/// One strike, or one drone hit, only takes a contact out of play.
pub proof fn lemma_struck_retires(s: Seq<Hostile>, k: int)
    requires
        0 <= k < s.len(),
    ensures
        retired_from(s, s.update(k, struck(s[k]))),
{
}

} // verus!
