use vstd::prelude::*;
use crate::contacts::{BATTERY, NUKE, BOSS};

verus! {

/// Strength of the base shield when whole.
pub const FULL_SHIELD: u32 = 100;

/// Shield strength a contact of each type costs when it reaches the base.
pub open spec fn spec_depletion(target_type: u8) -> u32 {
    if target_type == NUKE {
        50
    } else if target_type == BOSS {
        40
    } else if target_type == BATTERY {
        10
    } else {
        5
    }
}

/// A payload costs the shield most, then a dreadnought, then a battery,
/// then a scout; every impact costs something, and no single impact costs
/// more than half a full shield.
pub proof fn lemma_depletion_order(t: u8)
    ensures
        spec_depletion(NUKE) == 50,
        spec_depletion(BOSS) == 40,
        spec_depletion(BATTERY) == 10,
        t != NUKE && t != BOSS && t != BATTERY ==> spec_depletion(t) == 5,
        0 < spec_depletion(t) <= FULL_SHIELD / 2,
{
}

/// Shield strength that a contact of this type costs when it reaches the
/// base.
pub fn depletion(target_type: u8) -> (d: u32)
    ensures
        d == spec_depletion(target_type),
        target_type == NUKE ==> d == 50,
        target_type == BOSS ==> d == 40,
        target_type == BATTERY ==> d == 10,
        target_type != NUKE && target_type != BOSS && target_type != BATTERY ==> d == 5,
{
    if target_type == NUKE {
        50
    } else if target_type == BOSS {
        40
    } else if target_type == BATTERY {
        10
    } else {
        5
    }
}

/// The shield after a contact of this type reaches the base: reduced by
/// its cost, never below zero.
pub open spec fn absorbed(shield: u32, target_type: u8) -> u32 {
    if shield >= spec_depletion(target_type) {
        (shield - spec_depletion(target_type)) as u32
    } else {
        0
    }
}

/// A contact reaches the base: the shield takes its cost. Returns whether
/// the shield is down (the sector must then be reset).
pub fn absorb(shield: &mut u32, target_type: u8) -> (down: bool)
    ensures
        *final(shield) == absorbed(*old(shield), target_type),
        down == (*final(shield) == 0),
        *final(shield) as int == if *old(shield) >= spec_depletion(target_type) {
            *old(shield) - spec_depletion(target_type)
        } else {
            0
        },
        *final(shield) <= *old(shield),
{
    *shield = shield.saturating_sub(depletion(target_type));
    *shield == 0
}


/// The shield never rises through impacts and never exceeds full strength
/// if it started there or below; it is down exactly when an impact costs
/// at least what was left.
pub proof fn lemma_shield_bounds(shield: u32, target_type: u8)
    requires
        shield <= FULL_SHIELD,
    ensures
        absorbed(shield, target_type) <= shield,
        absorbed(shield, target_type) <= FULL_SHIELD,
        absorbed(shield, target_type) == 0 <==> shield <= spec_depletion(target_type),
{
}

} // verus!
