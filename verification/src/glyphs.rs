use vstd::prelude::*;
use crate::contacts::{BATTERY, NUKE, BOSS};

verus! {

/// The glyph of a dreadnought: its remaining health as a decimal digit,
/// or `B` when that takes more than one digit.
pub open spec fn spec_health_glyph(health: u8) -> char {
    if health < 10 {
        ((48 + health) as u32) as char
    } else {
        'B'
    }
}

/// The glyph showing a dreadnought's remaining health.
pub fn health_glyph(health: u8) -> (c: char)
    ensures
        c == spec_health_glyph(health),
        health < 10 ==> c as u32 == 48 + health,
        health >= 10 ==> c == 'B',
{
    match health {
        0 => '0',
        1 => '1',
        2 => '2',
        3 => '3',
        4 => '4',
        5 => '5',
        6 => '6',
        7 => '7',
        8 => '8',
        9 => '9',
        _ => 'B',
    }
}

/// How high a nuclear payload still flies: high (2.5 down to 1.8), middle
/// (down to 1.0) or low.
#[derive(Clone, Copy, Debug, PartialEq, Eq, Structural)]
pub enum PayloadBand {
    High,
    Middle,
    Low,
}

/// The glyph of a contact: its health for a dreadnought, a radiation sign
/// that turns to a biohazard sign and then a star as a payload descends,
/// `M` for a battery and `x` for a scout.
pub open spec fn spec_contact_glyph(target_type: u8, health: u8, band: PayloadBand) -> char {
    if target_type == BOSS {
        spec_health_glyph(health)
    } else if target_type == NUKE {
        match band {
            PayloadBand::High => '☢',
            PayloadBand::Middle => '☣',
            PayloadBand::Low => '*',
        }
    } else if target_type == BATTERY {
        'M'
    } else {
        'x'
    }
}

/// The glyph drawn for a contact.
pub fn contact_glyph(target_type: u8, health: u8, band: PayloadBand) -> (c: char)
    ensures
        c == spec_contact_glyph(target_type, health, band),
        target_type == BOSS && health < 10 ==> c as u32 == 48 + health,
        target_type == NUKE && band == PayloadBand::High ==> c == '☢',
        target_type == NUKE && band == PayloadBand::Middle ==> c == '☣',
        target_type == NUKE && band == PayloadBand::Low ==> c == '*',
        target_type == BATTERY ==> c == 'M',
        target_type != BOSS && target_type != NUKE && target_type != BATTERY ==> c == 'x',
{
    if target_type == BOSS {
        health_glyph(health)
    } else if target_type == NUKE {
        match band {
            PayloadBand::High => '☢',
            PayloadBand::Middle => '☣',
            PayloadBand::Low => '*',
        }
    } else if target_type == BATTERY {
        'M'
    } else {
        'x'
    }
}

/// The arrow a jet shows for its last step: along the larger of the two
/// components of the step (horizontal on a tie), pointing the way it went.
/// `positive` is whether that component was positive.
pub open spec fn spec_heading(horizontal: bool, positive: bool) -> char {
    if horizontal {
        if positive { '▶' } else { '◀' }
    } else {
        if positive { '▼' } else { '▲' }
    }
}

/// The heading arrow of a jet after a step.
pub fn heading(horizontal: bool, positive: bool) -> (c: char)
    ensures
        c == spec_heading(horizontal, positive),
        (c == '▶') == (horizontal && positive),
        (c == '◀') == (horizontal && !positive),
        (c == '▼') == (!horizontal && positive),
        (c == '▲') == (!horizontal && !positive),
{
    if horizontal {
        if positive { '▶' } else { '◀' }
    } else {
        if positive { '▼' } else { '▲' }
    }
}

/// A jet flying high shows its heading arrow; a low one the small arrow
/// of the same direction (a dot for anything else).
pub open spec fn spec_jet_glyph(heading: char, high: bool) -> char {
    if high {
        heading
    } else if heading == '▶' {
        '▸'
    } else if heading == '◀' {
        '◂'
    } else if heading == '▲' {
        '▴'
    } else if heading == '▼' {
        '▾'
    } else {
        '·'
    }
}

/// The glyph drawn for a jet.
pub fn jet_glyph(heading: char, high: bool) -> (c: char)
    ensures
        c == spec_jet_glyph(heading, high),
        high ==> c == heading,
        !high && heading == '▶' ==> c == '▸',
        !high && heading == '◀' ==> c == '◂',
        !high && heading == '▲' ==> c == '▴',
        !high && heading == '▼' ==> c == '▾',
        !high && heading != '▶' && heading != '◀' && heading != '▲' && heading != '▼' ==> c == '·',
{
    if high {
        heading
    } else {
        match heading {
            '▶' => '▸',
            '◀' => '◂',
            '▲' => '▴',
            '▼' => '▾',
            _ => '·',
        }
    }
}

/// The glyph at step `s` of a laser beam: `%` every third step, else `#`
/// on even steps and `@` on odd ones.
pub open spec fn spec_laser_glyph(s: u32) -> char {
    if s % 3 == 0 {
        '%'
    } else if s % 2 == 0 {
        '#'
    } else {
        '@'
    }
}

/// The glyph at a step of a laser beam.
pub fn laser_glyph(s: u32) -> (c: char)
    ensures
        c == spec_laser_glyph(s),
        (c == '%') == (s % 3 == 0),
        (c == '#') == (s % 3 != 0 && s % 2 == 0),
        (c == '@') == (s % 3 != 0 && s % 2 != 0),
{
    if s % 3 == 0 {
        '%'
    } else if s % 2 == 0 {
        '#'
    } else {
        '@'
    }
}

/// The glyph at step `s` of a lock line: `+` on even steps, `·` on odd.
pub fn lock_glyph(s: u32) -> (c: char)
    ensures
        c == if s % 2 == 0 { '+' } else { '·' },
{
    if s % 2 == 0 {
        '+'
    } else {
        '·'
    }
}

/// What lights a cell of the radar backdrop.
#[derive(Clone, Copy, Debug, PartialEq, Eq, Structural)]
pub struct CellLight {
    /// The cell lies on the shield ring.
    pub shield_ring: bool,
    /// The main sweep (or its afterglow) lights the cell.
    pub swept: bool,
    /// The cell lies on one of the range rings.
    pub range_ring: bool,
    /// A jet's sweep lights the cell.
    pub jet_swept: bool,
    /// The cell lies within a jet's radar range.
    pub in_jet_range: bool,
}

/// The backdrop glyph of the cell at column `c`, row `r`: the shield ring
/// first, then the main sweep (an `o` on a range ring), a jet's sweep, the
/// range rings, the dotted jet range, and the sparse background grid.
pub open spec fn spec_backdrop_glyph(light: CellLight, c: u32, r: u32) -> char {
    if light.shield_ring {
        '·'
    } else if light.swept {
        if light.range_ring { 'o' } else { '.' }
    } else if light.jet_swept {
        '.'
    } else if light.range_ring {
        '·'
    } else if light.in_jet_range && c % 2 == 0 && r % 2 == 0 {
        '·'
    } else if r % 3 == 0 && c % 5 == 0 {
        '·'
    } else {
        ' '
    }
}

/// The backdrop glyph of a cell.
pub fn backdrop_glyph(light: &CellLight, c: u32, r: u32) -> (g: char)
    ensures
        g == spec_backdrop_glyph(*light, c, r),
        light.shield_ring ==> g == '·',
        !light.shield_ring && light.swept ==> g == if light.range_ring { 'o' } else { '.' },
        !light.shield_ring && !light.swept && light.jet_swept ==> g == '.',
        !light.shield_ring && !light.swept && !light.jet_swept && light.range_ring ==> g == '·',
        !light.shield_ring && !light.swept && !light.jet_swept && !light.range_ring ==> (g == '·' || g == ' '),
        (g == ' ') == (!light.shield_ring && !light.swept && !light.jet_swept && !light.range_ring
            && !(light.in_jet_range && c % 2 == 0 && r % 2 == 0) && !(r % 3 == 0 && c % 5 == 0)),
{
    if light.shield_ring {
        '·'
    } else if light.swept {
        if light.range_ring { 'o' } else { '.' }
    } else if light.jet_swept {
        '.'
    } else if light.range_ring {
        '·'
    } else if light.in_jet_range && c % 2 == 0 && r % 2 == 0 {
        '·'
    } else if r % 3 == 0 && c % 5 == 0 {
        '·'
    } else {
        ' '
    }
}


/// A banner shows exactly while a payload or a dreadnought is in play, and
/// a payload in play always takes it.
pub proof fn lemma_warning(nuke_active: bool, boss_active: bool)
    ensures
        spec_warning(nuke_active, boss_active) is Some <==> nuke_active || boss_active,
        nuke_active ==> spec_warning(nuke_active, boss_active) == Some(Warning::Payload),
        !nuke_active && boss_active ==> spec_warning(nuke_active, boss_active) == Some(Warning::Dreadnought),
{
}

/// A jet flying high shows its heading as it is; a low one shows the small
/// arrow pointing the same way as its heading.
pub proof fn lemma_jet_glyph(heading: char, high: bool)
    ensures
        high ==> spec_jet_glyph(heading, high) == heading,
        !high && (heading == '▶' || heading == '◀' || heading == '▲' || heading == '▼')
            ==> spec_jet_glyph(heading, high) != heading,
        !high && heading == '▶' ==> spec_jet_glyph(heading, high) == '▸',
        !high && heading == '◀' ==> spec_jet_glyph(heading, high) == '◂',
        !high && heading == '▲' ==> spec_jet_glyph(heading, high) == '▴',
        !high && heading == '▼' ==> spec_jet_glyph(heading, high) == '▾',
{
}

/// The heading arrow points the way the jet moved: right or left along a
/// horizontal step, down or up along a vertical one; the four arrows are
/// told apart.
pub proof fn lemma_heading(horizontal: bool, positive: bool, h2: bool, p2: bool)
    ensures
        spec_heading(horizontal, positive) == spec_heading(h2, p2) <==> horizontal == h2 && positive == p2,
        horizontal ==> (spec_heading(horizontal, positive) == '▶' || spec_heading(horizontal, positive) == '◀'),
        !horizontal ==> (spec_heading(horizontal, positive) == '▼' || spec_heading(horizontal, positive) == '▲'),
{
}

/// A dreadnought shows its health digit for health below ten; no two
/// healths below ten show the same digit.
pub proof fn lemma_health_glyph(a: u8, b: u8)
    ensures
        a < 10 ==> spec_health_glyph(a) as u32 == 48 + a,
        a >= 10 ==> spec_health_glyph(a) == 'B',
        a < 10 && b < 10 && a != b ==> spec_health_glyph(a) != spec_health_glyph(b),
{
}

/// The laser pattern repeats every six steps.
pub proof fn lemma_laser_period(s: u32)
    requires
        s <= u32::MAX - 6,
    ensures
        spec_laser_glyph((s + 6) as u32) == spec_laser_glyph(s),
{
    assert((s + 6) % 3 == s % 3 && (s + 6) % 2 == s % 2) by (nonlinear_arith);
}

/// The banner shown while a payload or a dreadnought is in play.
#[derive(Clone, Copy, Debug, PartialEq, Eq, Structural)]
pub enum Warning {
    Payload,
    Dreadnought,
}

/// A payload in play takes the banner over a dreadnought.
pub open spec fn spec_warning(nuke_active: bool, boss_active: bool) -> Option<Warning> {
    if nuke_active {
        Some(Warning::Payload)
    } else if boss_active {
        Some(Warning::Dreadnought)
    } else {
        None
    }
}

/// The banner to show, if any.
pub fn warning(nuke_active: bool, boss_active: bool) -> (w: Option<Warning>)
    ensures
        w == spec_warning(nuke_active, boss_active),
        w is Some <==> nuke_active || boss_active,
        nuke_active ==> w == Some(Warning::Payload),
        !nuke_active && boss_active ==> w == Some(Warning::Dreadnought),
{
    if nuke_active {
        Some(Warning::Payload)
    } else if boss_active {
        Some(Warning::Dreadnought)
    } else {
        None
    }
}

impl Warning {
    /// The banner's text.
    pub fn text(&self) -> (t: &'static str)
        ensures
            t@ == match *self {
                Warning::Payload => "⚠️ WARNING: BALISTIC NUCLEAR PAYLOAD ACQUIRED ⚠️"@,
                Warning::Dreadnought => "⚠️ WARNING: DREADNOUGHT CLASS SIGNATURE DETECTED ⚠️"@,
            },
    {
        match self {
            Warning::Payload => "⚠️ WARNING: BALISTIC NUCLEAR PAYLOAD ACQUIRED ⚠️",
            Warning::Dreadnought => "⚠️ WARNING: DREADNOUGHT CLASS SIGNATURE DETECTED ⚠️",
        }
    }
}

/// The status line turns red when the shield is below 40 or a payload is
/// in play.
pub fn status_alarm(shield: u32, nuke_active: bool) -> (red: bool)
    ensures
        red == (shield < 40 || nuke_active),
{
    shield < 40 || nuke_active
}

} // verus!
