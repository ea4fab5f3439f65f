use lib::contacts::{BATTERY, BOSS, NUKE, SCOUT};
use lib::glyphs::{
    backdrop_glyph, contact_glyph, health_glyph, heading, jet_glyph, laser_glyph, lock_glyph,
    status_alarm, warning, CellLight, PayloadBand, Warning,
};

#[test]
fn health_digits() {
    assert_eq!(health_glyph(3), '3');
    assert_eq!(health_glyph(0), '0');
    assert_eq!(health_glyph(9), '9');
    assert_eq!(health_glyph(10), 'B');
}

#[test]
fn contact_glyphs() {
    assert_eq!(contact_glyph(BOSS, 2, PayloadBand::Low), '2');
    assert_eq!(contact_glyph(NUKE, 1, PayloadBand::High), '☢');
    assert_eq!(contact_glyph(NUKE, 1, PayloadBand::Middle), '☣');
    assert_eq!(contact_glyph(NUKE, 1, PayloadBand::Low), '*');
    assert_eq!(contact_glyph(BATTERY, 1, PayloadBand::High), 'M');
    assert_eq!(contact_glyph(SCOUT, 1, PayloadBand::High), 'x');
}

#[test]
fn headings_and_jet_glyphs() {
    assert_eq!(heading(true, true), '▶');
    assert_eq!(heading(true, false), '◀');
    assert_eq!(heading(false, true), '▼');
    assert_eq!(heading(false, false), '▲');
    assert_eq!(jet_glyph('▶', true), '▶');
    assert_eq!(jet_glyph('▶', false), '▸');
    assert_eq!(jet_glyph('◀', false), '◂');
    assert_eq!(jet_glyph('▲', false), '▴');
    assert_eq!(jet_glyph('▼', false), '▾');
    assert_eq!(jet_glyph('?', false), '·');
}

#[test]
fn beam_glyphs() {
    let laser: String = (0..7).map(laser_glyph).collect();
    assert_eq!(laser, "%@#%#@%");
    assert_eq!(lock_glyph(0), '+');
    assert_eq!(lock_glyph(1), '·');
}

#[test]
fn backdrop() {
    let dark = CellLight { shield_ring: false, swept: false, range_ring: false, jet_swept: false, in_jet_range: false };
    assert_eq!(backdrop_glyph(&dark, 5, 3), '·');
    assert_eq!(backdrop_glyph(&dark, 4, 3), ' ');
    let ring = CellLight { range_ring: true, ..dark };
    assert_eq!(backdrop_glyph(&ring, 1, 1), '·');
    assert_eq!(backdrop_glyph(&CellLight { swept: true, ..ring }, 1, 1), 'o');
    assert_eq!(backdrop_glyph(&CellLight { swept: true, ..dark }, 1, 1), '.');
    assert_eq!(backdrop_glyph(&CellLight { jet_swept: true, ..ring }, 1, 1), '.');
    assert_eq!(backdrop_glyph(&CellLight { shield_ring: true, swept: true, ..dark }, 1, 1), '·');
    assert_eq!(backdrop_glyph(&CellLight { in_jet_range: true, ..dark }, 2, 2), '·');
    assert_eq!(backdrop_glyph(&CellLight { in_jet_range: true, ..dark }, 1, 2), ' ');
}

#[test]
fn banners_and_alarm() {
    assert_eq!(warning(true, true), Some(Warning::Payload));
    assert_eq!(warning(false, true), Some(Warning::Dreadnought));
    assert_eq!(warning(false, false), None);
    assert!(Warning::Payload.text().contains("NUCLEAR PAYLOAD"));
    assert!(Warning::Dreadnought.text().contains("DREADNOUGHT"));
    assert!(status_alarm(39, false));
    assert!(!status_alarm(40, false));
    assert!(status_alarm(100, true));
}
