//! Discrete rules of a radar sector-defense simulation: hostile contacts,
//! patrol-jet target locks, interceptor drones, the base shield, and the
//! glyphs the display picks. Positions, headings and timers live with the
//! caller; this library decides what happens to identities, locks, health
//! and counts, and states it in its contracts.

pub mod contacts;
pub mod jets;
pub mod drones;
pub mod shield;
pub mod engagement;
pub mod roster;
pub mod glyphs;
pub mod sector;

