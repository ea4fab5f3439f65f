# Radar sector defense

A terminal screensaver in which a radar sweep, two patrol jets and a swarm
of interceptor drones defend a shielded base against batteries, scouts,
nuclear payloads and dreadnoughts.

- `src/` is the verified library: the discrete rules of the sector.
  - `contacts`: hostile contacts, their ids, kinds, health and jet strikes.
  - `jets`: patrol jets and their target locks, the nearest free jet.
  - `drones`: interceptor drones, dispatch, ground fire and detonation.
  - `shield`: the base shield and what each impact costs.
  - `engagement`: one radar sweep over the contacts (locks, drones, shield).
  - `roster`: pruning what is out of play, in order.
  - `sector`: the whole discrete state and the operations on it, which keep
    its standing rules (every jet flies, no contact held by two jets, none
    hunted by two drones, shield at most full); a whole patrol round
    (`jet_round`), a whole radar sweep (`sweep`, stated exactly as the
    contacts resolved in order), one drone's frame (`drone_step`), and the
    spawn rules (`spawn_if_absent`, `spawn_battery_if_room`).
  - `glyphs`: the glyph choices of the display.
- `app/` is the screensaver around it: motion, angles, timers, chance and
  drawing, all in floating point, kept index for index beside the
  library's vectors.
- `tests/` exercises the library on concrete values.
