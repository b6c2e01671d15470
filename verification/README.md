# Arch Aim Trainer

An offline 3D aim trainer: Static Flick, Smooth Track, Target Switch and
Projectile Lead drills, with score, accuracy, combo and reaction statistics,
persistent settings and a CSV session history.

## Layout

- `src/` — the verified library (`arch_aim_trainer`):
  - `scenario.rs` — the drill catalogue; choosing the aimed target among the
    targets a ray meets; settling which projectile strikes which target in a
    frame, with proofs that hits are exclusive.
  - `stats.rs` — session counters (shots, hits, combo, best combo, score) and
    their invariants.
  - `config.rs` — the settings-file grammar, flag words and file locations,
    with proofs that files are read line by line and comments are inert.
  - `trainer.rs` — the menu, pause, results and play screens' per-frame
    decisions.
- `app/` — the program: rendering and input through macroquad, file access,
  and the floating-point parts (geometry, motion, timing, score multipliers).
- `tests/` — tests of the library.
