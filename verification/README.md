# bevy_ggrs

Rollback networking support for Bevy on top of GGRS, with its core logic verified by Verus.

## Layout

- `src/` — the verified library:
  - `snapshot/mod.rs`: the per-frame snapshot store (`GgrsSnapshots`): push, confirm,
    rollback, peek, depth handling, on a wrapping `i32` frame clock.
  - `snapshot/rollback.rs`: stable rollback identities and their registration order.
  - `snapshot/rollback_entity_map.rs`: how entity ids changed during a rollback.
  - `snapshot/component_snapshot.rs`, `resource_snapshot.rs`, `childof_snapshot.rs`,
    `entity.rs`: per-component, per-resource, parent and entity snapshots, and the restore
    plans computed from them.
  - `snapshot/checksum.rs`: frame checksums (SeaHash digests combined by XOR).
  - `snapshot/despawn.rs`: deferred despawning until a frame is confirmed.
  - `snapshot/strategy.rs`: copy and clone storage strategies.
  - `local.rs`: system-local values that follow rollbacks.
  - `time.rs`: the rollback clock.
  - `world_snapshot.rs`: whole-world snapshot checksums and entity write plans.
  - `snapshot/id_map.rs`: the contracts assumed of Bevy's hash map.
- `tests/` — tests of the library.
- `app/` — the Bevy plugins, schedules and the GGRS session loop, which drive the library.
