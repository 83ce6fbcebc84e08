//! Rollback bookkeeping for the GGRS peer-to-peer rollback library: snapshot storage keyed by
//! frame, stable rollback identities, entity reconciliation, checksums and frame-local state.

pub mod local;
pub mod snapshot;
pub mod time;
pub mod world_snapshot;

pub use snapshot::{ConfirmedFrameCount, GgrsSnapshots, RollbackFrameCount};
