//! Rollback frame scheduling and world snapshots for a session-driven,
//! deterministic simulation.
//!
//! The host owns the simulation world and the networked session. Each real
//! frame it asks the [`GGRSStage`] how many fixed steps are owed, performs the
//! session calls, and hands every request of the session back to the stage,
//! which saves and restores [`WorldSnapshot`]s of the rollback-tracked
//! [`WorldState`] and keeps the frame counter.
//!
//! Time is kept in whole nanoseconds throughout.
pub mod checksum;
pub mod clock;
pub mod ggrs_stage;
pub mod plugin;
pub mod rollback;
pub mod session;
pub mod snapshot_store;
pub mod world;
pub mod world_snapshot;

pub use ggrs_stage::GGRSStage;
pub use plugin::GGRSPlugin;
pub use rollback::Rollback;
pub use rollback::RollbackIdProvider;
pub use session::PlayerInputs;
pub use session::Session;
pub use world::WorldState;
pub use world_snapshot::WorldSnapshot;
