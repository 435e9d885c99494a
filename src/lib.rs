//! Synchronisation engine between a polling "now playing" music service and a
//! heartbeat-based activity store: tick decisions, bucket provisioning,
//! heartbeat merging, and paginated history backfill.

pub mod args;
pub mod backfill;
mod clock;
pub mod config;
pub mod poller;
pub mod provision;
pub mod store;
pub mod text;
pub mod track;
