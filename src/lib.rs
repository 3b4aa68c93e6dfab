//! Voice-channel recording engine: per-speaker rolling buffers on a tick timeline,
//! time-aligned snapshots and planning of mixes.
pub mod codec;
pub mod mixer;
pub mod naming;
pub mod recorder;
pub mod registry;
pub mod segment;
pub mod snapshot;
pub mod timeline;
