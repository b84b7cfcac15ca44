//! A voice-note library: canonical identity of recordings, a durable
//! background task queue, and reconciliation of stored records against
//! the audio files found on disk.
pub mod config;
pub mod events;
pub mod ids;
pub mod imports;
pub mod listing;
pub mod notices;
pub mod paths;
pub mod ports;
pub mod queue;
pub mod recording;
pub mod records;
pub mod sync;
pub mod text;
pub mod transcriber;
pub mod watcher;
pub mod worker;
