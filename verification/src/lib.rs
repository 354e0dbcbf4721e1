//! Event-aggregation and process-supervision core for a command re-runner.
//!
//! The library holds the decision logic of the tool: how raw file-change
//! events are filtered and debounced, how network payloads are validated
//! against a shared key, how triggers from all sources coalesce into at most
//! one pending signal, and how the supervisor decides when to restart the
//! child command. The surrounding process (sockets, the filesystem watcher,
//! spawning the child) feeds these functions plain values and acts on their
//! results.

pub mod channel;
pub mod duration;
pub mod files;
pub mod network;
pub mod supervisor;
