//! Process supervision and shared-resource orchestration for a local
//! desktop hub: a registry of supervised child processes with
//! kill-then-relaunch semantics, port reclamation planning, log-line
//! relaying, a single-flight loader for one shared inference resource,
//! and a telemetry poller with monotonic de-duplication.

pub mod apps;
pub mod commands;
pub mod errors;
pub mod gateway;
pub mod pulse;
pub mod reaper;
pub mod registry;
pub mod relay;
pub mod resource;
pub mod text;
