//! Buswatch: verified instrumentation and monitoring for message-bus systems.
//!
//! The crate has three layers:
//! * the instrumentation core (`registry`), which turns per-call record
//!   operations into consistent periodic snapshots with backlog and rate
//!   information;
//! * the snapshot value types (`version`, `duration`, `metrics`,
//!   `snapshot`) together with their wire encoding (`wire`), their
//!   Prometheus exposition (`prometheus`) and the adapter-side synthesis
//!   of snapshots from bus facts (`adapters`);
//! * the terminal-monitor data model (`monitor`, `history`, `flow`,
//!   `app_state`, `export`, `sources`), which derives health, history and
//!   navigation state from successive snapshots.
//!
//! I/O stays with the embedding program: emitters, servers and terminal
//! drawing call into these types and never the other way around.

use vstd::prelude::*;

pub mod adapters;
pub mod app_state;
pub mod clock;
pub mod duration;
pub mod export;
pub mod flow;
pub mod history;
pub mod metrics;
pub mod monitor;
pub mod namemap;
pub mod otel;
pub mod prometheus;
pub mod registry;
pub mod snapshot;
pub mod sources;
pub mod strutil;
pub mod version;
pub mod wire;

verus! {

/// Major schema version emitted by this library.
pub const SCHEMA_VERSION: u32 = 1;

} // verus!
