//! Launch Deck's core: what a project directory is, how to start it, and
//! how its runs are judged, with every decision stated as a contract.
//!
//! Detection rules, runner manifests, launch plans, restart policy, log
//! retention, readiness, workspace scanning and the rest take plain values and
//! give plain values back; the filesystem, processes and the network are the
//! caller's.
use vstd::prelude::*;

pub mod appicon;
pub mod command;
pub mod disk;
pub mod error;
pub mod facts;
pub mod glob;
pub mod health;
pub mod launch;
pub mod log;
pub mod logs;
pub mod manifest;
pub mod manual;
pub mod metrics;
pub mod path;
pub mod ports;
pub mod preflight;
pub mod probe;
pub mod program;
pub mod project;
pub mod registry;
pub mod retention;
pub mod rule;
pub mod runner;
pub mod runtime;
pub mod scan;
pub mod store;
pub mod studio;
pub mod supervisor;
pub mod surface;
pub mod text;

verus! {
} // verus!
