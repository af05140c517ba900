//! Incremental build core for linking RPC client stubs into application
//! components.
//!
//! The crate is organised around the per-component link protocol:
//! dependencies are classified into static and dynamic sets
//! ([`classifier`]), the canonical static set keys a durable task-result
//! marker ([`marker`]), marker freshness and file timestamps are combined
//! into a skip/act verdict ([`up_to_date`]), and the orchestrator
//! ([`link_rpc`]) drives the classify/plan/act/record loop over an explicit
//! model of the filesystem. Progress reporting ([`log`]) and profile
//! configuration ([`config`]) round out the library.

use vstd::prelude::*;

pub mod classifier;
pub mod config;
pub mod fs_model;
pub mod laws;
pub mod link_rpc;
pub mod log;
pub mod marker;
pub mod strutil;
pub mod up_to_date;

verus! {

} // verus!
