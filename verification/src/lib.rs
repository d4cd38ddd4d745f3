//! A policy-enforcement gateway for tool-call traffic: a registry of
//! content-addressed tool schemas with a Merkle digest, an execution-state
//! monitor with gas metering and cycle detection, a consensus council over an
//! evaluator triad, and a lexical firewall for free text, all composed by a
//! fail-closed facade that yields a single typed verdict.

pub mod errors;
pub mod text;
pub mod context;
pub mod cycle;
pub mod monitor;
pub mod json;
pub mod hash;
pub mod merkle;
pub mod votes;
pub mod consensus;
pub mod waluigi;
pub mod triad;
pub mod council;
pub mod registry;
pub mod drift;
pub mod verdict;
pub mod config;
pub mod sentinel;
pub mod entropy;
pub mod canary;
pub mod cdr;
pub mod firewall;
pub mod gas;

pub use crate::sentinel::Sentinel;
