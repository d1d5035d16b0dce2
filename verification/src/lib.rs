//! Batch-lookup engine: resolves a list of identifiers against a record
//! source across several lanes, under live operator control (pause, resume,
//! cancel, reset), reporting progress and results incrementally.
//!
//! The crate holds the verified core: the execution-control state machine,
//! the static work partitioning, the per-lane bookkeeping with its progress
//! counter, the result-forwarding decision, and the field extraction that
//! turns a fetched page into a structured record. All I/O (file, network,
//! task scheduling) lives outside, in callers that drive these types.

pub mod aggregator;
pub mod controller;
pub mod cookies;
pub mod distributor;
pub mod engine;
pub mod parcel;
pub mod parsing;
pub mod text;
