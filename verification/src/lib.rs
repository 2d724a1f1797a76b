//! A session diary: turns a stream of coding-assistant activity events into a
//! structured, durable session record.
//!
//! The crate holds the verified core: the event model, the heuristic
//! classifier that maps free text and tool calls to categorized
//! accomplishments, the in-memory session accumulator, the planner for the
//! idempotent incremental persistence strategy together with a model of the
//! relational store, and the report-content generator.

pub mod classify;
pub mod paths;
pub mod report;
pub mod session;
pub mod store;
pub mod text;

use vstd::prelude::*;

verus! {

} // verus!
