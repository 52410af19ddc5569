//! An evaluation engine for chat-completion endpoints: every test entry runs
//! against every endpoint under a bounded scheduler, each answer is scored
//! against the expected one (and optionally graded by a judge endpoint), and
//! the rows are gathered with a progress percentage into one result table.
//!
//! The network calls themselves are made by the caller; this crate decides
//! what to send, what each reply means, and how the run advances.
use vstd::prelude::*;

pub mod condition;
pub mod credential;
pub mod input;
pub mod judge;
pub mod output;
pub mod run;
pub mod schedule;
pub mod similarity;
pub mod task;
pub mod text;

verus! {

} // verus!
