//! A verified core for a notification triage daemon: it follows an
//! append-only notification log, filters and classifies new records by
//! urgency, tracks a binary environmental mode, and keeps an in-memory,
//! queryable store of classified notifications.
use vstd::prelude::*;

pub mod db;
pub mod focus;
pub mod json;
pub mod llm;
pub mod models;
pub mod orchestrator;
pub mod textutil;

verus! {

} // verus!
