//! The persistence and consistency layer of an events and tags catalogue: users, tags
//! with aliases, events with ordered images and tags, and refresh-token fingerprints.
//!
//! `database::Database` holds the relational tables. Each of its operations is one
//! transaction whose contract says, over the `Tables` view, exactly which rows it reads,
//! adds, changes or removes, and when it fails. `laws` states the properties that hold
//! across several operations.
use vstd::prelude::*;

pub mod database;
pub mod entities;
pub mod errors;
pub mod ids;
pub mod laws;
pub mod models;
pub mod paging;
mod outside;
pub mod values;

verus! {

} // verus!
