//! A schema migration engine for a node's embedded relational storage.
//!
//! Two families of steps, SQL scripts and code steps, are merged into one stream
//! ordered by version (SQL first at equal version) and applied once each. A
//! [`session::Session`] decides what to do next; its driver performs each action
//! against the database and reports back. The history tables are modelled in
//! [`walk`] and [`model`]; [`conformance`] proves that a session follows the model and
//! [`laws`] states what holds of it.
use vstd::prelude::*;

pub mod bookkeeping;
pub mod conformance;
pub mod invitation;
pub mod laws;
pub mod model;
pub mod registry;
pub mod relay;
pub mod session;
pub mod status;
pub mod step;
pub mod version;
pub mod walk;

verus! {

} // verus!
