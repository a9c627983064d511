//! The execution of GraphQL queries against a schema, with the values that resolvers find.
//!
//! [`execute::execute_root_selection_set`] executes the root selection set of a query: it collects
//! the selected fields into groups by their response keys ([`collect`]), coerces the arguments of
//! each field ([`coerce`]), asks a resolver for its value ([`resolve`]), and completes that value
//! as the type of the field asks for, which for an object means to execute the selections on it.
//!
//! What a resolver answers is its own affair, so the contracts relate the response to the answers:
//! a [`run`] records what was asked and answered, and the response is what follows from it. What
//! holds of every execution is stated in [`laws`].
use vstd::prelude::*;

pub mod answerable;
pub mod clock;
pub mod coerce;
pub mod collect;
pub mod context;
pub mod error;
pub mod execute;
pub mod field_groups;
pub mod laws;
pub mod merge;
pub mod name_map;
pub mod name_set;
pub mod named;
pub mod query;
pub mod resolve;
pub mod resolver;
pub mod run;
pub mod schema;
pub mod value;

verus! {

} // verus!
