//! What holds of every collection, coercion and execution.
//!
//! The laws of field groups and of merged selection sets stand beside them. What the public
//! functions return is stated in [`calls`], in terms of what goes into them.
pub mod answering;
pub mod answers;
pub mod calls;
pub mod coercion;
pub mod collection;
pub mod completion;
pub mod equality;
pub mod execution;
pub mod lookup;
pub mod results;
pub mod root;
