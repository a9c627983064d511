//! What can go wrong when a query is executed.
use vstd::prelude::*;

use crate::value::Pos;
use crate::value::Value;

verus! {

/// An error of the execution of a query.
#[derive(Debug, PartialEq, Eq)]
pub enum QueryExecutionError {
    /// The schema has no type at which queries start.
    NoRootQueryObjectType,
    /// The position of a field, the object type, and the field that it does not have.
    UnknownField(Pos, String, String),
    /// The deadline has passed.
    Timeout,
    /// The object type of which nothing was selected.
    EmptySelectionSet(String),
    /// The name of a type that the schema does not define.
    NamedTypeError(String),
    /// What is not supported.
    Unimplemented(String),
    /// The position and the name of a field that must not be null.
    NonNullError(Pos, String),
    /// The position and the name of a field that must be a list.
    ListValueError(Pos, String),
    /// The interface or union for which no object type was found.
    AbstractTypeError(String),
    /// The position and the name of a variable whose type cannot be given as input.
    InvalidVariableTypeError(Pos, String),
    /// The position and the name of a variable that has no value.
    MissingVariableError(Pos, String),
    /// The position and the name of an argument that has no value.
    MissingArgumentError(Pos, String),
    /// The position and the name of an argument or a variable, and the value that does not fit its
    /// type.
    InvalidArgumentError(Pos, String, Value),
    /// The message of an error of a resolver.
    ResolverError(String),
}

/// A result whose errors are taken as the sequence that they are.
pub type Outcome<T> = Result<T, Seq<QueryExecutionError>>;

/// The outcome that `result` is.
pub open spec fn outcome<T>(result: Result<T, Vec<QueryExecutionError>>) -> Outcome<T> {
    match result {
        Ok(value) => Ok(value),
        Err(errors) => Err(errors@),
    }
}

} // verus!
