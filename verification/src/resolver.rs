//! What the execution of a query asks of its surroundings.
use vstd::prelude::*;

use crate::error::QueryExecutionError;
use crate::name_map::NameMap;
use crate::query::Field;
use crate::schema::EnumType;
use crate::schema::FieldDefinition;
use crate::schema::InputValue;
use crate::schema::ObjectOrInterface;
use crate::schema::ObjectType;
use crate::schema::ScalarType;
use crate::schema::SchemaDocument;
use crate::schema::Type;
use crate::schema::TypeDefinition;
use crate::value::Value;

verus! {

/// Finds the values of fields. Its answers are its own: the execution asserts nothing about them.
pub trait Resolver {
    /// Resolves a field of an object or interface type into an object.
    fn resolve_object(
        &self,
        parent: &Option<Value>,
        field: &Field,
        field_definition: &FieldDefinition,
        object_type: ObjectOrInterface<'_>,
        arguments: &NameMap<Value>,
        types_for_interface: &NameMap<Vec<ObjectType>>,
    ) -> Result<Value, QueryExecutionError>;

    /// Resolves a field of a list type into a list of objects.
    fn resolve_objects(
        &self,
        parent: &Option<Value>,
        field: &String,
        field_definition: &FieldDefinition,
        object_type: ObjectOrInterface<'_>,
        arguments: &NameMap<Value>,
        types_for_interface: &NameMap<Vec<ObjectType>>,
    ) -> Result<Value, QueryExecutionError>;

    /// Resolves a value of the parent object into a value of an enum type.
    fn resolve_enum_value(
        &self,
        field: &Field,
        enum_type: &EnumType,
        value: Option<&Value>,
    ) -> Result<Value, QueryExecutionError>;

    /// Resolves a value of the parent object into a list of values of an enum type.
    fn resolve_enum_values(
        &self,
        field: &Field,
        enum_type: &EnumType,
        value: Option<&Value>,
    ) -> Result<Value, Vec<QueryExecutionError>>;

    /// Resolves a value of the parent object into a value of a scalar type.
    fn resolve_scalar_value(
        &self,
        parent_object_type: &ObjectType,
        parent: &NameMap<Value>,
        field: &Field,
        scalar_type: &ScalarType,
        value: Option<&Value>,
    ) -> Result<Value, QueryExecutionError>;

    /// Resolves a value of the parent object into a list of values of a scalar type.
    fn resolve_scalar_values(
        &self,
        field: &Field,
        scalar_type: &ScalarType,
        value: Option<&Value>,
    ) -> Result<Value, Vec<QueryExecutionError>>;

    /// Finds the object type that a value of an interface or a union has.
    fn resolve_abstract_type<'a>(
        &self,
        schema: &'a SchemaDocument,
        abstract_type: &TypeDefinition,
        object_value: &Value,
    ) -> Option<&'a ObjectType>;
}

/// Turns given values into values of their types. Its answers are its own: the execution asserts
/// nothing about them.
pub trait Coercion {
    /// Turns the value of an argument, if one is given, into a value of the argument's type. There
    /// is no value for an argument that may be left out and is.
    fn coerce_input_value(
        &self,
        value: Option<&Value>,
        definition: &InputValue,
        schema: &SchemaDocument,
        variable_values: &NameMap<Value>,
    ) -> Result<Option<Value>, QueryExecutionError>;

    /// Turns a value into one of the type `ty`, if it fits.
    fn coerce_value(
        &self,
        value: &Value,
        ty: &Type,
        schema: &SchemaDocument,
        variable_values: &NameMap<Value>,
    ) -> Option<Value>;
}

} // verus!
