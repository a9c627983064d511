//! Which value a field has, by the answers of a resolver.
use vstd::prelude::*;
use vstd::pervasive::unreached;

use crate::context::ContextView;
use crate::context::ExecutionContext;
use crate::error::Outcome;
use crate::error::QueryExecutionError;
use crate::error::outcome;
use crate::name_map::NameMap;
use crate::query::Field;
use crate::resolver::Coercion;
use crate::resolver::Resolver;
use crate::schema::FieldDefinition;
use crate::schema::ObjectOrInterface;
use crate::schema::ObjectType;
use crate::schema::Type;
use crate::schema::TypeDefinition;
use crate::schema::base_name;
use crate::schema::get_named_type;
use crate::schema::is_input_object;
use crate::schema::item_name;
use crate::schema::named_type;
use crate::schema::output_type;
use crate::schema::resolved_name;
use crate::value::Value;

verus! {

/// The outcome that a single answer is: its error is the only one.
pub open spec fn single(answer: Result<Value, QueryExecutionError>) -> Outcome<Value> {
    match answer {
        Ok(value) => Ok(value),
        Err(error) => Err(seq![error]),
    }
}

/// Turns the error of an answer into the only one of a list.
fn in_list(answer: Result<Value, QueryExecutionError>) -> (result: Result<
    Value,
    Vec<QueryExecutionError>,
>)
    ensures
        outcome(result) == single(answer),
{
    match answer {
        Ok(value) => Ok(value),
        Err(error) => Err(one_error(error)),
    }
}

/// The list of one error.
pub(crate) fn one_error(error: QueryExecutionError) -> (errors: Vec<QueryExecutionError>)
    ensures
        errors@ == seq![error],
{
    let mut errors: Vec<QueryExecutionError> = Vec::new();
    errors.push(error);
    assert(errors@ =~= seq![error]);
    errors
}

/// The value that `object` has for `name`, if it has one.
pub open spec fn member<'v>(object: NameMap<Value>, name: Seq<char>) -> Option<&'v Value> {
    if object@.contains_key(name) {
        Some(&object@[name])
    } else {
        None
    }
}

/// Whether `result` is the one error that `feature` is not supported.
pub open spec fn is_unimplemented(result: Outcome<Value>, feature: Seq<char>) -> bool {
    &&& result is Err
    &&& result->Err_0.len() == 1
    &&& result->Err_0[0] matches QueryExecutionError::Unimplemented(what) && what@ == feature
}

/// Whether `result` is what the field `field` of an object of type `object_type` may be resolved
/// into, if its type is the one called `name`. An unknown type is an error. Objects and interfaces
/// are left to the resolver, which knows the parent object. Enums and scalars are left to the
/// resolver too, with the value that the parent object has for the field; without a parent object
/// they are null. Unions are not supported.
pub open spec fn resolves_named<R1: Resolver, R2: Resolver, C: Coercion>(
    c: ContextView<R1, R2, C>,
    object_type: ObjectType,
    object_value: Option<Value>,
    field: Field,
    definition: FieldDefinition,
    name: String,
    arguments: NameMap<Value>,
    result: Outcome<Value>,
) -> bool {
    match named_type(c.current_schema(), name@) {
        None => result == Err::<Value, _>(seq![QueryExecutionError::NamedTypeError(name)]),
        Some(TypeDefinition::Object(t)) => exists|answer: Result<Value, QueryExecutionError>|
            #[trigger] c.object_answer(
                object_value,
                field,
                definition,
                ObjectOrInterface::Object(&t),
                arguments,
                answer,
            ) && result == single(answer),
        Some(TypeDefinition::Enum(t)) => match object_value {
            Some(Value::Object(object)) => exists|answer: Result<Value, QueryExecutionError>|
                #[trigger] c.enum_answer(field, t, member(object, field.name@), answer) && result
                    == single(answer),
            _ => result == Ok::<_, Seq<QueryExecutionError>>(Value::Null),
        },
        Some(TypeDefinition::Scalar(t)) => match object_value {
            Some(Value::Object(object)) => exists|answer: Result<Value, QueryExecutionError>|
                #[trigger] c.scalar_answer(
                    object_type,
                    object,
                    field,
                    t,
                    member(object, field.name@),
                    answer,
                ) && result == single(answer),
            _ => result == Ok::<_, Seq<QueryExecutionError>>(Value::Null),
        },
        Some(TypeDefinition::Interface(t)) => exists|answer: Result<Value, QueryExecutionError>|
            #[trigger] c.object_answer(
                object_value,
                field,
                definition,
                ObjectOrInterface::Interface(&t),
                arguments,
                answer,
            ) && result == single(answer),
        Some(TypeDefinition::Union(_)) => is_unimplemented(result, "unions"@),
        Some(TypeDefinition::InputObject(_)) => false,
    }
}

/// Whether `result` is what the field `field` may be resolved into, if its type is a list of the
/// type called `name`.
pub open spec fn resolves_list_of<R1: Resolver, R2: Resolver, C: Coercion>(
    c: ContextView<R1, R2, C>,
    object_value: Option<Value>,
    field: Field,
    definition: FieldDefinition,
    name: String,
    arguments: NameMap<Value>,
    result: Outcome<Value>,
) -> bool {
    match named_type(c.current_schema(), name@) {
        None => result == Err::<Value, _>(seq![QueryExecutionError::NamedTypeError(name)]),
        Some(TypeDefinition::Object(t)) => exists|answer: Result<Value, QueryExecutionError>|
            #[trigger] c.objects_answer(
                object_value,
                field.name,
                definition,
                ObjectOrInterface::Object(&t),
                arguments,
                answer,
            ) && result == single(answer),
        Some(TypeDefinition::Enum(t)) => match object_value {
            Some(Value::Object(object)) => exists|answer: Result<Value, Vec<QueryExecutionError>>|
                #[trigger] c.enums_answer(field, t, member(object, field.name@), answer) && result
                    == outcome(answer),
            _ => result == Ok::<_, Seq<QueryExecutionError>>(Value::Null),
        },
        Some(TypeDefinition::Scalar(t)) => match object_value {
            Some(Value::Object(object)) => exists|answer: Result<Value, Vec<QueryExecutionError>>|
                #[trigger] c.scalars_answer(field, t, member(object, field.name@), answer)
                    && result == outcome(answer),
            _ => result == Ok::<_, Seq<QueryExecutionError>>(Value::Null),
        },
        Some(TypeDefinition::Interface(t)) => exists|answer: Result<Value, QueryExecutionError>|
            #[trigger] c.objects_answer(
                object_value,
                field.name,
                definition,
                ObjectOrInterface::Interface(&t),
                arguments,
                answer,
            ) && result == single(answer),
        Some(TypeDefinition::Union(_)) => is_unimplemented(result, "unions"@),
        Some(TypeDefinition::InputObject(_)) => false,
    }
}

/// Whether `result` is what the field `field` may be resolved into, if its type is a list of items
/// of type `item_type`. Nested lists are not supported.
pub open spec fn resolves_list<R1: Resolver, R2: Resolver, C: Coercion>(
    c: ContextView<R1, R2, C>,
    object_value: Option<Value>,
    field: Field,
    definition: FieldDefinition,
    item_type: Type,
    arguments: NameMap<Value>,
    result: Outcome<Value>,
) -> bool {
    match item_name(item_type) {
        Some(name) => resolves_list_of(
            c,
            object_value,
            field,
            definition,
            name,
            arguments,
            result,
        ),
        None => is_unimplemented(result, "nested list types"@),
    }
}

/// Whether `result` is what the field `field` of an object of type `object_type` may be resolved
/// into, if its type is `field_type`. Whether the type excludes null does not matter yet.
pub open spec fn resolves<R1: Resolver, R2: Resolver, C: Coercion>(
    c: ContextView<R1, R2, C>,
    object_type: ObjectType,
    object_value: Option<Value>,
    field: Field,
    definition: FieldDefinition,
    field_type: Type,
    arguments: NameMap<Value>,
    result: Outcome<Value>,
) -> bool
    decreases field_type,
{
    match field_type {
        Type::NonNullType(inner) => resolves(
            c,
            object_type,
            object_value,
            field,
            definition,
            *inner,
            arguments,
            result,
        ),
        Type::NamedType(name) => resolves_named(
            c,
            object_type,
            object_value,
            field,
            definition,
            name,
            arguments,
            result,
        ),
        Type::ListType(inner) => resolves_list(
            c,
            object_value,
            field,
            definition,
            *inner,
            arguments,
            result,
        ),
    }
}

/// Where nothing nested is resolved, the base name of a type is the one it is resolved for.
proof fn lemma_resolved_name(ty: Type)
    ensures
        resolved_name(ty) matches Some(name) ==> base_name(ty) == name@,
        item_name(ty) matches Some(name) ==> base_name(ty) == name@,
    decreases ty,
{
    match ty {
        Type::NonNullType(inner) => lemma_resolved_name(*inner),
        Type::ListType(inner) => lemma_resolved_name(*inner),
        Type::NamedType(_) => {},
    }
}

/// A type that was resolved without an error is known, and not an input object.
pub proof fn lemma_resolved_is_known<R1: Resolver, R2: Resolver, C: Coercion>(
    c: ContextView<R1, R2, C>,
    object_type: ObjectType,
    object_value: Option<Value>,
    field: Field,
    definition: FieldDefinition,
    ty: Type,
    arguments: NameMap<Value>,
    value: Value,
)
    requires
        resolves(
            c,
            object_type,
            object_value,
            field,
            definition,
            ty,
            arguments,
            Ok(value),
        ),
    ensures
        named_type(c.current_schema(), base_name(ty)) is Some,
        !(named_type(c.current_schema(), base_name(ty))->0 is InputObject),
    decreases ty,
{
    lemma_resolved_name(ty);
    match ty {
        Type::NonNullType(inner) => lemma_resolved_is_known(
            c,
            object_type,
            object_value,
            field,
            definition,
            *inner,
            arguments,
            value,
        ),
        Type::ListType(_) => {},
        Type::NamedType(_) => {},
    }
}

/// Resolves the value of a field.
pub fn resolve_field_value<'a, R1, R2, C>(
    ctx: ExecutionContext<'a, R1, R2, C>,
    object_type: &ObjectType,
    object_value: &Option<Value>,
    field: &Field,
    field_definition: &FieldDefinition,
    field_type: &Type,
    argument_values: &NameMap<Value>,
) -> (result: Result<Value, Vec<QueryExecutionError>>) where
    R1: Resolver,
    R2: Resolver,
    C: Coercion,

    requires
        output_type(ctx@.current_schema(), *field_type),
    ensures
        resolves(
            ctx@,
            *object_type,
            *object_value,
            *field,
            *field_definition,
            *field_type,
            *argument_values,
            outcome(result),
        ),
    decreases field_type,
{
    match field_type {
        Type::NonNullType(inner_type) => resolve_field_value(
            ctx,
            object_type,
            object_value,
            field,
            field_definition,
            inner_type,
            argument_values,
        ),
        Type::NamedType(name) => resolve_field_value_for_named_type(
            ctx,
            object_type,
            object_value,
            field,
            field_definition,
            name,
            argument_values,
        ),
        Type::ListType(inner_type) => resolve_field_value_for_list_type(
            ctx,
            object_type,
            object_value,
            field,
            field_definition,
            inner_type,
            argument_values,
        ),
    }
}

/// Resolves the value of a field that corresponds to a named type.
pub fn resolve_field_value_for_named_type<'a, R1, R2, C>(
    ctx: ExecutionContext<'a, R1, R2, C>,
    object_type: &ObjectType,
    object_value: &Option<Value>,
    field: &Field,
    field_definition: &FieldDefinition,
    name_of_type: &String,
    argument_values: &NameMap<Value>,
) -> (result: Result<Value, Vec<QueryExecutionError>>) where
    R1: Resolver,
    R2: Resolver,
    C: Coercion,

    requires
        !is_input_object(ctx@.current_schema(), name_of_type@),
    ensures
        resolves_named(
            ctx@,
            *object_type,
            *object_value,
            *field,
            *field_definition,
            *name_of_type,
            *argument_values,
            outcome(result),
        ),
{
    // Try to resolve the type name into the actual type
    let named = match get_named_type(ctx.get_schema(), name_of_type) {
        Some(named) => named,
        None => {
            return Err(one_error(QueryExecutionError::NamedTypeError(name_of_type.clone())));
        },
    };

    match named {
        // Let the resolver decide how the field (with the given object type)
        // is resolved into an entity based on the (potential) parent object
        TypeDefinition::Object(t) => {
            let answer = ctx.resolve_object(
                object_value,
                field,
                field_definition,
                ObjectOrInterface::Object(t),
                argument_values,
            );
            in_list(answer)
        },
        // Let the resolver decide how values in the resolved object value
        // map to values of GraphQL enums
        TypeDefinition::Enum(t) => match object_value {
            Some(Value::Object(o)) => {
                let answer = ctx.resolve_enum_value(field, t, o.get(&field.name));
                in_list(answer)
            },
            _ => Ok(Value::Null),
        },
        // Let the resolver decide how values in the resolved object value
        // map to values of GraphQL scalars
        TypeDefinition::Scalar(t) => match object_value {
            Some(Value::Object(o)) => {
                let answer = ctx.resolve_scalar_value(
                    object_type,
                    o,
                    field,
                    t,
                    o.get(&field.name),
                );
                in_list(answer)
            },
            _ => Ok(Value::Null),
        },
        TypeDefinition::Interface(t) => {
            let answer = ctx.resolve_object(
                object_value,
                field,
                field_definition,
                ObjectOrInterface::Interface(t),
                argument_values,
            );
            in_list(answer)
        },
        TypeDefinition::Union(_) => Err(
            one_error(QueryExecutionError::Unimplemented("unions".to_owned())),
        ),
        // Input objects are never resolved
        TypeDefinition::InputObject(_) => unreached(),
    }
}

/// Resolves the value of a field that corresponds to a list type.
pub fn resolve_field_value_for_list_type<'a, R1, R2, C>(
    ctx: ExecutionContext<'a, R1, R2, C>,
    object_type: &ObjectType,
    object_value: &Option<Value>,
    field: &Field,
    field_definition: &FieldDefinition,
    inner_type: &Type,
    argument_values: &NameMap<Value>,
) -> (result: Result<Value, Vec<QueryExecutionError>>) where
    R1: Resolver,
    R2: Resolver,
    C: Coercion,

    requires
        item_name(*inner_type) matches Some(name) ==> !is_input_object(
            ctx@.current_schema(),
            name@,
        ),
    ensures
        resolves_list(
            ctx@,
            *object_value,
            *field,
            *field_definition,
            *inner_type,
            *argument_values,
            outcome(result),
        ),
    decreases inner_type,
{
    match inner_type {
        Type::NonNullType(inner_type) => resolve_field_value_for_list_type(
            ctx,
            object_type,
            object_value,
            field,
            field_definition,
            inner_type,
            argument_values,
        ),
        Type::NamedType(name_of_type) => {
            let named = match get_named_type(ctx.get_schema(), name_of_type) {
                Some(named) => named,
                None => {
                    return Err(
                        one_error(QueryExecutionError::NamedTypeError(name_of_type.clone())),
                    );
                },
            };

            match named {
                // Let the resolver decide how the list field (with the given item object type)
                // is resolved into a entities based on the (potential) parent object
                TypeDefinition::Object(t) => {
                    let answer = ctx.resolve_objects(
                        object_value,
                        &field.name,
                        field_definition,
                        ObjectOrInterface::Object(t),
                        argument_values,
                    );
                    in_list(answer)
                },
                // Let the resolver decide how values in the resolved object value
                // map to values of GraphQL enums
                TypeDefinition::Enum(t) => match object_value {
                    Some(Value::Object(o)) => ctx.resolve_enum_values(
                        field,
                        t,
                        o.get(&field.name),
                    ),
                    _ => Ok(Value::Null),
                },
                // Let the resolver decide how values in the resolved object value
                // map to values of GraphQL scalars
                TypeDefinition::Scalar(t) => match object_value {
                    Some(Value::Object(o)) => ctx.resolve_scalar_values(
                        field,
                        t,
                        o.get(&field.name),
                    ),
                    _ => Ok(Value::Null),
                },
                TypeDefinition::Interface(t) => {
                    let answer = ctx.resolve_objects(
                        object_value,
                        &field.name,
                        field_definition,
                        ObjectOrInterface::Interface(t),
                        argument_values,
                    );
                    in_list(answer)
                },
                TypeDefinition::Union(_) => Err(
                    one_error(QueryExecutionError::Unimplemented("unions".to_owned())),
                ),
                // Input objects are never resolved
                TypeDefinition::InputObject(_) => unreached(),
            }
        },
        // We don't support nested lists yet
        Type::ListType(_) => Err(
            one_error(QueryExecutionError::Unimplemented("nested list types".to_owned())),
        ),
    }
}

} // verus!
