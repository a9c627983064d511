//! What calls come to, in terms of what goes into them.
use vstd::prelude::*;

use std::sync::Arc;

use crate::coerce::Coerced;
use crate::coerce::arguments_coerced;
use crate::coerce::arguments_combined;
use crate::coerce::coerce_argument_values;
use crate::coerce::coerce_variable_value;
use crate::coerce::coerce_variable_values;
use crate::coerce::ends_early;
use crate::coerce::variable_coerced;
use crate::coerce::variable_result;
use crate::coerce::variables_coerced;
use crate::coerce::variables_combined;
use crate::collect::collect_fields;
use crate::collect::collected;
use crate::collect::does_fragment_type_apply;
use crate::context::ContextView;
use crate::context::ExecutionContext;
use crate::error::Outcome;
use crate::error::QueryExecutionError;
use crate::error::outcome;
use crate::execute::combine_results;
use crate::execute::complete_value;
use crate::execute::execute_field;
use crate::execute::execute_root_selection_set;
use crate::execute::execute_selection_set;
use crate::execute::execute_selection_set_to_map;
use crate::execute::get_field_type;
use crate::execute::keyed;
use crate::execute::resolve_abstract_type;
use crate::field_groups::FieldGroups;
use crate::field_groups::field_groups;
use crate::field_groups::grouped;
use crate::laws::answers::alone;
use crate::laws::answers::interface_object_is_asked_with_the_arguments;
use crate::laws::answers::interface_objects_are_asked_with_the_arguments;
use crate::laws::answers::object_is_asked_with_the_arguments;
use crate::laws::answers::objects_are_asked_with_the_arguments;
use crate::laws::coercion::accepted_variables_have_their_values;
use crate::laws::coercion::argument_is_coerced_with_the_given_value;
use crate::laws::coercion::arguments_are_valid_together;
use crate::laws::coercion::given_variable_is_coerced_to_its_type;
use crate::laws::coercion::input_types_are_scalars_enums_and_input_objects;
use crate::laws::coercion::is_given;
use crate::laws::coercion::lemma_reported;
use crate::laws::coercion::may_be_input;
use crate::laws::coercion::missing_required_variable_is_refused;
use crate::laws::coercion::refused_arguments_are_reported_in_order;
use crate::laws::coercion::refused_for;
use crate::laws::coercion::value_that_does_not_fit_is_the_only_error;
use crate::laws::collection::fragment_on_a_union_applies_by_any_entry;
use crate::laws::collection::fragment_on_an_interface_applies_by_any_entry;
use crate::laws::completion::field_is_resolved_with_its_arguments;
use crate::laws::completion::holds_the_values_of;
use crate::laws::completion::lemma_holds_the_values;
use crate::laws::completion::list_is_completed_item_by_item;
use crate::laws::completion::may_come_to_a_value;
use crate::laws::completion::may_complete;
use crate::laws::completion::non_null_type_refuses_null_alone;
use crate::laws::completion::null_stays_null_and_lists_are_lists;
use crate::laws::completion::refused_arguments_end_the_field;
use crate::laws::execution::no_error_is_lost;
use crate::laws::lookup::defines;
use crate::laws::results::keys_with_a_value_are_kept;
use crate::laws::results::object_needs_a_value_and_no_error;
use crate::merge::merge_selection_sets;
use crate::merge::merged_items;
use crate::merge::merged_span_covers;
use crate::merge::merged_span_is_tight;
use crate::merge::merging_is_associative;
use crate::merge::merging_one_is_identity;
use crate::name_map::NameMap;
use crate::name_set::NameSet;
use crate::named::Same;
use crate::query::Field;
use crate::query::OperationDefinition;
use crate::query::SelectionSet;
use crate::query::TypeCondition;
use crate::query::VariableDefinition;
use crate::query::variable_definitions;
use crate::resolve::resolve_field_value;
use crate::resolve::resolve_field_value_for_list_type;
use crate::resolve::resolve_field_value_for_named_type;
use crate::resolve::resolves;
use crate::resolver::Coercion;
use crate::resolver::Resolver;
use crate::run::Completion;
use crate::run::FieldRun;
use crate::run::SetRun;
use crate::run::as_object;
use crate::run::completes;
use crate::run::errors_of;
use crate::run::executes_field;
use crate::run::executes_set;
use crate::run::groups_of;
use crate::run::runs_root;
use crate::run::set_outcome;
use crate::run::set_yields;
use crate::run::values_of;
use crate::schema::EnumType;
use crate::schema::FieldDefinition;
use crate::schema::InputValue;
use crate::schema::InterfaceType;
use crate::schema::ObjectOrInterface;
use crate::schema::ObjectType;
use crate::schema::ScalarType;
use crate::schema::Schema;
use crate::schema::SchemaDocument;
use crate::schema::Type;
use crate::schema::TypeDefinition;
use crate::schema::UnionType;
use crate::schema::field_definition;
use crate::schema::named_type;
use crate::schema::root_query_type;
use crate::value::Value;

verus! {

/// A fragment on an interface is found to apply to an object type if and only if some entry of the
/// interfaces that the object type implements, at whatever place, is the name of the interface.
pub proof fn fragment_on_an_interface_is_found_to_apply<'a, R1, R2, C>(
    ctx: ExecutionContext<'a, R1, R2, C>,
    object_type: ObjectType,
    name: String,
    interface: InterfaceType,
    applies: bool,
) where R1: Resolver, R2: Resolver, C: Coercion
    requires
        call_ensures(
            does_fragment_type_apply::<R1, R2, C>,
            (ctx, &object_type, &TypeCondition::On(name)),
            applies,
        ),
        named_type(ctx@.current_schema(), name@) == Some(TypeDefinition::Interface(interface)),
    ensures
        applies <==> exists|i: int|
            0 <= i < object_type.implements_interfaces@.len()
                && #[trigger] object_type.implements_interfaces@[i]@ == interface.name@,
{
    fragment_on_an_interface_applies_by_any_entry(
        ctx@.current_schema(),
        object_type,
        name,
        interface,
    );
}

/// A fragment on a union is found to apply to an object type if and only if some entry of the
/// union, at whatever place, is the name of the object type.
pub proof fn fragment_on_a_union_is_found_to_apply<'a, R1, R2, C>(
    ctx: ExecutionContext<'a, R1, R2, C>,
    object_type: ObjectType,
    name: String,
    union_type: UnionType,
    applies: bool,
) where R1: Resolver, R2: Resolver, C: Coercion
    requires
        call_ensures(
            does_fragment_type_apply::<R1, R2, C>,
            (ctx, &object_type, &TypeCondition::On(name)),
            applies,
        ),
        named_type(ctx@.current_schema(), name@) == Some(TypeDefinition::Union(union_type)),
    ensures
        applies <==> exists|i: int|
            0 <= i < union_type.types@.len() && #[trigger] union_type.types@[i]@
                == object_type.name@,
{
    fragment_on_a_union_applies_by_any_entry(
        ctx@.current_schema(),
        object_type,
        name,
        union_type,
    );
}

/// A fragment on an object type is found to apply to the object types that equal it, and one on a
/// type of any other kind, or on an undefined type, to none.
pub proof fn fragment_on_an_object_type_is_found_to_apply<'a, R1, R2, C>(
    ctx: ExecutionContext<'a, R1, R2, C>,
    object_type: ObjectType,
    name: String,
    applies: bool,
) where R1: Resolver, R2: Resolver, C: Coercion
    requires
        call_ensures(
            does_fragment_type_apply::<R1, R2, C>,
            (ctx, &object_type, &TypeCondition::On(name)),
            applies,
        ),
    ensures
        match named_type(ctx@.current_schema(), name@) {
            Some(TypeDefinition::Object(condition)) => applies == object_type.equals(&condition),
            Some(TypeDefinition::Interface(_)) => true,
            Some(TypeDefinition::Union(_)) => true,
            _ => !applies,
        },
{
}

/// The schema in use is the introspection schema while introspecting, and else that of the data.
pub proof fn introspection_uses_its_schema<'a, R1, R2, C>(
    ctx: ExecutionContext<'a, R1, R2, C>,
    schema: &SchemaDocument,
) where R1: Resolver, R2: Resolver, C: Coercion
    requires
        call_ensures(ExecutionContext::<R1, R2, C>::get_schema, (&ctx,), schema),
    ensures
        ctx.introspecting ==> *schema == *ctx.introspection_schema,
        !ctx.introspecting ==> *schema == ctx.schema.document,
{
}

/// While introspecting, every answer for an object is one of the introspection resolver, which is
/// told of no interfaces; else every answer is one of the data resolver, which is told of the
/// object types of each interface. Either is asked with just what goes into the call.
pub proof fn object_is_answered_by_the_resolver_in_use<'a, R1, R2, C>(
    ctx: ExecutionContext<'a, R1, R2, C>,
    parent: Option<Value>,
    field: Field,
    definition: FieldDefinition,
    object_type: ObjectOrInterface<'_>,
    arguments: NameMap<Value>,
    answer: Result<Value, QueryExecutionError>,
) where R1: Resolver, R2: Resolver, C: Coercion
    requires
        call_ensures(
            ExecutionContext::<R1, R2, C>::resolve_object,
            (&ctx, &parent, &field, &definition, object_type, &arguments),
            answer,
        ),
    ensures
        ctx.introspecting ==> exists|none: NameMap<Vec<ObjectType>>|
            none@ == Map::<Seq<char>, Vec<ObjectType>>::empty() && #[trigger] call_ensures(
                R2::resolve_object,
                (
                    &*ctx.introspection_resolver,
                    &parent,
                    &field,
                    &definition,
                    object_type,
                    &arguments,
                    &none,
                ),
                answer,
            ),
        !ctx.introspecting ==> call_ensures(
            R1::resolve_object,
            (
                &*ctx.resolver,
                &parent,
                &field,
                &definition,
                object_type,
                &arguments,
                &ctx.schema.types_for_interface,
            ),
            answer,
        ),
{
}

/// While introspecting, every answer for a list of objects is one of the introspection resolver,
/// which is told of no interfaces; else every answer is one of the data resolver, which is told of
/// the object types of each interface. Either is asked with just what goes into the call.
pub proof fn objects_are_answered_by_the_resolver_in_use<'a, R1, R2, C>(
    ctx: ExecutionContext<'a, R1, R2, C>,
    parent: Option<Value>,
    field: String,
    definition: FieldDefinition,
    object_type: ObjectOrInterface<'_>,
    arguments: NameMap<Value>,
    answer: Result<Value, QueryExecutionError>,
) where R1: Resolver, R2: Resolver, C: Coercion
    requires
        call_ensures(
            ExecutionContext::<R1, R2, C>::resolve_objects,
            (&ctx, &parent, &field, &definition, object_type, &arguments),
            answer,
        ),
    ensures
        ctx.introspecting ==> exists|none: NameMap<Vec<ObjectType>>|
            none@ == Map::<Seq<char>, Vec<ObjectType>>::empty() && #[trigger] call_ensures(
                R2::resolve_objects,
                (
                    &*ctx.introspection_resolver,
                    &parent,
                    &field,
                    &definition,
                    object_type,
                    &arguments,
                    &none,
                ),
                answer,
            ),
        !ctx.introspecting ==> call_ensures(
            R1::resolve_objects,
            (
                &*ctx.resolver,
                &parent,
                &field,
                &definition,
                object_type,
                &arguments,
                &ctx.schema.types_for_interface,
            ),
            answer,
        ),
{
}

/// While introspecting, every answer for an enum value is one of the introspection resolver, and
/// else one of the data resolver, asked with just what goes into the call.
pub proof fn enum_is_answered_by_the_resolver_in_use<'a, R1, R2, C>(
    ctx: ExecutionContext<'a, R1, R2, C>,
    field: Field,
    enum_type: EnumType,
    value: Option<&Value>,
    answer: Result<Value, QueryExecutionError>,
) where R1: Resolver, R2: Resolver, C: Coercion
    requires
        call_ensures(
            ExecutionContext::<R1,
            R2,
            C>::resolve_enum_value,
            (&ctx, &field, &enum_type, value),
            answer,
        ),
    ensures
        ctx.introspecting ==> call_ensures(
            R2::resolve_enum_value,
            (&*ctx.introspection_resolver, &field, &enum_type, value),
            answer,
        ),
        !ctx.introspecting ==> call_ensures(
            R1::resolve_enum_value,
            (&*ctx.resolver, &field, &enum_type, value),
            answer,
        ),
{
}

/// While introspecting, every answer for a list of enum values is one of the introspection
/// resolver, and else one of the data resolver, asked with just what goes into the call.
pub proof fn enums_are_answered_by_the_resolver_in_use<'a, R1, R2, C>(
    ctx: ExecutionContext<'a, R1, R2, C>,
    field: Field,
    enum_type: EnumType,
    value: Option<&Value>,
    answer: Result<Value, Vec<QueryExecutionError>>,
) where R1: Resolver, R2: Resolver, C: Coercion
    requires
        call_ensures(
            ExecutionContext::<R1,
            R2,
            C>::resolve_enum_values,
            (&ctx, &field, &enum_type, value),
            answer,
        ),
    ensures
        ctx.introspecting ==> call_ensures(
            R2::resolve_enum_values,
            (&*ctx.introspection_resolver, &field, &enum_type, value),
            answer,
        ),
        !ctx.introspecting ==> call_ensures(
            R1::resolve_enum_values,
            (&*ctx.resolver, &field, &enum_type, value),
            answer,
        ),
{
}

/// While introspecting, every answer for a scalar value is one of the introspection resolver, and
/// else one of the data resolver, asked with just what goes into the call.
pub proof fn scalar_is_answered_by_the_resolver_in_use<'a, R1, R2, C>(
    ctx: ExecutionContext<'a, R1, R2, C>,
    parent_type: ObjectType,
    parent: NameMap<Value>,
    field: Field,
    scalar_type: ScalarType,
    value: Option<&Value>,
    answer: Result<Value, QueryExecutionError>,
) where R1: Resolver, R2: Resolver, C: Coercion
    requires
        call_ensures(
            ExecutionContext::<R1,
            R2,
            C>::resolve_scalar_value,
            (&ctx, &parent_type, &parent, &field, &scalar_type, value),
            answer,
        ),
    ensures
        ctx.introspecting ==> call_ensures(
            R2::resolve_scalar_value,
            (&*ctx.introspection_resolver, &parent_type, &parent, &field, &scalar_type, value),
            answer,
        ),
        !ctx.introspecting ==> call_ensures(
            R1::resolve_scalar_value,
            (&*ctx.resolver, &parent_type, &parent, &field, &scalar_type, value),
            answer,
        ),
{
}

/// While introspecting, every answer for a list of scalar values is one of the introspection
/// resolver, and else one of the data resolver, asked with just what goes into the call.
pub proof fn scalars_are_answered_by_the_resolver_in_use<'a, R1, R2, C>(
    ctx: ExecutionContext<'a, R1, R2, C>,
    field: Field,
    scalar_type: ScalarType,
    value: Option<&Value>,
    answer: Result<Value, Vec<QueryExecutionError>>,
) where R1: Resolver, R2: Resolver, C: Coercion
    requires
        call_ensures(
            ExecutionContext::<R1,
            R2,
            C>::resolve_scalar_values,
            (&ctx, &field, &scalar_type, value),
            answer,
        ),
    ensures
        ctx.introspecting ==> call_ensures(
            R2::resolve_scalar_values,
            (&*ctx.introspection_resolver, &field, &scalar_type, value),
            answer,
        ),
        !ctx.introspecting ==> call_ensures(
            R1::resolve_scalar_values,
            (&*ctx.resolver, &field, &scalar_type, value),
            answer,
        ),
{
}

/// A list of an object type is what the resolver in use answers when it is asked for objects with
/// the arguments of the field, and with all else that goes into the call.
pub proof fn list_of_objects_is_asked_with_the_arguments<'a, R1, R2, C>(
    ctx: ExecutionContext<'a, R1, R2, C>,
    object_type: ObjectType,
    object_value: Option<Value>,
    field: Field,
    definition: FieldDefinition,
    name: String,
    arguments: NameMap<Value>,
    item: ObjectType,
    result: Result<Value, Vec<QueryExecutionError>>,
) where R1: Resolver, R2: Resolver, C: Coercion
    requires
        call_ensures(
            resolve_field_value_for_list_type::<R1, R2, C>,
            (
                ctx,
                &object_type,
                &object_value,
                &field,
                &definition,
                &Type::NamedType(name),
                &arguments,
            ),
            result,
        ),
        named_type(ctx@.current_schema(), name@) == Some(TypeDefinition::Object(item)),
    ensures
        ctx.introspecting ==> exists|
            asked: NameMap<Value>,
            none: NameMap<Vec<ObjectType>>,
            answer: Result<Value, QueryExecutionError>,
        | #[trigger]
            call_ensures(
                R2::resolve_objects,
                (
                    &*ctx.introspection_resolver,
                    &object_value,
                    &field.name,
                    &definition,
                    ObjectOrInterface::Object(&item),
                    &asked,
                    &none,
                ),
                answer,
            ) && asked@ == arguments@ && none@ == Map::<Seq<char>, Vec<ObjectType>>::empty()
                && alone(answer, outcome(result)),
        !ctx.introspecting ==> exists|
            asked: NameMap<Value>,
            answer: Result<Value, QueryExecutionError>,
        | #[trigger]
            call_ensures(
                R1::resolve_objects,
                (
                    &*ctx.resolver,
                    &object_value,
                    &field.name,
                    &definition,
                    ObjectOrInterface::Object(&item),
                    &asked,
                    &ctx.schema.types_for_interface,
                ),
                answer,
            ) && asked@ == arguments@ && alone(answer, outcome(result)),
{
    reveal_with_fuel(resolves, 2);
    assert(resolves(
        ctx@,
        object_type,
        object_value,
        field,
        definition,
        Type::ListType(Box::new(Type::NamedType(name))),
        arguments,
        outcome(result),
    ));
    objects_are_asked_with_the_arguments(
        ctx@,
        object_type,
        object_value,
        field,
        definition,
        name,
        arguments,
        outcome(result),
    );
}

/// A list of an interface is what the resolver in use answers when it is asked for objects with the
/// arguments of the field, and with all else that goes into the call.
pub proof fn list_of_an_interface_is_asked_with_the_arguments<'a, R1, R2, C>(
    ctx: ExecutionContext<'a, R1, R2, C>,
    object_type: ObjectType,
    object_value: Option<Value>,
    field: Field,
    definition: FieldDefinition,
    name: String,
    arguments: NameMap<Value>,
    item: InterfaceType,
    result: Result<Value, Vec<QueryExecutionError>>,
) where R1: Resolver, R2: Resolver, C: Coercion
    requires
        call_ensures(
            resolve_field_value_for_list_type::<R1, R2, C>,
            (
                ctx,
                &object_type,
                &object_value,
                &field,
                &definition,
                &Type::NamedType(name),
                &arguments,
            ),
            result,
        ),
        named_type(ctx@.current_schema(), name@) == Some(TypeDefinition::Interface(item)),
    ensures
        ctx.introspecting ==> exists|
            asked: NameMap<Value>,
            none: NameMap<Vec<ObjectType>>,
            answer: Result<Value, QueryExecutionError>,
        | #[trigger]
            call_ensures(
                R2::resolve_objects,
                (
                    &*ctx.introspection_resolver,
                    &object_value,
                    &field.name,
                    &definition,
                    ObjectOrInterface::Interface(&item),
                    &asked,
                    &none,
                ),
                answer,
            ) && asked@ == arguments@ && none@ == Map::<Seq<char>, Vec<ObjectType>>::empty()
                && alone(answer, outcome(result)),
        !ctx.introspecting ==> exists|
            asked: NameMap<Value>,
            answer: Result<Value, QueryExecutionError>,
        | #[trigger]
            call_ensures(
                R1::resolve_objects,
                (
                    &*ctx.resolver,
                    &object_value,
                    &field.name,
                    &definition,
                    ObjectOrInterface::Interface(&item),
                    &asked,
                    &ctx.schema.types_for_interface,
                ),
                answer,
            ) && asked@ == arguments@ && alone(answer, outcome(result)),
{
    reveal_with_fuel(resolves, 2);
    assert(resolves(
        ctx@,
        object_type,
        object_value,
        field,
        definition,
        Type::ListType(Box::new(Type::NamedType(name))),
        arguments,
        outcome(result),
    ));
    interface_objects_are_asked_with_the_arguments(
        ctx@,
        object_type,
        object_value,
        field,
        definition,
        name,
        arguments,
        outcome(result),
    );
}

/// A field of an object type is what the resolver in use answers when it is asked for an object
/// with the arguments of the field, and with all else that goes into the call.
pub proof fn object_is_asked_for_with_the_arguments<'a, R1, R2, C>(
    ctx: ExecutionContext<'a, R1, R2, C>,
    object_type: ObjectType,
    object_value: Option<Value>,
    field: Field,
    definition: FieldDefinition,
    name: String,
    arguments: NameMap<Value>,
    item: ObjectType,
    result: Result<Value, Vec<QueryExecutionError>>,
) where R1: Resolver, R2: Resolver, C: Coercion
    requires
        call_ensures(
            resolve_field_value_for_named_type::<R1, R2, C>,
            (ctx, &object_type, &object_value, &field, &definition, &name, &arguments),
            result,
        ),
        named_type(ctx@.current_schema(), name@) == Some(TypeDefinition::Object(item)),
    ensures
        ctx.introspecting ==> exists|
            asked: NameMap<Value>,
            none: NameMap<Vec<ObjectType>>,
            answer: Result<Value, QueryExecutionError>,
        | #[trigger]
            call_ensures(
                R2::resolve_object,
                (
                    &*ctx.introspection_resolver,
                    &object_value,
                    &field,
                    &definition,
                    ObjectOrInterface::Object(&item),
                    &asked,
                    &none,
                ),
                answer,
            ) && asked@ == arguments@ && none@ == Map::<Seq<char>, Vec<ObjectType>>::empty()
                && alone(answer, outcome(result)),
        !ctx.introspecting ==> exists|
            asked: NameMap<Value>,
            answer: Result<Value, QueryExecutionError>,
        | #[trigger]
            call_ensures(
                R1::resolve_object,
                (
                    &*ctx.resolver,
                    &object_value,
                    &field,
                    &definition,
                    ObjectOrInterface::Object(&item),
                    &asked,
                    &ctx.schema.types_for_interface,
                ),
                answer,
            ) && asked@ == arguments@ && alone(answer, outcome(result)),
{
    reveal_with_fuel(resolves, 2);
    assert(resolves(
        ctx@,
        object_type,
        object_value,
        field,
        definition,
        Type::NamedType(name),
        arguments,
        outcome(result),
    ));
    object_is_asked_with_the_arguments(
        ctx@,
        object_type,
        object_value,
        field,
        definition,
        name,
        arguments,
        outcome(result),
    );
}

/// A field of an interface is what the resolver in use answers when it is asked for an object with
/// the arguments of the field, and with all else that goes into the call.
pub proof fn interface_is_asked_for_with_the_arguments<'a, R1, R2, C>(
    ctx: ExecutionContext<'a, R1, R2, C>,
    object_type: ObjectType,
    object_value: Option<Value>,
    field: Field,
    definition: FieldDefinition,
    name: String,
    arguments: NameMap<Value>,
    item: InterfaceType,
    result: Result<Value, Vec<QueryExecutionError>>,
) where R1: Resolver, R2: Resolver, C: Coercion
    requires
        call_ensures(
            resolve_field_value_for_named_type::<R1, R2, C>,
            (ctx, &object_type, &object_value, &field, &definition, &name, &arguments),
            result,
        ),
        named_type(ctx@.current_schema(), name@) == Some(TypeDefinition::Interface(item)),
    ensures
        ctx.introspecting ==> exists|
            asked: NameMap<Value>,
            none: NameMap<Vec<ObjectType>>,
            answer: Result<Value, QueryExecutionError>,
        | #[trigger]
            call_ensures(
                R2::resolve_object,
                (
                    &*ctx.introspection_resolver,
                    &object_value,
                    &field,
                    &definition,
                    ObjectOrInterface::Interface(&item),
                    &asked,
                    &none,
                ),
                answer,
            ) && asked@ == arguments@ && none@ == Map::<Seq<char>, Vec<ObjectType>>::empty()
                && alone(answer, outcome(result)),
        !ctx.introspecting ==> exists|
            asked: NameMap<Value>,
            answer: Result<Value, QueryExecutionError>,
        | #[trigger]
            call_ensures(
                R1::resolve_object,
                (
                    &*ctx.resolver,
                    &object_value,
                    &field,
                    &definition,
                    ObjectOrInterface::Interface(&item),
                    &asked,
                    &ctx.schema.types_for_interface,
                ),
                answer,
            ) && asked@ == arguments@ && alone(answer, outcome(result)),
{
    reveal_with_fuel(resolves, 2);
    assert(resolves(
        ctx@,
        object_type,
        object_value,
        field,
        definition,
        Type::NamedType(name),
        arguments,
        outcome(result),
    ));
    interface_object_is_asked_with_the_arguments(
        ctx@,
        object_type,
        object_value,
        field,
        definition,
        name,
        arguments,
        outcome(result),
    );
}

/// The marks that exclude null do not matter to how a field is resolved: what a call with a marked
/// type returns, the type without its mark may be resolved into.
pub proof fn marked_type_is_resolved_as_the_unmarked<'a, R1, R2, C>(
    ctx: ExecutionContext<'a, R1, R2, C>,
    object_type: ObjectType,
    object_value: Option<Value>,
    field: Field,
    definition: FieldDefinition,
    inner: Type,
    arguments: NameMap<Value>,
    result: Result<Value, Vec<QueryExecutionError>>,
) where R1: Resolver, R2: Resolver, C: Coercion
    requires
        call_ensures(
            resolve_field_value::<R1, R2, C>,
            (
                ctx,
                &object_type,
                &object_value,
                &field,
                &definition,
                &Type::NonNullType(Box::new(inner)),
                &arguments,
            ),
            result,
        ),
    ensures
        resolves(
            ctx@,
            object_type,
            object_value,
            field,
            definition,
            inner,
            arguments,
            outcome(result),
        ),
{
    reveal_with_fuel(resolves, 2);
}

/// A list is returned as a list of the same length, each item of which is what the item at its
/// place may be completed to. If it fails, be the items such that they may be null or not, it has
/// exactly the errors to which one of the items may come, all before it having come to a value.
pub proof fn list_is_returned_item_by_item<'a, R1, R2, C>(
    ctx: ExecutionContext<'a, R1, R2, C>,
    field: Field,
    inner: Type,
    fields: Vec<Arc<Field>>,
    values: Vec<Value>,
    result: Result<Value, Vec<QueryExecutionError>>,
) where R1: Resolver, R2: Resolver, C: Coercion
    requires
        call_ensures(
            complete_value::<R1, R2, C>,
            (ctx, &field, &Type::ListType(Box::new(inner)), fields, Value::List(values)),
            result,
        ),
    ensures
        result is Ok ==> {
            &&& result->Ok_0 is List
            &&& result->Ok_0->List_0@.len() == values@.len()
            &&& forall|i: int|
                0 <= i < values@.len() ==> may_complete(
                    ctx@,
                    field,
                    inner,
                    fields@,
                    #[trigger] values@[i],
                    Ok(result->Ok_0->List_0@[i]),
                )
        },
        result is Err ==> exists|i: int|
            0 <= i < values@.len() && may_complete(
                ctx@,
                field,
                inner,
                fields@,
                #[trigger] values@[i],
                Err(result->Err_0@),
            ) && forall|j: int|
                0 <= j < i ==> may_come_to_a_value(
                    ctx@,
                    field,
                    inner,
                    fields@,
                    #[trigger] values@[j],
                ),
{
    let ty = Type::ListType(Box::new(inner));
    let run = choose|run: Completion|
        completes(ctx@, field, ty, fields@, Value::List(values), run, outcome(result));
    list_is_completed_item_by_item(
        ctx@,
        field,
        inner,
        fields@,
        values,
        run,
        outcome(result),
    );
}

/// A null is returned as null, whatever the type is, unless it excludes null, and then it is the
/// one error of this; a value of a list type that is neither null nor a list is the one error of
/// this.
pub proof fn null_is_returned_or_refused<'a, R1, R2, C>(
    ctx: ExecutionContext<'a, R1, R2, C>,
    field: Field,
    ty: Type,
    fields: Vec<Arc<Field>>,
    value: Value,
    result: Result<Value, Vec<QueryExecutionError>>,
) where R1: Resolver, R2: Resolver, C: Coercion
    requires
        call_ensures(
            complete_value::<R1, R2, C>,
            (ctx, &field, &ty, fields, value),
            result,
        ),
    ensures
        value is Null && !(ty is NonNullType) ==> result is Ok && result->Ok_0 is Null,
        value is Null && ty is NonNullType && !(*ty->NonNullType_0 is NonNullType) ==> result is Err
            && result->Err_0@.len() == 1 && result->Err_0@[0] == QueryExecutionError::NonNullError(
            field.position,
            field.name,
        ),
        ty is NonNullType && result is Ok ==> !(result->Ok_0 is Null),
        ty is ListType && !(value is Null) && !(value is List) ==> result is Err
            && result->Err_0@.len() == 1 && result->Err_0@[0]
            == QueryExecutionError::ListValueError(field.position, field.name),
{
    let run = choose|run: Completion|
        completes(ctx@, field, ty, fields@, value, run, outcome(result));
    null_stays_null_and_lists_are_lists(ctx@, field, ty, fields@, value, run, outcome(result));
    if let Type::NonNullType(inner) = ty {
        non_null_type_refuses_null_alone(
            ctx@,
            field,
            *inner,
            fields@,
            value,
            run,
            outcome(result),
        );
    }
}

/// The object type of a value is one that the data resolver finds for it in the schema in use, and
/// if it finds none, the one error is that of the interface or union, by its name.
pub proof fn object_type_is_found_by_the_data_resolver<'a, R1, R2, C>(
    ctx: ExecutionContext<'a, R1, R2, C>,
    abstract_type: TypeDefinition,
    value: Value,
    result: Result<&'a ObjectType, Vec<QueryExecutionError>>,
) where R1: Resolver, R2: Resolver, C: Coercion
    requires
        call_ensures(
            resolve_abstract_type::<R1, R2, C>,
            (ctx, &abstract_type, &value),
            result,
        ),
    ensures
        ({
            let schema = if ctx.introspecting {
                *ctx.introspection_schema
            } else {
                ctx.schema.document
            };
            &&& result is Ok ==> call_ensures(
                R1::resolve_abstract_type,
                (&*ctx.resolver, &schema, &abstract_type, &value),
                Some(result->Ok_0),
            )
            &&& result is Err ==> call_ensures(
                R1::resolve_abstract_type,
                (&*ctx.resolver, &schema, &abstract_type, &value),
                None,
            ) && result->Err_0@.len() == 1 && result->Err_0@[0] is AbstractTypeError && defines(
                abstract_type,
                result->Err_0@[0]->AbstractTypeError_0@,
            )
        }),
{
}

/// Whether `answer` is one of the coercion to the argument `definition`, asked with the first value
/// that `field` gives under its name, if any, with the schema in use and the values of the
/// variables.
pub open spec fn asked_of_the_coercion<R1: Resolver, R2: Resolver, C: Coercion>(
    c: ContextView<R1, R2, C>,
    field: Field,
    definition: InputValue,
    answer: Coerced,
) -> bool {
    let schema = if c.introspecting {
        c.introspection_schema
    } else {
        c.schema.document
    };
    &&& answer.0 == definition.name
    &&& forall|k: int|
        0 <= k < field.arguments@.len() && (#[trigger] field.arguments@[k]).0@ == definition.name@
            && (forall|l: int|
            0 <= l < k ==> (#[trigger] field.arguments@[l]).0@ != definition.name@)
            ==> call_ensures(
            C::coerce_input_value,
            (
                &c.coercion,
                Some(&field.arguments@[k].1),
                &definition,
                &schema,
                &c.variable_values,
            ),
            answer.1,
        )
    &&& (forall|k: int|
        0 <= k < field.arguments@.len() ==> (#[trigger] field.arguments@[k]).0@ != definition.name@)
        ==> call_ensures(
        C::coerce_input_value,
        (&c.coercion, None, &definition, &schema, &c.variable_values),
        answer.1,
    )
}

/// The arguments of a field come to values only if the coercion answers each that is defined
/// without an error, and then to the values among its answers under their names; else to all its
/// errors, in the order of the definitions. It is asked with the first value that is given under
/// the name, if any.
pub proof fn arguments_come_to_the_answers<'a, R1, R2, C>(
    ctx: ExecutionContext<'a, R1, R2, C>,
    object_type: ObjectType,
    field: Field,
    definition: FieldDefinition,
    result: Result<NameMap<Value>, Vec<QueryExecutionError>>,
) -> (answers: Seq<Coerced>) where R1: Resolver, R2: Resolver, C: Coercion
    requires
        call_ensures(
            coerce_argument_values::<R1, R2, C>,
            (&ctx, &object_type, &field),
            result,
        ),
        field_definition(object_type, field.name@) == Some(definition),
    ensures
        answers.len() == definition.arguments@.len(),
        forall|i: int|
            0 <= i < answers.len() ==> asked_of_the_coercion(
                ctx@,
                field,
                definition.arguments@[i],
                #[trigger] answers[i],
            ),
        result is Ok <==> forall|i: int|
            0 <= i < answers.len() ==> (#[trigger] answers[i]).1 is Ok,
        result is Ok ==> holds_the_values_of(result->Ok_0, answers),
        result is Err ==> result->Err_0@ == answers.filter(
            |answer: Coerced| answer.1 is Err,
        ).map_values(|answer: Coerced| answer.1->Err_0),
{
    let answers = choose|answers: Seq<Coerced>|
        #![trigger arguments_coerced(ctx@, object_type, field, answers)]
        arguments_coerced(ctx@, object_type, field, answers) && arguments_combined(
            answers,
            outcome(result),
        );
    assert forall|i: int| 0 <= i < answers.len() implies asked_of_the_coercion(
        ctx@,
        field,
        definition.arguments@[i],
        #[trigger] answers[i],
    ) by {
        argument_is_coerced_with_the_given_value(
            ctx@,
            object_type,
            field,
            definition,
            answers,
            i,
        );
    }
    arguments_are_valid_together(answers, outcome(result));
    if result is Ok {
        lemma_holds_the_values(answers, result->Ok_0);
    } else {
        refused_arguments_are_reported_in_order(answers, outcome(result));
    }
    answers
}

/// A variable whose type excludes null, be it a list or not, must have a value: where one that an
/// operation declares is given none and has no default, the variables are refused.
pub proof fn required_variable_must_have_a_value<C: Coercion>(
    coercion: C,
    schema: Schema,
    operation: OperationDefinition,
    variables: Option<NameMap<Value>>,
    result: Result<NameMap<Value>, Vec<QueryExecutionError>>,
    i: int,
)
    requires
        call_ensures(
            coerce_variable_values::<C>,
            (&coercion, &schema, &operation, &variables),
            result,
        ),
        0 <= i < variable_definitions(operation).len(),
        variable_definitions(operation)[i].var_type is NonNullType,
        variables is Some ==> !variables->0@.contains_key(
            variable_definitions(operation)[i].name@,
        ),
        variable_definitions(operation)[i].default_value is None,
    ensures
        result is Err,
        result->Err_0@.len() > 0,
{
    let definitions = variable_definitions(operation);
    let answers = choose|answers: Seq<Option<Value>>|
        #![trigger variables_coerced(coercion, schema.document, definitions, variables, answers)]
        variables_coerced(coercion, schema.document, definitions, variables, answers)
            && variables_combined(
            schema.document,
            definitions,
            variables,
            answers,
            outcome(result),
        );
    missing_required_variable_is_refused(
        coercion,
        schema.document,
        definitions,
        variables,
        answers,
        outcome(result),
        i,
    );
}

/// Where variables are accepted, the names that have a value are those of the variables of the
/// operation that are given one or have a default. Each variable whose type excludes null is among
/// them, and each has a type that can be given as input.
pub proof fn accepted_variables_are_those_with_a_value<C: Coercion>(
    coercion: C,
    schema: Schema,
    operation: OperationDefinition,
    variables: Option<NameMap<Value>>,
    result: Result<NameMap<Value>, Vec<QueryExecutionError>>,
)
    requires
        call_ensures(
            coerce_variable_values::<C>,
            (&coercion, &schema, &operation, &variables),
            result,
        ),
        result is Ok,
    ensures
        forall|i: int|
            0 <= i < variable_definitions(operation).len() && (
            #[trigger] variable_definitions(operation)[i]).var_type is NonNullType
                ==> result->Ok_0@.contains_key(variable_definitions(operation)[i].name@),
        forall|i: int|
            0 <= i < variable_definitions(operation).len() ==> may_be_input(
                schema.document,
                (#[trigger] variable_definitions(operation)[i]).var_type,
            ),
        forall|i: int|
            0 <= i < variable_definitions(operation).len() && (is_given(
                #[trigger] variable_definitions(operation)[i],
                variables,
            ) || variable_definitions(operation)[i].default_value is Some)
                ==> result->Ok_0@.contains_key(variable_definitions(operation)[i].name@),
        forall|name: Seq<char>| #[trigger]
            result->Ok_0@.contains_key(name) ==> exists|i: int|
                0 <= i < variable_definitions(operation).len() && (
                #[trigger] variable_definitions(operation)[i]).name@ == name && (is_given(
                    variable_definitions(operation)[i],
                    variables,
                ) || variable_definitions(operation)[i].default_value is Some),
{
    let definitions = variable_definitions(operation);
    let answers = choose|answers: Seq<Option<Value>>|
        #![trigger variables_coerced(coercion, schema.document, definitions, variables, answers)]
        variables_coerced(coercion, schema.document, definitions, variables, answers)
            && variables_combined(
            schema.document,
            definitions,
            variables,
            answers,
            outcome(result),
        );
    accepted_variables_have_their_values(
        coercion,
        schema.document,
        definitions,
        variables,
        answers,
        result->Ok_0,
    );
}

/// The value of an accepted variable is an answer of the coercion to the value that is given for
/// it, or else to its default, asked for the type of the variable while no variable has a value.
/// Where several variables of one name have a value, the last counts.
pub proof fn accepted_variable_has_its_coerced_value<C: Coercion>(
    coercion: C,
    schema: Schema,
    operation: OperationDefinition,
    variables: Option<NameMap<Value>>,
    result: Result<NameMap<Value>, Vec<QueryExecutionError>>,
    i: int,
)
    requires
        call_ensures(
            coerce_variable_values::<C>,
            (&coercion, &schema, &operation, &variables),
            result,
        ),
        result is Ok,
        0 <= i < variable_definitions(operation).len(),
        forall|j: int|
            i < j < variable_definitions(operation).len() && (
            #[trigger] variable_definitions(operation)[j]).name@ == variable_definitions(
                operation,
            )[i].name@ ==> !is_given(variable_definitions(operation)[j], variables)
                && variable_definitions(operation)[j].default_value is None,
        is_given(variable_definitions(operation)[i], variables) || variable_definitions(
            operation,
        )[i].default_value is Some,
    ensures
        exists|value: Value, none: NameMap<Value>|
            {
                let definition = variable_definitions(operation)[i];
                &&& is_given(definition, variables) ==> value == variables->0@[definition.name@]
                &&& !is_given(definition, variables) ==> value == definition.default_value->0
                &&& none@ == Map::<Seq<char>, Value>::empty()
                &&& #[trigger] call_ensures(
                    C::coerce_value,
                    (
                        &coercion,
                        &value,
                        &variable_definitions(operation)[i].var_type,
                        &schema.document,
                        &none,
                    ),
                    Some(result->Ok_0@[variable_definitions(operation)[i].name@]),
                )
            },
{
    let definitions = variable_definitions(operation);
    let answers = choose|answers: Seq<Option<Value>>|
        #![trigger variables_coerced(coercion, schema.document, definitions, variables, answers)]
        variables_coerced(coercion, schema.document, definitions, variables, answers)
            && variables_combined(
            schema.document,
            definitions,
            variables,
            answers,
            outcome(result),
        );
    let (value, none) = given_variable_is_coerced_to_its_type(
        coercion,
        schema.document,
        definitions,
        variables,
        answers,
        result->Ok_0,
        i,
    );
}

/// Whether the coercion may refuse the value that is given for the variable `definition`, or else
/// its default, for the type of the variable while no variable has a value, and `errors` is the one
/// error of this.
pub open spec fn refused_by_the_coercion<C: Coercion>(
    coercion: C,
    schema: SchemaDocument,
    definition: VariableDefinition,
    variables: Option<NameMap<Value>>,
    errors: Seq<QueryExecutionError>,
) -> bool {
    exists|value: Value, none: NameMap<Value>|
        {
            &&& is_given(definition, variables) ==> value == variables->0@[definition.name@]
            &&& !is_given(definition, variables) ==> definition.default_value == Some(value)
            &&& none@ == Map::<Seq<char>, Value>::empty()
            &&& #[trigger] call_ensures(
                C::coerce_value,
                (&coercion, &value, &definition.var_type, &schema, &none),
                None,
            )
            &&& errors.len() == 1
            &&& errors[0] is InvalidArgumentError
            &&& errors[0]->InvalidArgumentError_0 == definition.position
            &&& errors[0]->InvalidArgumentError_1 == definition.name
            &&& errors[0]->InvalidArgumentError_2@ == value@
        }
}

/// Variables are refused only for a reason: one has a type that cannot be given as input, or lacks
/// a value which it needs, or has a value that the coercion refuses for its type.
pub proof fn variables_are_refused_for_a_reason<C: Coercion>(
    coercion: C,
    schema: Schema,
    operation: OperationDefinition,
    variables: Option<NameMap<Value>>,
    result: Result<NameMap<Value>, Vec<QueryExecutionError>>,
)
    requires
        call_ensures(
            coerce_variable_values::<C>,
            (&coercion, &schema, &operation, &variables),
            result,
        ),
        result is Err,
    ensures
        exists|i: int|
            0 <= i < variable_definitions(operation).len() && {
                ||| exists|error: QueryExecutionError|
                    result->Err_0@.contains(error) && #[trigger] refused_for(
                        schema.document,
                        variable_definitions(operation)[i],
                        variables,
                        error,
                    )
                ||| refused_by_the_coercion(
                    coercion,
                    schema.document,
                    #[trigger] variable_definitions(operation)[i],
                    variables,
                    result->Err_0@,
                )
            },
{
    let definitions = variable_definitions(operation);
    let answers = choose|answers: Seq<Option<Value>>|
        #![trigger variables_coerced(coercion, schema.document, definitions, variables, answers)]
        variables_coerced(coercion, schema.document, definitions, variables, answers)
            && variables_combined(
            schema.document,
            definitions,
            variables,
            answers,
            outcome(result),
        );
    if ends_early(schema.document, definitions, variables, answers) {
        let n = answers.len() - 1;
        input_types_are_scalars_enums_and_input_objects(schema.document, definitions[n].var_type);
        value_that_does_not_fit_is_the_only_error(
            coercion,
            schema.document,
            definitions,
            variables,
            answers,
            outcome(result),
            n,
        );
        let value = if is_given(definitions[n], variables) {
            variables->0@[definitions[n].name@]
        } else {
            definitions[n].default_value->0
        };
        assert(variable_coerced(coercion, schema.document, definitions[n], value, answers[n]));
        assert(refused_by_the_coercion(
            coercion,
            schema.document,
            variable_definitions(operation)[n],
            variables,
            result->Err_0@,
        ));
    } else {
        let error = result->Err_0@[0];
        assert(result->Err_0@.contains(error));
        lemma_reported(schema.document, definitions, variables, error);
    }
}

/// The value of a variable comes to an answer of the coercion to it, asked for the type of the
/// variable while no variable has a value; if the answer is none, the one error has the position
/// and the name of the variable and the value.
pub proof fn value_of_a_variable_comes_to_the_answer<C: Coercion>(
    coercion: C,
    schema: Schema,
    definition: VariableDefinition,
    value: Value,
    result: Result<Value, Vec<QueryExecutionError>>,
)
    requires
        call_ensures(
            coerce_variable_value::<C>,
            (&coercion, &schema, &definition, &value),
            result,
        ),
    ensures
        exists|answer: Option<Value>, none: NameMap<Value>|
            {
                &&& #[trigger] call_ensures(
                    C::coerce_value,
                    (&coercion, &value, &definition.var_type, &schema.document, &none),
                    answer,
                )
                &&& none@ == Map::<Seq<char>, Value>::empty()
                &&& answer is Some ==> result is Ok && result->Ok_0 == answer->0
                &&& answer is None ==> {
                    &&& result is Err
                    &&& result->Err_0@.len() == 1
                    &&& result->Err_0@[0] is InvalidArgumentError
                    &&& result->Err_0@[0]->InvalidArgumentError_0 == definition.position
                    &&& result->Err_0@[0]->InvalidArgumentError_1 == definition.name
                    &&& result->Err_0@[0]->InvalidArgumentError_2@ == value@
                }
            },
{
    let answer = choose|answer: Option<Value>|
        #![trigger variable_coerced(coercion, schema.document, definition, value, answer)]
        variable_coerced(coercion, schema.document, definition, value, answer) && variable_result(
            definition,
            value,
            answer,
            outcome(result),
        );
    assert(variable_coerced(coercion, schema.document, definition, value, answer));
}

/// A field is found among those at which introspection starts, as one of the introspection schema,
/// and only then among those of the object type, as one of the schema in use.
pub proof fn field_is_found_in_introspection_first<'a, R1, R2, C>(
    ctx: ExecutionContext<'a, R1, R2, C>,
    object_type: &'a ObjectType,
    name: String,
    found: Option<(&'a FieldDefinition, bool)>,
) where R1: Resolver, R2: Resolver, C: Coercion
    requires
        call_ensures(
            get_field_type::<R1, R2, C>,
            (ctx, object_type, &name),
            found,
        ),
    ensures
        ({
            let root = root_query_type(*ctx.introspection_schema)->0;
            let starting = field_definition(root, name@);
            let own = field_definition(*object_type, name@);
            &&& starting is Some ==> found == Some((&starting->0, true))
            &&& starting is None && own is Some ==> found == Some((&own->0, ctx.introspecting))
            &&& starting is None && own is None ==> found is None
        }),
{
}

/// The merged selection set has the selections of the first fields before those of the others, and
/// reaches from the earliest start of a set to the latest end of one.
pub proof fn selection_sets_are_merged_in_order(
    fields: Vec<Arc<Field>>,
    first: Seq<Arc<Field>>,
    second: Seq<Arc<Field>>,
    merged: SelectionSet,
)
    requires
        call_ensures(merge_selection_sets, (&fields,), merged),
        fields@ == first + second,
        fields@.len() > 0,
    ensures
        merged.items@ == merged_items(first) + merged_items(second),
        fields@.len() == 1 ==> merged.items@ == fields@[0].selection_set.items@ && merged.span
            == fields@[0].selection_set.span,
        forall|i: int|
            0 <= i < fields@.len() ==> {
                &&& merged.span.0.le((#[trigger] fields@[i]).selection_set.span.0)
                &&& fields@[i].selection_set.span.1.le(merged.span.1)
            },
        exists|i: int, j: int|
            0 <= i < fields@.len() && 0 <= j < fields@.len() && merged.span.0 == (
            #[trigger] fields@[i]).selection_set.span.0 && merged.span.1 == (
            #[trigger] fields@[j]).selection_set.span.1,
{
    merging_is_associative(first, second);
    if fields@.len() == 1 {
        assert(fields@ =~= seq![fields@[0]]);
        merging_one_is_identity(fields@[0]);
    }
    assert forall|i: int| 0 <= i < fields@.len() implies {
        &&& merged.span.0.le((#[trigger] fields@[i]).selection_set.span.0)
        &&& fields@[i].selection_set.span.1.le(merged.span.1)
    } by {
        merged_span_covers(fields@, i);
    }
    let (i, j) = merged_span_is_tight(fields@);
    assert(merged.span.0 == fields@[i].selection_set.span.0);
    assert(merged.span.1 == fields@[j].selection_set.span.1);
}

/// The fields that are collected are grouped by their response keys: they are those that the
/// selections select with the fragments of the query, the variables and the schema in use, where
/// the given fragments have been visited, or none.
pub proof fn fields_are_collected_into_groups<'a, R1, R2, C>(
    ctx: ExecutionContext<'a, R1, R2, C>,
    object_type: ObjectType,
    selection_set: SelectionSet,
    visited: Option<NameSet>,
    groups: FieldGroups,
) where R1: Resolver, R2: Resolver, C: Coercion
    requires
        call_ensures(
            collect_fields::<R1, R2, C>,
            (ctx, &object_type, &selection_set, visited),
            groups,
        ),
    ensures
        ({
            let schema = if ctx.introspecting {
                *ctx.introspection_schema
            } else {
                ctx.schema.document
            };
            let seen = if visited is Some {
                visited->0@
            } else {
                Set::empty()
            };
            field_groups(groups) == grouped(
                collected(
                    *ctx.document,
                    schema,
                    ctx.variable_values@,
                    object_type,
                    selection_set.items@,
                    seen,
                ),
            )
        }),
{
}

/// A selection set is returned as an object with the values of a run of its groups, or with the
/// errors of that run; each group is executed by itself, in order, on the given object.
pub proof fn selection_set_is_returned_as_an_object<'a, R1, R2, C>(
    ctx: ExecutionContext<'a, R1, R2, C>,
    selection_set: SelectionSet,
    object_type: ObjectType,
    object_value: Option<Value>,
    result: Result<Value, Vec<QueryExecutionError>>,
) where R1: Resolver, R2: Resolver, C: Coercion
    requires
        call_ensures(
            execute_selection_set::<R1, R2, C>,
            (ctx, &selection_set, &object_type, &object_value),
            result,
        ),
    ensures
        exists|run: SetRun|
            #![trigger executes_set(
                ctx@,
                selection_set.items@,
                object_type,
                object_value,
                run,
            )]
            executes_set(ctx@, selection_set.items@, object_type, object_value, run) && match
                set_outcome(
                groups_of(ctx@, object_type, selection_set.items@),
                object_type,
                run,
            ) {
                Ok(values) => result is Ok && result->Ok_0 is Object && result->Ok_0->Object_0@
                    == values,
                Err(errors) => result is Err && result->Err_0@ == errors,
            },
{
    let values = choose|values: Outcome<Map<Seq<char>, Value>>| #[trigger]
        set_yields(ctx@, selection_set.items@, object_type, object_value, values) && as_object(
            values,
            outcome(result),
        );
    assert(set_yields(ctx@, selection_set.items@, object_type, object_value, values));
}

/// The values of a selection set are those of a run of its groups, or its errors are the errors of
/// that run.
pub proof fn selection_set_is_returned_as_its_values<'a, R1, R2, C>(
    ctx: ExecutionContext<'a, R1, R2, C>,
    selection_set: SelectionSet,
    object_type: ObjectType,
    object_value: Option<Value>,
    result: Result<NameMap<Value>, Vec<QueryExecutionError>>,
) where R1: Resolver, R2: Resolver, C: Coercion
    requires
        call_ensures(
            execute_selection_set_to_map::<R1, R2, C>,
            (ctx, &selection_set, &object_type, &object_value),
            result,
        ),
    ensures
        exists|run: SetRun|
            #![trigger executes_set(
                ctx@,
                selection_set.items@,
                object_type,
                object_value,
                run,
            )]
            executes_set(ctx@, selection_set.items@, object_type, object_value, run) && match
                set_outcome(
                groups_of(ctx@, object_type, selection_set.items@),
                object_type,
                run,
            ) {
                Ok(values) => result is Ok && result->Ok_0@ == values,
                Err(errors) => result is Err && result->Err_0@ == errors,
            },
{
}

/// Whether `result` is what a field comes to that is resolved with a map of the values among
/// `answers`: the errors of the resolution, or what its value may be completed to.
pub open spec fn resolved_and_completed<R1: Resolver, R2: Resolver, C: Coercion>(
    c: ContextView<R1, R2, C>,
    object_type: ObjectType,
    object_value: Option<Value>,
    field: Field,
    definition: FieldDefinition,
    fields: Seq<Arc<Field>>,
    answers: Seq<Coerced>,
    result: Outcome<Value>,
) -> bool {
    exists|arguments: NameMap<Value>, resolved: Outcome<Value>|
        {
            &&& #[trigger] resolves(
                c,
                object_type,
                object_value,
                field,
                definition,
                definition.field_type,
                arguments,
                resolved,
            )
            &&& holds_the_values_of(arguments, answers)
            &&& match resolved {
                Err(errors) => result is Err && result->Err_0 == errors,
                Ok(value) => may_complete(c, field, definition.field_type, fields, value, result),
            }
        }
}

/// A field is executed with its arguments: if the coercion refuses one, the field has the errors of
/// all that are refused; else it is resolved with a map of the values of its arguments, and then
/// has the errors of that, or what the value may be completed to as one of the type of the field.
pub proof fn field_is_returned_as_its_completed_value<'a, R1, R2, C>(
    ctx: ExecutionContext<'a, R1, R2, C>,
    object_type: ObjectType,
    object_value: Option<Value>,
    field: Field,
    definition: FieldDefinition,
    fields: Vec<Arc<Field>>,
    result: Result<Value, Vec<QueryExecutionError>>,
) -> (answers: Seq<Coerced>) where R1: Resolver, R2: Resolver, C: Coercion
    requires
        call_ensures(
            execute_field::<R1, R2, C>,
            (ctx, &object_type, &object_value, &field, &definition, fields),
            result,
        ),
    ensures
        arguments_coerced(ctx@, object_type, field, answers),
        (exists|i: int| 0 <= i < answers.len() && (#[trigger] answers[i]).1 is Err)
            ==> result is Err && result->Err_0@ == answers.filter(
            |answer: Coerced| answer.1 is Err,
        ).map_values(|answer: Coerced| answer.1->Err_0),
        (forall|i: int| 0 <= i < answers.len() ==> (#[trigger] answers[i]).1 is Ok)
            ==> resolved_and_completed(
            ctx@,
            object_type,
            object_value,
            field,
            definition,
            fields@,
            answers,
            outcome(result),
        ),
{
    let run = choose|run: FieldRun|
        executes_field(
            ctx@,
            object_type,
            object_value,
            field,
            definition,
            fields@,
            run,
            outcome(result),
        );
    let answers = run.answers;
    if exists|i: int| 0 <= i < answers.len() && (#[trigger] answers[i]).1 is Err {
        let i = choose|i: int| 0 <= i < answers.len() && (#[trigger] answers[i]).1 is Err;
        refused_arguments_end_the_field(
            ctx@,
            object_type,
            object_value,
            field,
            definition,
            fields@,
            run,
            outcome(result),
            i,
        );
    } else {
        assert forall|i: int| 0 <= i < answers.len() implies (#[trigger] answers[i]).1 is Ok by {}
        let (arguments, resolved) = field_is_resolved_with_its_arguments(
            ctx@,
            object_type,
            object_value,
            field,
            definition,
            fields@,
            run,
            outcome(result),
        );
    }
    answers
}

/// A query against a schema without an object type at which queries start is the one error of this;
/// any other comes to what runs of its data part and its introspection part come to, from that type
/// on.
pub proof fn query_starts_at_the_query_type<'a, R1, R2, C>(
    ctx: ExecutionContext<'a, R1, R2, C>,
    selection_set: SelectionSet,
    initial_value: Option<Value>,
    result: Result<Value, Vec<QueryExecutionError>>,
) where R1: Resolver, R2: Resolver, C: Coercion
    requires
        call_ensures(
            execute_root_selection_set::<R1, R2, C>,
            (ctx, &selection_set, &initial_value),
            result,
        ),
    ensures
        root_query_type(ctx.schema.document) is None ==> result is Err && result->Err_0@.len() == 1
            && result->Err_0@[0] == QueryExecutionError::NoRootQueryObjectType,
        root_query_type(ctx.schema.document) is Some ==> exists|
            data: SetRun,
            introspection: SetRun,
        | #[trigger]
            runs_root(
                ctx@,
                root_query_type(ctx.schema.document)->0,
                selection_set.items@,
                initial_value,
                data,
                introspection,
                outcome(result),
            ),
{
    if root_query_type(ctx.schema.document) is None {
        let error = QueryExecutionError::NoRootQueryObjectType;
        assert(outcome(result) == Err::<Value, _>(seq![error]));
    }
}

/// The results of fields come to a map if and only if none has an error and some have a value: the
/// map has the keys of those that have a value. If one has an error, all the errors are returned;
/// and if there is neither error nor value, the one error is that nothing was selected of the
/// object type.
pub proof fn results_come_to_their_values(
    object_type: ObjectType,
    results: Vec<(String, Result<Value, Vec<QueryExecutionError>>)>,
    result: Result<NameMap<Value>, Vec<QueryExecutionError>>,
    error: QueryExecutionError,
    key: Seq<char>,
)
    requires
        call_ensures(combine_results, (&object_type, results), result),
    ensures
        result is Ok ==> forall|i: int|
            0 <= i < results@.len() && (#[trigger] results@[i]).1 is Err
                ==> results@[i].1->Err_0@.len() == 0,
        result is Ok ==> (result->Ok_0@.contains_key(key) <==> exists|i: int|
            0 <= i < results@.len() && (#[trigger] results@[i]).0@ == key && results@[i].1 is Ok),
        result is Err ==> result->Err_0@.len() > 0,
        result is Err ==> (result->Err_0@.contains(error) <==> {
            ||| exists|i: int|
                0 <= i < results@.len() && (#[trigger] results@[i]).1 is Err
                    && results@[i].1->Err_0@.contains(error)
            ||| error == QueryExecutionError::EmptySelectionSet(object_type.name) && forall|i: int|
                0 <= i < results@.len() ==> (#[trigger] results@[i]).1 is Err
                    && results@[i].1->Err_0@.len() == 0
        }),
{
    let all = keyed(results@);
    assert forall|i: int| 0 <= i < results@.len() implies #[trigger] all[i] == (
        results@[i].0@,
        outcome(results@[i].1),
    ) by {}
    object_needs_a_value_and_no_error(object_type, all);
    keys_with_a_value_are_kept(all, key);
    no_error_is_lost(all, error);
    if result is Ok {
        assert forall|i: int| 0 <= i < results@.len() && (#[trigger] results@[i]).1 is Err implies
            results@[i].1->Err_0@.len() == 0 by {
            assert(all[i].1 is Err);
        }
        if result->Ok_0@.contains_key(key) {
            let i = choose|i: int|
                0 <= i < all.len() && (#[trigger] all[i]).0 == key && all[i].1 is Ok;
            assert(results@[i].0@ == key);
        }
        if exists|i: int|
            0 <= i < results@.len() && (#[trigger] results@[i]).0@ == key && results@[i].1 is Ok {
            let i = choose|i: int|
                0 <= i < results@.len() && (#[trigger] results@[i]).0@ == key
                    && results@[i].1 is Ok;
            assert(all[i].0 == key);
        }
    } else {
        if exists|i: int|
            0 <= i < results@.len() && (#[trigger] results@[i]).1 is Err
                && results@[i].1->Err_0@.contains(error) {
            let i = choose|i: int|
                0 <= i < results@.len() && (#[trigger] results@[i]).1 is Err
                    && results@[i].1->Err_0@.contains(error);
            assert(all[i].1 is Err && all[i].1->Err_0.contains(error));
        }
        if errors_of(all).len() > 0 {
            if result->Err_0@.contains(error) {
                let i = choose|i: int|
                    0 <= i < all.len() && (#[trigger] all[i]).1 is Err
                        && all[i].1->Err_0.contains(error);
                assert(results@[i].1 is Err);
            }
            if forall|i: int|
                0 <= i < results@.len() ==> (#[trigger] results@[i]).1 is Err
                    && results@[i].1->Err_0@.len() == 0 {
                let first = errors_of(all)[0];
                assert(errors_of(all).contains(first));
                no_error_is_lost(all, first);
                let i = choose|i: int|
                    0 <= i < all.len() && (#[trigger] all[i]).1 is Err
                        && all[i].1->Err_0.contains(first);
                assert(results@[i].1->Err_0@.len() == 0);
            }
        } else {
            let empty = QueryExecutionError::EmptySelectionSet(object_type.name);
            assert(result->Err_0@ == seq![empty]);
            assert(seq![empty][0] == empty);
            assert forall|i: int| 0 <= i < results@.len() implies (
            #[trigger] results@[i]).1 is Err && results@[i].1->Err_0@.len() == 0 by {
                if all[i].1 is Ok {
                    keys_with_a_value_are_kept(all, all[i].0);
                    assert(values_of(all).contains_key(all[i].0));
                } else if all[i].1->Err_0.len() > 0 {
                    let first = all[i].1->Err_0[0];
                    assert(all[i].1->Err_0.contains(first));
                    no_error_is_lost(all, first);
                }
            }
        }
    }
}

} // verus!
