//! What can be answered, by the parts that it is made of.
use vstd::prelude::*;

use std::sync::Arc;

use crate::answerable::StuckField;
use crate::answerable::StuckGroup;
use crate::answerable::StuckResolution;
use crate::answerable::StuckRoot;
use crate::answerable::StuckSet;
use crate::answerable::StuckValue;
use crate::answerable::field_answerable;
use crate::answerable::root_answerable;
use crate::answerable::set_answerable;
use crate::answerable::stuck_field;
use crate::answerable::stuck_root;
use crate::answerable::stuck_set;
use crate::answerable::stuck_value;
use crate::answerable::value_answerable;
use crate::context::ContextView;
use crate::merge::merged_items;
use crate::name_map::NameMap;
use crate::query::Field;
use crate::query::Selection;
use crate::resolve::resolves;
use crate::resolver::Coercion;
use crate::resolver::Resolver;
use crate::run::groups_of;
use crate::run::root_items;
use crate::run::selected_field;
use crate::schema::FieldDefinition;
use crate::schema::ObjectType;
use crate::schema::SchemaDocument;
use crate::schema::Type;
use crate::schema::TypeDefinition;
use crate::schema::named_type;
use crate::schema::output_type;
use crate::schema::root_query_type;
use crate::schema::yields_output;
use crate::value::Value;

verus! {

/// Null, scalars and enums can be completed whatever the schema is like, and so can a value of a
/// list type that is no list.
pub proof fn plain_values_can_be_completed<R1: Resolver, R2: Resolver, C: Coercion>(
    c: ContextView<R1, R2, C>,
    field: Field,
    ty: Type,
    fields: Seq<Arc<Field>>,
    value: Value,
)
    requires
        match ty {
            Type::NonNullType(_) => false,
            Type::ListType(_) => !(value is List),
            Type::NamedType(name) => value is Null || (named_type(c.current_schema(), name@) is Some
                && (named_type(c.current_schema(), name@)->0 is Scalar || named_type(
                c.current_schema(),
                name@,
            )->0 is Enum)),
        },
    ensures
        value_answerable(c, field, ty, fields, value),
{
}

/// What can be completed as a value of a type can be as one of the type that excludes null.
pub proof fn non_null_values_can_be_completed<R1: Resolver, R2: Resolver, C: Coercion>(
    c: ContextView<R1, R2, C>,
    field: Field,
    inner: Type,
    fields: Seq<Arc<Field>>,
    value: Value,
)
    requires
        value_answerable(c, field, inner, fields, value),
    ensures
        value_answerable(c, field, Type::NonNullType(Box::new(inner)), fields, value),
{
    assert forall|stuck: StuckValue|
        !#[trigger] stuck_value(
            c,
            field,
            Type::NonNullType(Box::new(inner)),
            fields,
            value,
            stuck,
        ) by {
        if let StuckValue::NonNull(inner_stuck) = stuck {
            assert(!stuck_value(c, field, inner, fields, value, *inner_stuck));
        }
    }
}

/// A list can be completed if each of its items can.
pub proof fn lists_can_be_completed_by_their_items<R1: Resolver, R2: Resolver, C: Coercion>(
    c: ContextView<R1, R2, C>,
    field: Field,
    inner: Type,
    fields: Seq<Arc<Field>>,
    values: Vec<Value>,
)
    requires
        forall|i: int|
            0 <= i < values@.len() ==> value_answerable(
                c,
                field,
                inner,
                fields,
                #[trigger] values@[i],
            ),
    ensures
        value_answerable(
            c,
            field,
            Type::ListType(Box::new(inner)),
            fields,
            Value::List(values),
        ),
{
    let ty = Type::ListType(Box::new(inner));
    assert forall|stuck: StuckValue|
        !#[trigger] stuck_value(c, field, ty, fields, Value::List(values), stuck) by {
        if let StuckValue::Item(before, item_stuck) = stuck {
            let i = before.len() as int;
            if i < values@.len() {
                assert(value_answerable(c, field, inner, fields, values@[i]));
                assert(!stuck_value(c, field, inner, fields, values@[i], *item_stuck));
            }
        }
    }
}

/// An object can be completed if the selections of the fields on it can be answered, and a value of
/// an interface or a union if they can be for each object type that may be found for it.
pub proof fn objects_can_be_completed_by_their_selections<
    R1: Resolver,
    R2: Resolver,
    C: Coercion,
>(
    c: ContextView<R1, R2, C>,
    field: Field,
    name: String,
    fields: Seq<Arc<Field>>,
    value: Value,
)
    requires
        fields.len() > 0,
        match named_type(c.current_schema(), name@) {
            Some(TypeDefinition::Object(t)) => set_answerable(
                c,
                merged_items(fields),
                t,
                Some(value),
            ),
            Some(t) => (t is Interface || t is Union) && forall|found: ObjectType| #[trigger]
                c.abstract_answer(t, value, Some(&found)) ==> set_answerable(
                    c,
                    merged_items(fields),
                    found,
                    Some(value),
                ),
            None => false,
        },
    ensures
        value_answerable(c, field, Type::NamedType(name), fields, value),
{
    assert forall|stuck: StuckValue|
        !#[trigger] stuck_value(c, field, Type::NamedType(name), fields, value, stuck) by {
        match (named_type(c.current_schema(), name@), stuck) {
            (Some(TypeDefinition::Object(t)), StuckValue::Object(set_stuck)) => {
                assert(!stuck_set(c, merged_items(fields), t, Some(value), *set_stuck));
            },
            (Some(t), StuckValue::Abstract(found, set_stuck)) => {
                if c.abstract_answer(t, value, Some(&found)) && (t is Interface || t is Union) {
                    assert(!stuck_set(c, merged_items(fields), found, Some(value), *set_stuck));
                }
            },
            _ => {},
        }
    }
}

/// A field can be answered if its type is not one that is given as input only, and each value that
/// it may be resolved into can be completed.
pub proof fn fields_can_be_answered_by_their_values<R1: Resolver, R2: Resolver, C: Coercion>(
    c: ContextView<R1, R2, C>,
    object_type: ObjectType,
    object_value: Option<Value>,
    field: Field,
    definition: FieldDefinition,
    fields: Seq<Arc<Field>>,
)
    requires
        output_type(c.current_schema(), definition.field_type),
        forall|arguments: NameMap<Value>, value: Value| #[trigger]
            resolves(
                c,
                object_type,
                object_value,
                field,
                definition,
                definition.field_type,
                arguments,
                Ok(value),
            ) ==> value_answerable(c, field, definition.field_type, fields, value),
    ensures
        field_answerable(c, object_type, object_value, field, definition, fields),
{
    assert forall|stuck: StuckField|
        !#[trigger] stuck_field(
            c,
            object_type,
            object_value,
            field,
            definition,
            fields,
            stuck,
        ) by {
        if let StuckResolution::Value(value, value_stuck) = stuck.at {
            if resolves(
                c,
                object_type,
                object_value,
                field,
                definition,
                definition.field_type,
                stuck.arguments,
                Ok(value),
            ) {
                assert(!stuck_value(
                    c,
                    field,
                    definition.field_type,
                    fields,
                    value,
                    value_stuck,
                ));
            }
        }
    }
}

/// The first of `fields`.
pub open spec fn leading(fields: Seq<Arc<Field>>) -> Field {
    *fields[0]
}

/// Selections can be answered if introspection has a type at which it starts, and of each of their
/// groups the first field exists nowhere or can be answered.
pub proof fn selections_can_be_answered_by_their_fields<R1: Resolver, R2: Resolver, C: Coercion>(
    c: ContextView<R1, R2, C>,
    items: Seq<Selection>,
    object_type: ObjectType,
    object_value: Option<Value>,
)
    requires
        root_query_type(c.introspection_schema) is Some,
        forall|i: int|
            0 <= i < groups_of(c, object_type, items).len() ==> {
                let fields = (#[trigger] groups_of(c, object_type, items)[i]).1;
                selected_field(c, object_type, fields[0].name@) matches Some((d, introspecting))
                    ==> field_answerable(
                    c.entering(fields[0], introspecting),
                    object_type,
                    object_value,
                    leading(fields),
                    d,
                    fields,
                )
            },
    ensures
        set_answerable(c, items, object_type, object_value),
{
    assert forall|stuck: StuckSet|
        !#[trigger] stuck_set(c, items, object_type, object_value, stuck) by {
        let groups = groups_of(c, object_type, items);
        let i = stuck.before.len() as int;
        if i < groups.len() {
            let fields = groups[i].1;
            if let StuckGroup::Field(field_stuck) = stuck.at {
                if let Some((d, introspecting)) = selected_field(
                    c,
                    object_type,
                    fields[0].name@,
                ) {
                    assert(!stuck_field(
                        c.entering(fields[0], introspecting),
                        object_type,
                        object_value,
                        leading(fields),
                        d,
                        fields,
                        field_stuck,
                    ));
                }
            }
        }
    }
}

/// A query can be answered if introspection has a type at which it starts, and both its data part
/// and its introspection part can be answered.
pub proof fn queries_can_be_answered_by_their_parts<R1: Resolver, R2: Resolver, C: Coercion>(
    c: ContextView<R1, R2, C>,
    query_type: ObjectType,
    items: Seq<Selection>,
    initial_value: Option<Value>,
)
    requires
        root_query_type(c.introspection_schema) is Some,
        set_answerable(
            c,
            root_items(c, query_type, groups_of(c, query_type, items), false),
            query_type,
            initial_value,
        ),
        set_answerable(
            c,
            root_items(c, query_type, groups_of(c, query_type, items), true),
            query_type,
            initial_value,
        ),
    ensures
        root_answerable(c, query_type, items, initial_value),
{
    assert forall|stuck: StuckRoot|
        !#[trigger] stuck_root(c, query_type, items, initial_value, stuck) by {
        let groups = groups_of(c, query_type, items);
        match stuck {
            StuckRoot::NoIntrospection => {},
            StuckRoot::Data(set_stuck) => {
                assert(!stuck_set(
                    c,
                    root_items(c, query_type, groups, false),
                    query_type,
                    initial_value,
                    set_stuck,
                ));
            },
            StuckRoot::Introspection(_, set_stuck) => {
                assert(!stuck_set(
                    c,
                    root_items(c, query_type, groups, true),
                    query_type,
                    initial_value,
                    set_stuck,
                ));
            },
        }
    }
}

/// A context is well formed if introspection has a type at which it starts, and no field of an
/// object type of either schema, nor of one that the resolver may find, has a type that is given as
/// input only; and no more is asked of it.
pub proof fn well_formed_is_to_have_output_types<R1: Resolver, R2: Resolver, C: Coercion>(
    c: ContextView<R1, R2, C>,
)
    requires
        root_query_type(c.introspection_schema) is Some,
        has_output_fields(c.schema.document),
        has_output_fields(c.introspection_schema),
        forall|schema: SchemaDocument, ty: TypeDefinition, value: Value, found: ObjectType, i: int|
            #![trigger call_ensures(
                R1::resolve_abstract_type,
                (&c.resolver, &schema, &ty, &value),
                Some(&found),
            ), found.fields@[i]]
            call_ensures(
                R1::resolve_abstract_type,
                (&c.resolver, &schema, &ty, &value),
                Some(&found),
            ) && 0 <= i < found.fields@.len() ==> output_type(schema, found.fields@[i].field_type),
    ensures
        c.well_formed(),
{
    assert forall|i: int|
        0 <= i < c.schema.document.types@.len()
            && c.schema.document.types@[i] is Object implies yields_output(
        c.schema.document,
        #[trigger] c.schema.document.types@[i]->Object_0,
    ) by {}
    assert forall|i: int|
        0 <= i < c.introspection_schema.types@.len()
            && c.introspection_schema.types@[i] is Object implies yields_output(
        c.introspection_schema,
        #[trigger] c.introspection_schema.types@[i]->Object_0,
    ) by {}
}

/// Whether no field of an object type of `schema` has a type that is given as input only.
pub open spec fn has_output_fields(schema: SchemaDocument) -> bool {
    forall|i: int, j: int|
        0 <= i < schema.types@.len() && schema.types@[i] is Object && 0 <= j
            < schema.types@[i]->Object_0.fields@.len() ==> output_type(
            schema,
            (#[trigger] schema.types@[i]->Object_0.fields@[j]).field_type,
        )
}

} // verus!
