//! What becomes of the value that a field was resolved into, and of the field itself.
use vstd::prelude::*;

use std::sync::Arc;

use crate::coerce::Coerced;
use crate::coerce::arguments_combined;
use crate::context::ContextView;
use crate::error::Outcome;
use crate::error::QueryExecutionError;
use crate::laws::coercion::arguments_are_valid_together;
use crate::laws::coercion::arguments_with_a_value_are_kept;
use crate::laws::coercion::last_value_of_an_argument_counts;
use crate::laws::coercion::refused_arguments_are_reported_in_order;
use crate::merge::merged_items;
use crate::name_map::NameMap;
use crate::named::Named;
use crate::named::lemma_first_named;
use crate::query::Field;
use crate::query::Selection;
use crate::resolve::resolves;
use crate::resolver::Coercion;
use crate::resolver::Resolver;
use crate::run::Completion;
use crate::run::FieldRun;
use crate::run::GroupRun;
use crate::run::SetRun;
use crate::run::completes;
use crate::run::executes_field;
use crate::run::executes_group;
use crate::run::executes_set;
use crate::run::groups_of;
use crate::run::selected_field;
use crate::run::set_outcome;
use crate::schema::FieldDefinition;
use crate::schema::ObjectType;
use crate::schema::Type;
use crate::schema::TypeDefinition;
use crate::schema::named_type;
use crate::schema::root_query_type;
use crate::value::Value;

verus! {

/// Whether the completion of `value` as one of type `ty` may come to `result`.
pub open spec fn may_complete<R1: Resolver, R2: Resolver, C: Coercion>(
    c: ContextView<R1, R2, C>,
    field: Field,
    ty: Type,
    fields: Seq<Arc<Field>>,
    value: Value,
    result: Outcome<Value>,
) -> bool {
    exists|run: Completion| #[trigger] completes(c, field, ty, fields, value, run, result)
}

/// Whether the completion of `value` as one of type `ty` may come to a value.
pub open spec fn may_come_to_a_value<R1: Resolver, R2: Resolver, C: Coercion>(
    c: ContextView<R1, R2, C>,
    field: Field,
    ty: Type,
    fields: Seq<Arc<Field>>,
    value: Value,
) -> bool {
    exists|completed: Value| #[trigger]
        may_complete(c, field, ty, fields, value, Ok(completed))
}

/// A list is completed to a list of the same length, item by item: each item of the one is what the
/// item of the other at its place comes to, as a value of the type of the items. Should an item
/// fail, be its type one that excludes null or not, so does the list, with exactly the errors of
/// that item; all items before it have come to a value.
pub proof fn list_is_completed_item_by_item<R1: Resolver, R2: Resolver, C: Coercion>(
    c: ContextView<R1, R2, C>,
    field: Field,
    inner: Type,
    fields: Seq<Arc<Field>>,
    values: Vec<Value>,
    run: Completion,
    result: Outcome<Value>,
)
    requires
        completes(
            c,
            field,
            Type::ListType(Box::new(inner)),
            fields,
            Value::List(values),
            run,
            result,
        ),
    ensures
        match result {
            Ok(completed) => {
                &&& completed is List
                &&& completed->List_0@.len() == values@.len()
                &&& forall|i: int|
                    0 <= i < values@.len() ==> may_complete(
                        c,
                        field,
                        inner,
                        fields,
                        #[trigger] values@[i],
                        Ok(completed->List_0@[i]),
                    )
            },
            Err(errors) => exists|i: int|
                0 <= i < values@.len() && may_complete(
                    c,
                    field,
                    inner,
                    fields,
                    #[trigger] values@[i],
                    Err(errors),
                ) && forall|j: int|
                    0 <= j < i ==> may_come_to_a_value(
                        c,
                        field,
                        inner,
                        fields,
                        #[trigger] values@[j],
                    ),
        },
{
    let items = run->Items_0;
    match result {
        Ok(completed) => {
            let list = completed->List_0@;
            assert forall|i: int| 0 <= i < values@.len() implies may_complete(
                c,
                field,
                inner,
                fields,
                #[trigger] values@[i],
                Ok(list[i]),
            ) by {
                assert(items[i].0 is Ok);
                assert(completes(c, field, inner, fields, values@[i], items[i].1, items[i].0));
            }
        },
        Err(errors) => {
            let i = items.len() - 1;
            assert(completes(c, field, inner, fields, values@[i], items[i].1, items[i].0));
            assert forall|j: int| 0 <= j < i implies may_come_to_a_value(
                c,
                field,
                inner,
                fields,
                #[trigger] values@[j],
            ) by {
                assert(items[j].0 is Ok);
                assert(completes(c, field, inner, fields, values@[j], items[j].1, items[j].0));
                assert(may_complete(c, field, inner, fields, values@[j], Ok(items[j].0->Ok_0)));
            }
            assert(may_complete(c, field, inner, fields, values@[i], Err(errors)));
        },
    }
}

/// In a run, the first item that fails is the last that is completed, and the list comes to exactly
/// its errors, be the type of the items one that excludes null or not. Where none fails, all items
/// are completed, and the list comes to a list of their values.
pub proof fn first_failing_item_decides<R1: Resolver, R2: Resolver, C: Coercion>(
    c: ContextView<R1, R2, C>,
    field: Field,
    inner: Type,
    fields: Seq<Arc<Field>>,
    values: Vec<Value>,
    items: Seq<(Outcome<Value>, Completion)>,
    result: Outcome<Value>,
)
    requires
        completes(
            c,
            field,
            Type::ListType(Box::new(inner)),
            fields,
            Value::List(values),
            Completion::Items(items),
            result,
        ),
    ensures
        forall|i: int|
            0 <= i < items.len() && (#[trigger] items[i]).0 is Err ==> i == items.len() - 1
                && result is Err && result->Err_0 == items[i].0->Err_0,
        (forall|i: int| 0 <= i < items.len() ==> (#[trigger] items[i]).0 is Ok) ==> {
            &&& items.len() == values@.len()
            &&& result is Ok
            &&& result->Ok_0 is List
            &&& result->Ok_0->List_0@.len() == items.len()
            &&& forall|i: int|
                0 <= i < items.len() ==> #[trigger] result->Ok_0->List_0@[i] == items[i].0->Ok_0
        },
{
}

/// One item that can come to nothing but errors is enough for a list to fail, whatever its type is.
pub proof fn failing_item_fails_its_list<R1: Resolver, R2: Resolver, C: Coercion>(
    c: ContextView<R1, R2, C>,
    field: Field,
    inner: Type,
    fields: Seq<Arc<Field>>,
    values: Vec<Value>,
    run: Completion,
    result: Outcome<Value>,
    i: int,
)
    requires
        completes(
            c,
            field,
            Type::ListType(Box::new(inner)),
            fields,
            Value::List(values),
            run,
            result,
        ),
        0 <= i < values@.len(),
        forall|item: Outcome<Value>| #[trigger]
            may_complete(c, field, inner, fields, values@[i], item) ==> item is Err,
    ensures
        result is Err,
        result->Err_0.len() > 0,
{
    list_is_completed_item_by_item(c, field, inner, fields, values, run, result);
    if let Ok(completed) = result {
        assert(may_complete(c, field, inner, fields, values@[i], Ok(completed->List_0@[i])));
    } else {
        crate::laws::execution::lemma_completion_error(
            c,
            field,
            Type::ListType(Box::new(inner)),
            fields,
            Value::List(values),
            run,
            result->Err_0,
        );
    }
}

/// A null stays null, whatever the type is, unless the type excludes null; a value of a list type
/// that is neither null nor a list is an error with the position and the name of the field.
pub proof fn null_stays_null_and_lists_are_lists<R1: Resolver, R2: Resolver, C: Coercion>(
    c: ContextView<R1, R2, C>,
    field: Field,
    ty: Type,
    fields: Seq<Arc<Field>>,
    value: Value,
    run: Completion,
    result: Outcome<Value>,
)
    requires
        completes(c, field, ty, fields, value, run, result),
    ensures
        value is Null && !(ty is NonNullType) ==> result is Ok && result->Ok_0 is Null,
        ty is ListType && !(value is Null) && !(value is List) ==> result is Err
            && result->Err_0.len() == 1 && result->Err_0[0] == QueryExecutionError::ListValueError(
            field.position,
            field.name,
        ),
        !(value is Null) && result is Ok ==> !(result->Ok_0 is Null),
    decreases run,
{
    if let Type::NonNullType(inner) = ty {
        null_stays_null_and_lists_are_lists(
            c,
            field,
            *inner,
            fields,
            value,
            *run->NonNull_1,
            run->NonNull_0,
        );
    }
}

/// A type that excludes null changes nothing but that a null becomes an error, with the position
/// and the name of the field: any other value, and any errors, are those of the type without the
/// mark.
pub proof fn non_null_type_refuses_null_alone<R1: Resolver, R2: Resolver, C: Coercion>(
    c: ContextView<R1, R2, C>,
    field: Field,
    inner: Type,
    fields: Seq<Arc<Field>>,
    value: Value,
    run: Completion,
    result: Outcome<Value>,
)
    requires
        completes(
            c,
            field,
            Type::NonNullType(Box::new(inner)),
            fields,
            value,
            run,
            result,
        ),
    ensures
        result is Ok ==> !(result->Ok_0 is Null) && may_complete(
            c,
            field,
            inner,
            fields,
            value,
            result,
        ),
        result is Err ==> may_complete(c, field, inner, fields, value, result) || (may_complete(
            c,
            field,
            inner,
            fields,
            value,
            Ok(Value::Null),
        ) && result->Err_0.len() == 1 && result->Err_0[0] == QueryExecutionError::NonNullError(
            field.position,
            field.name,
        )),
        value is Null && !(inner is NonNullType) ==> result is Err && result->Err_0.len() == 1
            && result->Err_0[0] == QueryExecutionError::NonNullError(field.position, field.name),
{
    assert(completes(c, field, inner, fields, value, *run->NonNull_1, run->NonNull_0));
    null_stays_null_and_lists_are_lists(
        c,
        field,
        inner,
        fields,
        value,
        *run->NonNull_1,
        run->NonNull_0,
    );
}

/// A value that is not null is left as it is where its type is a scalar or an enum. Where it is an
/// object type, the selections of all the fields that are executed together are executed on it;
/// where it is an interface or a union, they are executed on it as an object of the type that the
/// resolver finds for it, and if it finds none, that is an error with the name of the interface or
/// union.
pub proof fn named_value_is_completed_by_its_type<R1: Resolver, R2: Resolver, C: Coercion>(
    c: ContextView<R1, R2, C>,
    field: Field,
    name: String,
    fields: Seq<Arc<Field>>,
    value: Value,
    run: Completion,
    result: Outcome<Value>,
)
    requires
        completes(c, field, Type::NamedType(name), fields, value, run, result),
        !(value is Null),
    ensures
        match named_type(c.current_schema(), name@) {
            None => false,
            Some(TypeDefinition::InputObject(_)) => false,
            Some(TypeDefinition::Scalar(_)) => result is Ok && result->Ok_0 == value,
            Some(TypeDefinition::Enum(_)) => result is Ok && result->Ok_0 == value,
            Some(TypeDefinition::Object(t)) => object_yields(c, t, fields, value, result),
            Some(TypeDefinition::Interface(t)) => found_yields(
                c,
                TypeDefinition::Interface(t),
                t.name,
                fields,
                value,
                result,
            ),
            Some(TypeDefinition::Union(t)) => found_yields(
                c,
                TypeDefinition::Union(t),
                t.name,
                fields,
                value,
                result,
            ),
        },
{
    match named_type(c.current_schema(), name@) {
        Some(TypeDefinition::Object(t)) => {
            assert(executes_set(c, merged_items(fields), t, Some(value), run->Object_0));
        },
        Some(TypeDefinition::Interface(_)) | Some(TypeDefinition::Union(_)) => {
            if let Some(t) = run->Abstract_0 {
                assert(executes_set(c, merged_items(fields), t, Some(value), run->Abstract_1));
                assert(object_yields(c, t, fields, value, result));
            }
        },
        _ => {},
    }
}

/// Whether `result` is what some run of the selections of `fields`, one field behind the other, on
/// the object `value` comes to: an object with the values of that run, or its errors.
pub open spec fn object_yields<R1: Resolver, R2: Resolver, C: Coercion>(
    c: ContextView<R1, R2, C>,
    object_type: ObjectType,
    fields: Seq<Arc<Field>>,
    value: Value,
    result: Outcome<Value>,
) -> bool {
    exists|run: SetRun|
        #![trigger executes_set(c, merged_items(fields), object_type, Some(value), run)]
        {
            &&& executes_set(c, merged_items(fields), object_type, Some(value), run)
            &&& match set_outcome(
                groups_of(c, object_type, merged_items(fields)),
                object_type,
                run,
            ) {
                Ok(values) => result is Ok && result->Ok_0 is Object && result->Ok_0->Object_0@
                    == values,
                Err(errors) => result is Err && result->Err_0 == errors,
            }
        }
}

/// Whether `result` is what the value `value` of an interface or a union comes to, by the object
/// type that the data resolver finds for it in the schema in use.
pub open spec fn found_yields<R1: Resolver, R2: Resolver, C: Coercion>(
    c: ContextView<R1, R2, C>,
    abstract_type: TypeDefinition,
    name: String,
    fields: Seq<Arc<Field>>,
    value: Value,
    result: Outcome<Value>,
) -> bool {
    let schema = if c.introspecting {
        c.introspection_schema
    } else {
        c.schema.document
    };
    ||| exists|found: ObjectType|
        #![trigger object_yields(c, found, fields, value, result)]
        call_ensures(
            R1::resolve_abstract_type,
            (&c.resolver, &schema, &abstract_type, &value),
            Some(&found),
        ) && object_yields(c, found, fields, value, result)
    ||| call_ensures(
        R1::resolve_abstract_type,
        (&c.resolver, &schema, &abstract_type, &value),
        None,
    ) && result is Err && result->Err_0.len() == 1 && result->Err_0[0]
        == QueryExecutionError::AbstractTypeError(name)
}

/// Whether `arguments` holds the values among `answers` under their names, the last where a name
/// comes up twice, and nothing else.
pub open spec fn holds_the_values_of(arguments: NameMap<Value>, answers: Seq<Coerced>) -> bool {
    &&& forall|name: Seq<char>| #[trigger]
        arguments@.contains_key(name) <==> exists|i: int|
            0 <= i < answers.len() && (#[trigger] answers[i]).0@ == name && answers[i].1 is Ok
                && answers[i].1->Ok_0 is Some
    &&& forall|i: int|
        0 <= i < answers.len() && (#[trigger] answers[i]).1 is Ok && answers[i].1->Ok_0 is Some && (
        forall|j: int| i < j < answers.len() ==> (#[trigger] answers[j]).0@ != answers[i].0@)
            ==> arguments@[answers[i].0@] == answers[i].1->Ok_0->0
}

/// Valid arguments hold the values among their answers.
pub proof fn lemma_holds_the_values(answers: Seq<Coerced>, arguments: NameMap<Value>)
    requires
        arguments_combined(answers, Ok(arguments)),
    ensures
        holds_the_values_of(arguments, answers),
{
    assert forall|name: Seq<char>| #[trigger]
        arguments@.contains_key(name) <==> exists|i: int|
            0 <= i < answers.len() && (#[trigger] answers[i]).0@ == name && answers[i].1 is Ok
                && answers[i].1->Ok_0 is Some by {
        arguments_with_a_value_are_kept(answers, arguments, name);
    }
    assert forall|i: int|
        0 <= i < answers.len() && (#[trigger] answers[i]).1 is Ok && answers[i].1->Ok_0 is Some && (
        forall|j: int| i < j < answers.len() ==> (#[trigger] answers[j]).0@ != answers[i].0@)
            implies arguments@[answers[i].0@] == answers[i].1->Ok_0->0 by {
        last_value_of_an_argument_counts(answers, arguments, i);
    }
}

/// Refused arguments end the execution of a field, with the errors of all that are refused, in
/// their order.
pub proof fn refused_arguments_end_the_field<R1: Resolver, R2: Resolver, C: Coercion>(
    c: ContextView<R1, R2, C>,
    object_type: ObjectType,
    object_value: Option<Value>,
    field: Field,
    definition: FieldDefinition,
    fields: Seq<Arc<Field>>,
    run: FieldRun,
    result: Outcome<Value>,
    i: int,
)
    requires
        executes_field(
            c,
            object_type,
            object_value,
            field,
            definition,
            fields,
            run,
            result,
        ),
        0 <= i < run.answers.len(),
        run.answers[i].1 is Err,
    ensures
        result is Err,
        result->Err_0 == run.answers.filter(|answer: Coerced| answer.1 is Err).map_values(
            |answer: Coerced| answer.1->Err_0,
        ),
{
    arguments_are_valid_together(run.answers, run.arguments);
    refused_arguments_are_reported_in_order(run.answers, run.arguments);
}

/// Where no argument is refused, the field is resolved with a map that holds the values that its
/// arguments came to, under their names, and nothing else. If that fails, so does the field, with
/// the same errors; else the field comes to what the value does, completed as one of the type of
/// the field with the selections of all the fields that are executed together.
pub proof fn field_is_resolved_with_its_arguments<R1: Resolver, R2: Resolver, C: Coercion>(
    c: ContextView<R1, R2, C>,
    object_type: ObjectType,
    object_value: Option<Value>,
    field: Field,
    definition: FieldDefinition,
    fields: Seq<Arc<Field>>,
    run: FieldRun,
    result: Outcome<Value>,
) -> (asked: (NameMap<Value>, Outcome<Value>))
    requires
        executes_field(
            c,
            object_type,
            object_value,
            field,
            definition,
            fields,
            run,
            result,
        ),
        forall|i: int| 0 <= i < run.answers.len() ==> (#[trigger] run.answers[i]).1 is Ok,
    ensures
        holds_the_values_of(asked.0, run.answers),
        resolves(
            c,
            object_type,
            object_value,
            field,
            definition,
            definition.field_type,
            asked.0,
            asked.1,
        ),
        match asked.1 {
            Err(errors) => result is Err && result->Err_0 == errors,
            Ok(value) => may_complete(c, field, definition.field_type, fields, value, result),
        },
{
    arguments_are_valid_together(run.answers, run.arguments);
    let arguments = run.arguments->Ok_0;
    lemma_holds_the_values(run.answers, arguments);
    if let Ok(value) = run.resolved {
        assert(completes(
            c,
            field,
            definition.field_type,
            fields,
            value,
            run.completion,
            result,
        ));
    }
    (arguments, run.resolved)
}

/// A group that comes up after the deadline fails with `Timeout` alone, whatever its fields are.
pub proof fn late_group_times_out<R1: Resolver, R2: Resolver, C: Coercion>(
    c: ContextView<R1, R2, C>,
    object_type: ObjectType,
    object_value: Option<Value>,
    fields: Seq<Arc<Field>>,
    run: GroupRun,
)
    requires
        executes_group(c, object_type, object_value, fields, run),
    ensures
        c.deadline is Some && run.overdue > 0 ==> run.result is Err && run.result->Err_0.len() == 1
            && run.result->Err_0[0] == QueryExecutionError::Timeout,
{
}

/// A group in time whose first field is neither one at which introspection starts nor one of the
/// object type is the one error of this, with the position of that field, the name of the object
/// type and the name of the field, not its alias.
pub proof fn group_of_an_unknown_field_is_an_error<R1: Resolver, R2: Resolver, C: Coercion>(
    c: ContextView<R1, R2, C>,
    object_type: ObjectType,
    object_value: Option<Value>,
    fields: Seq<Arc<Field>>,
    run: GroupRun,
)
    requires
        executes_group(c, object_type, object_value, fields, run),
        c.deadline is None || run.overdue == 0,
        fields.len() > 0,
        forall|i: int|
            0 <= i < root_query_type(c.introspection_schema)->0.fields@.len() ==> (
            #[trigger] root_query_type(c.introspection_schema)->0.fields@[i]).name@
                != fields[0].name@,
        forall|i: int|
            0 <= i < object_type.fields@.len() ==> (#[trigger] object_type.fields@[i]).name@
                != fields[0].name@,
    ensures
        run.result is Err,
        run.result->Err_0.len() == 1,
        run.result->Err_0[0] == QueryExecutionError::UnknownField(
            fields[0].position,
            object_type.name,
            fields[0].name,
        ),
{
    let name = fields[0].name@;
    let root = root_query_type(c.introspection_schema)->0;
    let i = lemma_first_named(root.fields@, name);
    let j = lemma_first_named(object_type.fields@, name);
}

/// Whether `result` is what the execution of `field` comes to, as the field that `definition`
/// defines, with the selections of `fields`: in the context `c`, but that the field is on the stack
/// and that `introspecting` says whether it is one of the introspection schema.
pub open spec fn executed_as<R1: Resolver, R2: Resolver, C: Coercion>(
    c: ContextView<R1, R2, C>,
    introspecting: bool,
    object_type: ObjectType,
    object_value: Option<Value>,
    field: Arc<Field>,
    definition: FieldDefinition,
    fields: Seq<Arc<Field>>,
    result: Outcome<Value>,
) -> bool {
    exists|inner: ContextView<R1, R2, C>, run: FieldRun|
        {
            &&& inner.schema == c.schema
            &&& inner.introspection_schema == c.introspection_schema
            &&& inner.document == c.document
            &&& inner.resolver == c.resolver
            &&& inner.introspection_resolver == c.introspection_resolver
            &&& inner.coercion == c.coercion
            &&& inner.fields == c.fields.push(field)
            &&& inner.introspecting == introspecting
            &&& inner.variable_values == c.variable_values
            &&& inner.deadline == c.deadline
            &&& #[trigger] executes_field(
                inner,
                object_type,
                object_value,
                *field,
                definition,
                fields,
                run,
                result,
            )
        }
}

/// A group in time is executed by its first field, with the selections of the whole group. The
/// definition of the field is the first of its name among the fields at which introspection starts,
/// and it is then one of the introspection schema; else it is the first of its name among the
/// fields of the object type, and it then belongs to the schema in use.
pub proof fn group_is_executed_by_its_first_field<R1: Resolver, R2: Resolver, C: Coercion>(
    c: ContextView<R1, R2, C>,
    object_type: ObjectType,
    object_value: Option<Value>,
    fields: Seq<Arc<Field>>,
    run: GroupRun,
    i: int,
)
    requires
        executes_group(c, object_type, object_value, fields, run),
        c.deadline is None || run.overdue == 0,
        fields.len() > 0,
    ensures
        ({
            let root = root_query_type(c.introspection_schema)->0;
            0 <= i < root.fields@.len() && root.fields@[i].name@ == fields[0].name@ && (forall|
                j: int,
            |
                0 <= j < i ==> (#[trigger] root.fields@[j]).name@ != fields[0].name@)
                ==> executed_as(
                c,
                true,
                object_type,
                object_value,
                fields[0],
                root.fields@[i],
                fields,
                run.result,
            )
        }),
        ({
            let root = root_query_type(c.introspection_schema)->0;
            0 <= i < object_type.fields@.len() && object_type.fields@[i].name@ == fields[0].name@
                && (forall|j: int|
                0 <= j < i ==> (#[trigger] object_type.fields@[j]).name@ != fields[0].name@) && (
            forall|j: int|
                0 <= j < root.fields@.len() ==> (#[trigger] root.fields@[j]).name@
                    != fields[0].name@) ==> executed_as(
                c,
                c.introspecting,
                object_type,
                object_value,
                fields[0],
                object_type.fields@[i],
                fields,
                run.result,
            )
        }),
{
    let name = fields[0].name@;
    let root = root_query_type(c.introspection_schema)->0;
    let j = lemma_first_named(root.fields@, name);
    let k = lemma_first_named(object_type.fields@, name);
    if let Some((definition, introspecting)) = selected_field(c, object_type, name) {
        assert(executed_as(
            c,
            introspecting,
            object_type,
            object_value,
            fields[0],
            definition,
            fields,
            run.result,
        )) by {
            assert(executes_field(
                c.entering(fields[0], introspecting),
                object_type,
                object_value,
                *fields[0],
                definition,
                fields,
                run.field->0,
                run.result,
            ));
        }
    }
    if 0 <= i < root.fields@.len() && root.fields@[i].name@ == name && (forall|l: int|
        0 <= l < i ==> (#[trigger] root.fields@[l]).name@ != name) {
        assert(root.fields@[i].called() == name);
        assert(j == i);
    }
    if 0 <= i < object_type.fields@.len() && object_type.fields@[i].name@ == name && (forall|
        l: int,
    |
        0 <= l < i ==> (#[trigger] object_type.fields@[l]).name@ != name) {
        assert(object_type.fields@[i].called() == name);
        assert(k == i);
    }
}

/// A run of selections executes their groups in order, each by its own fields, on the same object,
/// and ends with the last of them or with the first that comes up after the deadline.
pub proof fn groups_are_executed_in_order<R1: Resolver, R2: Resolver, C: Coercion>(
    c: ContextView<R1, R2, C>,
    items: Seq<Selection>,
    object_type: ObjectType,
    object_value: Option<Value>,
    run: SetRun,
)
    requires
        executes_set(c, items, object_type, object_value, run),
    ensures
        run.groups.len() <= groups_of(c, object_type, items).len(),
        forall|i: int|
            0 <= i < run.groups.len() ==> executes_group(
                c,
                object_type,
                object_value,
                groups_of(c, object_type, items)[i].1,
                #[trigger] run.groups[i],
            ),
        forall|i: int|
            0 <= i < run.groups.len() && c.deadline is Some && (#[trigger] run.groups[i]).overdue
                > 0 ==> i == run.groups.len() - 1,
        run.groups.len() < groups_of(c, object_type, items).len() ==> c.deadline is Some
            && run.groups.len() > 0 && run.groups[run.groups.len() - 1].overdue > 0,
{
}

} // verus!
