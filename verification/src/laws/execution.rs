//! What holds of every execution.
use vstd::prelude::*;

use std::sync::Arc;

use crate::clock::lemma_clock_answer;
use crate::clock::taken;
use crate::clock::timed_out;
use crate::collect::collected;
use crate::context::ContextView;
use crate::error::Outcome;
use crate::error::QueryExecutionError;
use crate::execute::type_depth;
use crate::field_groups::Groups;
use crate::field_groups::group_keys_are_distinct;
use crate::field_groups::has_group;
use crate::merge::merged_items;
use crate::name_map::NameMap;
use crate::name_map::lemma_member_smaller;
use crate::query::Field;
use crate::query::Selection;
use crate::resolve::resolves;
use crate::resolver::Coercion;
use crate::resolver::Resolver;
use crate::run::Completion;
use crate::run::GroupRun;
use crate::run::SetRun;
use crate::run::as_object;
use crate::run::completes;
use crate::run::completion_readings;
use crate::run::errors_of;
use crate::run::executes_group;
use crate::run::executes_set;
use crate::run::group_readings;
use crate::run::groups_of;
use crate::run::groups_readings;
use crate::run::items_readings;
use crate::run::results_of;
use crate::run::selected_field;
use crate::run::set_outcome;
use crate::run::set_readings;
use crate::run::set_yields;
use crate::run::unknown_field;
use crate::run::values_of;
use crate::schema::EnumType;
use crate::schema::FieldDefinition;
use crate::schema::ObjectType;
use crate::schema::ScalarType;
use crate::schema::Type;
use crate::schema::TypeDefinition;
use crate::schema::named_type;
use crate::value::Value;

verus! {

/// Whether the resolvers give at least one error whenever they fail.
pub open spec fn failures_have_errors<R1: Resolver, R2: Resolver, C: Coercion>(
    c: ContextView<R1, R2, C>,
) -> bool {
    &&& forall|field: Field, ty: EnumType, value: Option<&Value>, errors: Vec<QueryExecutionError>|
        #[trigger] call_ensures(
            R1::resolve_enum_values,
            (&c.resolver, &field, &ty, value),
            Err(errors),
        ) ==> errors@.len() > 0
    &&& forall|
        field: Field,
        ty: ScalarType,
        value: Option<&Value>,
        errors: Vec<QueryExecutionError>,
    | #[trigger]
        call_ensures(
            R1::resolve_scalar_values,
            (&c.resolver, &field, &ty, value),
            Err(errors),
        ) ==> errors@.len() > 0
    &&& forall|field: Field, ty: EnumType, value: Option<&Value>, errors: Vec<QueryExecutionError>|
        #[trigger] call_ensures(
            R2::resolve_enum_values,
            (&c.introspection_resolver, &field, &ty, value),
            Err(errors),
        ) ==> errors@.len() > 0
    &&& forall|
        field: Field,
        ty: ScalarType,
        value: Option<&Value>,
        errors: Vec<QueryExecutionError>,
    | #[trigger]
        call_ensures(
            R2::resolve_scalar_values,
            (&c.introspection_resolver, &field, &ty, value),
            Err(errors),
        ) ==> errors@.len() > 0
}

/// Whether no field group of `run`, a run of the selections `items` on `object_type`, fails without
/// an error: neither one of the selections themselves, nor one of an object that they come to.
pub open spec fn loud_set<R1: Resolver, R2: Resolver, C: Coercion>(
    c: ContextView<R1, R2, C>,
    items: Seq<Selection>,
    object_type: ObjectType,
    run: SetRun,
) -> bool
    decreases run,
{
    forall|i: int|
        0 <= i < run.groups.len() ==> loud_group(
            c,
            object_type,
            groups_of(c, object_type, items)[i].1,
            #[trigger] run.groups[i],
        )
}

/// Whether the field group `fields` does not fail without an error in `run`, nor one of an object
/// that it comes to.
pub open spec fn loud_group<R1: Resolver, R2: Resolver, C: Coercion>(
    c: ContextView<R1, R2, C>,
    object_type: ObjectType,
    fields: Seq<Arc<Field>>,
    run: GroupRun,
) -> bool
    decreases run,
{
    match run.result {
        Err(errors) => errors.len() > 0,
        Ok(_) => match selected_field(c, object_type, fields[0].name@) {
            Some((definition, introspecting)) => run.field is Some ==> loud_value(
                c.entering(fields[0], introspecting),
                definition.field_type,
                fields,
                run.field->0.resolved->Ok_0,
                run.field->0.completion,
            ),
            None => true,
        },
    }
}

/// Whether no field group of an object that the completion `run` of `value` comes to fails without
/// an error.
pub open spec fn loud_value<R1: Resolver, R2: Resolver, C: Coercion>(
    c: ContextView<R1, R2, C>,
    ty: Type,
    fields: Seq<Arc<Field>>,
    value: Value,
    run: Completion,
) -> bool
    decreases run,
{
    value is Null || match (ty, run) {
        (Type::NonNullType(inner), Completion::NonNull(_, inner_run)) => loud_value(
            c,
            *inner,
            fields,
            value,
            *inner_run,
        ),
        (Type::ListType(inner), Completion::Items(items)) => value matches Value::List(values)
            ==> (forall|i: int|
            0 <= i < items.len() ==> loud_value(
                c,
                *inner,
                fields,
                values@[i],
                (#[trigger] items[i]).1,
            )),
        (Type::NamedType(name), Completion::Object(set_run)) => named_type(
            c.current_schema(),
            name@,
        ) matches Some(TypeDefinition::Object(object_type)) ==> loud_set(
            c,
            merged_items(fields),
            object_type,
            set_run,
        ),
        (
            Type::NamedType(name),
            Completion::Abstract(Some(object_type), set_run),
        ) => match named_type(c.current_schema(), name@) {
            Some(TypeDefinition::Interface(_)) | Some(TypeDefinition::Union(_)) => loud_set(
                c,
                merged_items(fields),
                object_type,
                set_run,
            ),
            _ => true,
        },
        _ => true,
    }
}

/// Whether `value` has the shape that a field of type `ty` with the selections of `fields` asks
/// for. It is not null where the type excludes null, a list of such values where the type is a
/// list, and an object with the selected fields where the type is one of objects: with all of them,
/// if it is to be `whole`, and else perhaps without some.
pub open spec fn shaped<R1: Resolver, R2: Resolver, C: Coercion>(
    c: ContextView<R1, R2, C>,
    whole: bool,
    ty: Type,
    fields: Seq<Arc<Field>>,
    value: Value,
) -> bool
    decreases value, type_depth(ty),
{
    match ty {
        Type::NonNullType(inner) => !(value is Null) && shaped(c, whole, *inner, fields, value),
        Type::ListType(inner) => match value {
            Value::Null => true,
            Value::List(values) => forall|i: int|
                0 <= i < values@.len() ==> shaped(c, whole, *inner, fields, #[trigger] values@[i]),
            _ => false,
        },
        Type::NamedType(name) => value is Null || match named_type(c.current_schema(), name@) {
            Some(TypeDefinition::Scalar(_)) => true,
            Some(TypeDefinition::Enum(_)) => true,
            Some(TypeDefinition::Object(object_type)) => object_shaped(
                c,
                whole,
                object_type,
                merged_items(fields),
                value,
            ),
            Some(TypeDefinition::InputObject(_)) => false,
            Some(abstract_type) => exists|object_type: ObjectType, resolved: Value|
                #![trigger c.abstract_answer(abstract_type, resolved, Some(&object_type))]
                c.abstract_answer(abstract_type, resolved, Some(&object_type)) && object_shaped(
                    c,
                    whole,
                    object_type,
                    merged_items(fields),
                    value,
                ),
            None => false,
        },
    }
}

/// Whether `value` is an object with the response keys of the selections `items` on `object_type`,
/// all of them if it is to be `whole`, each with a value of the shape that its field asks for, and
/// nothing else.
pub open spec fn object_shaped<R1: Resolver, R2: Resolver, C: Coercion>(
    c: ContextView<R1, R2, C>,
    whole: bool,
    object_type: ObjectType,
    items: Seq<Selection>,
    value: Value,
) -> bool
    decreases value, 0nat,
{
    let groups = groups_of(c, object_type, items);
    match value {
        Value::Object(object) => {
            proof {
                assert forall|key: Seq<char>| object@.contains_key(key) implies decreases_to!(
                    value => #[trigger] object@[key]) by {
                    lemma_member_smaller(object, key);
                }
            }
            &&& forall|key: Seq<char>| #[trigger]
                object@.contains_key(key) ==> has_group(groups, key)
            &&& forall|i: int|
                0 <= i < groups.len() ==> match selected_field(
                    c,
                    object_type,
                    (#[trigger] groups[i]).1[0].name@,
                ) {
                    Some((definition, introspecting)) => if object@.contains_key(groups[i].0) {
                        shaped(
                            c.entering(groups[i].1[0], introspecting),
                            whole,
                            definition.field_type,
                            groups[i].1,
                            object@[groups[i].0],
                        )
                    } else {
                        !whole
                    },
                    None => false,
                }
        },
        _ => false,
    }
}

/// Every error of a field is among the errors of its object, and an object has no other errors.
pub proof fn no_error_is_lost(
    results: Seq<(Seq<char>, Outcome<Value>)>,
    error: QueryExecutionError,
)
    ensures
        errors_of(results).contains(error) <==> exists|i: int|
            0 <= i < results.len() && (#[trigger] results[i]).1 is Err
                && results[i].1->Err_0.contains(error),
    decreases results.len(),
{
    if results.len() > 0 {
        let rest = results.drop_last();
        no_error_is_lost(rest, error);
        if results.last().1 is Err {
            let last = results.last().1->Err_0;
            lemma_added_contains(errors_of(rest), last, error);
        }
        if errors_of(results).contains(error) {
            if errors_of(rest).contains(error) {
                let i = choose|i: int|
                    0 <= i < rest.len() && (#[trigger] rest[i]).1 is Err
                        && rest[i].1->Err_0.contains(error);
                assert(results[i] == rest[i]);
            } else {
                assert(results[results.len() - 1].1->Err_0.contains(error));
            }
        }
        if exists|i: int|
            0 <= i < results.len() && (#[trigger] results[i]).1 is Err
                && results[i].1->Err_0.contains(error) {
            let i = choose|i: int|
                0 <= i < results.len() && (#[trigger] results[i]).1 is Err
                    && results[i].1->Err_0.contains(error);
            if i < rest.len() {
                assert(rest[i] == results[i]);
            }
        }
    }
}

/// What two sequences of errors hold, one behind the other.
proof fn lemma_added_contains(
    a: Seq<QueryExecutionError>,
    b: Seq<QueryExecutionError>,
    error: QueryExecutionError,
)
    ensures
        (a + b).contains(error) == (a.contains(error) || b.contains(error)),
{
    let both = a + b;
    if a.contains(error) {
        assert(both[a.index_of(error)] == error);
    }
    if b.contains(error) {
        assert(both[a.len() + b.index_of(error)] == error);
    }
    if both.contains(error) {
        let i = both.index_of(error);
        if i < a.len() {
            assert(a[i] == error);
        } else {
            assert(b[i - a.len()] == error);
        }
    }
}

/// Where no key comes up twice, the keys with a value are those whose result is one.
proof fn lemma_values_of(results: Seq<(Seq<char>, Outcome<Value>)>)
    requires
        forall|i: int, j: int|
            0 <= i < j < results.len() ==> (#[trigger] results[i]).0 != (#[trigger] results[j]).0,
    ensures
        forall|i: int|
            0 <= i < results.len() ==> values_of(results).contains_key((#[trigger] results[i]).0)
                == (results[i].1 is Ok),
        forall|i: int|
            0 <= i < results.len() && (#[trigger] results[i]).1 is Ok
                ==> values_of(results)[results[i].0] == results[i].1->Ok_0,
        forall|key: Seq<char>| #[trigger]
            values_of(results).contains_key(key) ==> exists|i: int|
                0 <= i < results.len() && (#[trigger] results[i]).0 == key,
    decreases results.len(),
{
    if results.len() > 0 {
        let rest = results.drop_last();
        let last = results.last();
        assert forall|i: int, j: int| 0 <= i < j < rest.len() implies (#[trigger] rest[i]).0 != (
        #[trigger] rest[j]).0 by {
            assert(rest[i] == results[i] && rest[j] == results[j]);
        }
        lemma_values_of(rest);
        assert(results[results.len() - 1] == last);
        assert(!values_of(rest).contains_key(last.0)) by {
            if values_of(rest).contains_key(last.0) {
                let i = choose|i: int| 0 <= i < rest.len() && (#[trigger] rest[i]).0 == last.0;
                assert(results[i].0 == results[results.len() - 1].0);
            }
        }
        assert forall|i: int| 0 <= i < rest.len() implies values_of(results).contains_key(
            (#[trigger] results[i]).0,
        ) == (results[i].1 is Ok) && (results[i].1 is Ok ==> values_of(results)[results[i].0]
            == results[i].1->Ok_0) by {
            assert(rest[i] == results[i]);
            assert(results[i].0 != results[results.len() - 1].0);
        }
        assert forall|key: Seq<char>| #[trigger]
            values_of(results).contains_key(key) implies exists|i: int|
            0 <= i < results.len() && (#[trigger] results[i]).0 == key by {
            if key == last.0 {
                assert(results[results.len() - 1].0 == key);
            } else {
                assert(values_of(rest).contains_key(key));
                let i = choose|i: int| 0 <= i < rest.len() && (#[trigger] rest[i]).0 == key;
                assert(results[i] == rest[i]);
            }
        }
    }
}

/// A field that fails to be resolved has an error.
proof fn lemma_resolution_error<R1: Resolver, R2: Resolver, C: Coercion>(
    c: ContextView<R1, R2, C>,
    object_type: ObjectType,
    object_value: Option<Value>,
    field: Field,
    definition: FieldDefinition,
    ty: Type,
    arguments: NameMap<Value>,
    errors: Seq<QueryExecutionError>,
)
    requires
        failures_have_errors(c),
        resolves(
            c,
            object_type,
            object_value,
            field,
            definition,
            ty,
            arguments,
            Err(errors),
        ),
    ensures
        errors.len() > 0,
    decreases ty,
{
    if let Type::NonNullType(inner) = ty {
        lemma_resolution_error(
            c,
            object_type,
            object_value,
            field,
            definition,
            *inner,
            arguments,
            errors,
        );
    }
}

/// A value that fails to be completed has an error.
pub proof fn lemma_completion_error<R1: Resolver, R2: Resolver, C: Coercion>(
    c: ContextView<R1, R2, C>,
    field: Field,
    ty: Type,
    fields: Seq<Arc<Field>>,
    value: Value,
    run: Completion,
    errors: Seq<QueryExecutionError>,
)
    requires
        completes(c, field, ty, fields, value, run, Err(errors)),
    ensures
        errors.len() > 0,
    decreases run,
{
    match ty {
        Type::NonNullType(inner) => {
            if run->NonNull_0 != Ok::<_, Seq<QueryExecutionError>>(Value::Null) {
                lemma_completion_error(c, field, *inner, fields, value, *run->NonNull_1, errors);
            }
        },
        Type::ListType(inner) => {
            if let Value::List(values) = value {
                let i = run->Items_0.len() - 1;
                lemma_completion_error(
                    c,
                    field,
                    *inner,
                    fields,
                    values@[i],
                    run->Items_0[i].1,
                    errors,
                );
            }
        },
        Type::NamedType(_) => {},
    }
}

/// The first of `fields`.
spec fn first_of(fields: Seq<Arc<Field>>) -> Field {
    *fields[0]
}

/// A field group that fails has an error.
proof fn lemma_group_error<R1: Resolver, R2: Resolver, C: Coercion>(
    c: ContextView<R1, R2, C>,
    object_type: ObjectType,
    object_value: Option<Value>,
    fields: Seq<Arc<Field>>,
    run: GroupRun,
)
    requires
        failures_have_errors(c),
        executes_group(c, object_type, object_value, fields, run),
        run.result is Err,
    ensures
        run.result->Err_0.len() > 0,
{
    if !timed_out(c.deadline, run.overdue) {
        if let Some((definition, introspecting)) = selected_field(
            c,
            object_type,
            fields[0].name@,
        ) {
            let inner = c.entering(fields[0], introspecting);
            let field_run = run.field->0;
            assert(failures_have_errors(inner));
            if field_run.arguments is Ok {
                match field_run.resolved {
                    Err(errors) => lemma_resolution_error(
                        inner,
                        object_type,
                        object_value,
                        first_of(fields),
                        definition,
                        definition.field_type,
                        field_run.arguments->Ok_0,
                        errors,
                    ),
                    Ok(value) => lemma_completion_error(
                        inner,
                        first_of(fields),
                        definition.field_type,
                        fields,
                        value,
                        field_run.completion,
                        run.result->Err_0,
                    ),
                }
            }
        }
    }
}

/// An execution that fails says why: it has at least one error.
pub proof fn failure_has_an_error<R1: Resolver, R2: Resolver, C: Coercion>(
    c: ContextView<R1, R2, C>,
    items: Seq<Selection>,
    object_type: ObjectType,
    object_value: Option<Value>,
    errors: Seq<QueryExecutionError>,
)
    requires
        set_yields(c, items, object_type, object_value, Err(errors)),
    ensures
        errors.len() > 0,
{
}

/// Where a run of selections succeeds, each of their field groups has been executed, and none has
/// an error. The values are the results of the groups, each under its response key, and nothing
/// else; a group without a value is one that has failed without an error.
pub proof fn successful_run_gives_the_values_of_its_groups<
    R1: Resolver,
    R2: Resolver,
    C: Coercion,
>(
    c: ContextView<R1, R2, C>,
    items: Seq<Selection>,
    object_type: ObjectType,
    object_value: Option<Value>,
    run: SetRun,
    values: Map<Seq<char>, Value>,
)
    requires
        executes_set(c, items, object_type, object_value, run),
        set_outcome(groups_of(c, object_type, items), object_type, run) == Ok::<
            _,
            Seq<QueryExecutionError>,
        >(values),
    ensures
        ({
            let groups = groups_of(c, object_type, items);
            &&& run.groups.len() == groups.len()
            &&& forall|i: int|
                0 <= i < groups.len() ==> match (#[trigger] run.groups[i]).result {
                    Ok(value) => values.contains_key(groups[i].0) && values[groups[i].0] == value,
                    Err(errors) => !values.contains_key(groups[i].0) && errors.len() == 0,
                }
            &&& forall|key: Seq<char>| #[trigger]
                values.contains_key(key) ==> has_group(groups, key)
        }),
{
    let groups = groups_of(c, object_type, items);
    let results = results_of(groups, run.groups);
    assert forall|i: int| 0 <= i < results.len() implies ((#[trigger] results[i]).1 matches Err(
        errors,
    ) ==> errors.len() == 0) by {
        if results[i].1 is Err && results[i].1->Err_0.len() > 0 {
            let error = results[i].1->Err_0[0];
            assert(results[i].1->Err_0.contains(error));
            no_error_is_lost(results, error);
        }
    }
    if run.groups.len() < groups.len() {
        let last = run.groups.len() - 1;
        assert(executes_group(c, object_type, object_value, groups[last].1, run.groups[last]));
        assert(results[last].1 == run.groups[last].result);
    }
    let all = collected(
        c.document,
        c.current_schema(),
        c.variable_values@,
        object_type,
        items,
        Set::empty(),
    );
    assert forall|i: int, j: int| 0 <= i < j < results.len() implies (#[trigger] results[i]).0 != (
    #[trigger] results[j]).0 by {
        group_keys_are_distinct(all, i, j);
    }
    lemma_values_of(results);
    assert forall|i: int| 0 <= i < groups.len() implies match (#[trigger] run.groups[i]).result {
        Ok(value) => values.contains_key(groups[i].0) && values[groups[i].0] == value,
        Err(errors) => !values.contains_key(groups[i].0) && errors.len() == 0,
    } by {
        assert(results[i] == (groups[i].0, run.groups[i].result));
    }
    assert forall|key: Seq<char>| #[trigger] values.contains_key(key) implies has_group(
        groups,
        key,
    ) by {
        let i = choose|i: int| 0 <= i < results.len() && (#[trigger] results[i]).0 == key;
        assert(groups[i].0 == key);
    }
}

/// Whether `values` has the response keys of `groups`, all of them if it is to be `whole`, each
/// with a value of the shape that its field asks for, and nothing else.
pub open spec fn values_shaped<R1: Resolver, R2: Resolver, C: Coercion>(
    c: ContextView<R1, R2, C>,
    whole: bool,
    object_type: ObjectType,
    groups: Groups,
    values: Map<Seq<char>, Value>,
) -> bool {
    &&& forall|key: Seq<char>| #[trigger] values.contains_key(key) ==> has_group(groups, key)
    &&& forall|i: int|
        0 <= i < groups.len() ==> match selected_field(
            c,
            object_type,
            (#[trigger] groups[i]).1[0].name@,
        ) {
            Some((definition, introspecting)) => if values.contains_key(groups[i].0) {
                shaped(
                    c.entering(groups[i].1[0], introspecting),
                    whole,
                    definition.field_type,
                    groups[i].1,
                    values[groups[i].0],
                )
            } else {
                !whole
            },
            None => false,
        }
}

/// An object has the shape that selections ask for if its values have.
pub proof fn lemma_object_shaped<R1: Resolver, R2: Resolver, C: Coercion>(
    c: ContextView<R1, R2, C>,
    whole: bool,
    object_type: ObjectType,
    items: Seq<Selection>,
    value: Value,
)
    requires
        value is Object,
        values_shaped(c, whole, object_type, groups_of(c, object_type, items), value->Object_0@),
    ensures
        object_shaped(c, whole, object_type, items, value),
{
}

/// The values of a selection set have its shape: the response keys are those of its groups, and
/// there is no null where the schema excludes it, a list where it asks for one, and an object of
/// the same kind where it asks for an object. No key is missing, at any level, if no group fails
/// without an error.
pub proof fn values_have_the_shape_of_the_selections<R1: Resolver, R2: Resolver, C: Coercion>(
    c: ContextView<R1, R2, C>,
    items: Seq<Selection>,
    object_type: ObjectType,
    object_value: Option<Value>,
    run: SetRun,
    values: Map<Seq<char>, Value>,
    whole: bool,
)
    requires
        executes_set(c, items, object_type, object_value, run),
        set_outcome(groups_of(c, object_type, items), object_type, run) == Ok::<
            _,
            Seq<QueryExecutionError>,
        >(values),
        whole ==> loud_set(c, items, object_type, run),
    ensures
        values_shaped(c, whole, object_type, groups_of(c, object_type, items), values),
    decreases run,
{
    let groups = groups_of(c, object_type, items);
    successful_run_gives_the_values_of_its_groups(
        c,
        items,
        object_type,
        object_value,
        run,
        values,
    );
    assert forall|i: int| 0 <= i < groups.len() implies match selected_field(
        c,
        object_type,
        (#[trigger] groups[i]).1[0].name@,
    ) {
        Some((definition, introspecting)) => if values.contains_key(groups[i].0) {
            shaped(
                c.entering(groups[i].1[0], introspecting),
                whole,
                definition.field_type,
                groups[i].1,
                values[groups[i].0],
            )
        } else {
            !whole
        },
        None => false,
    } by {
        let group_run = run.groups[i];
        assert(executes_group(c, object_type, object_value, groups[i].1, group_run));
        if whole {
            assert(loud_group(c, object_type, groups[i].1, group_run));
        }
        if let Ok(value) = group_run.result {
            let (definition, introspecting) = selected_field(
                c,
                object_type,
                groups[i].1[0].name@,
            )->0;
            completed_value_matches_its_type(
                c.entering(groups[i].1[0], introspecting),
                first_of(groups[i].1),
                definition.field_type,
                groups[i].1,
                group_run.field->0.resolved->Ok_0,
                group_run.field->0.completion,
                value,
                whole,
            );
        }
    }
}

/// A value that is completed matches the type that it is expected to have. No key of an object that
/// it comes to is missing, if no group of one fails without an error.
pub proof fn completed_value_matches_its_type<R1: Resolver, R2: Resolver, C: Coercion>(
    c: ContextView<R1, R2, C>,
    field: Field,
    ty: Type,
    fields: Seq<Arc<Field>>,
    value: Value,
    run: Completion,
    completed: Value,
    whole: bool,
)
    requires
        completes(c, field, ty, fields, value, run, Ok(completed)),
        whole ==> loud_value(c, ty, fields, value, run),
    ensures
        shaped(c, whole, ty, fields, completed),
    decreases run,
{
    match ty {
        Type::NonNullType(inner) => {
            completed_value_matches_its_type(
                c,
                field,
                *inner,
                fields,
                value,
                *run->NonNull_1,
                completed,
                whole,
            );
        },
        Type::ListType(inner) => {
            if let Value::List(values) = value {
                let list = completed->List_0@;
                assert forall|i: int| 0 <= i < list.len() implies shaped(
                    c,
                    whole,
                    *inner,
                    fields,
                    #[trigger] list[i],
                ) by {
                    assert(run->Items_0[i].0 is Ok);
                    completed_value_matches_its_type(
                        c,
                        field,
                        *inner,
                        fields,
                        values@[i],
                        run->Items_0[i].1,
                        list[i],
                        whole,
                    );
                }
            }
        },
        Type::NamedType(name) => {
            if !(value is Null) {
                match named_type(c.current_schema(), name@) {
                    Some(TypeDefinition::Object(object_type)) => {
                        values_have_the_shape_of_the_selections(
                            c,
                            merged_items(fields),
                            object_type,
                            Some(value),
                            run->Object_0,
                            completed->Object_0@,
                            whole,
                        );
                        lemma_object_shaped(
                            c,
                            whole,
                            object_type,
                            merged_items(fields),
                            completed,
                        );
                    },
                    Some(TypeDefinition::Interface(_)) | Some(TypeDefinition::Union(_)) => {
                        let object_type = run->Abstract_0->0;
                        values_have_the_shape_of_the_selections(
                            c,
                            merged_items(fields),
                            object_type,
                            Some(value),
                            run->Abstract_1,
                            completed->Object_0@,
                            whole,
                        );
                        lemma_object_shaped(
                            c,
                            whole,
                            object_type,
                            merged_items(fields),
                            completed,
                        );
                    },
                    _ => {},
                }
            }
        },
    }
}

/// The response to a selection set is an object of its shape, and no key is missing, at any level,
/// if no group fails without an error.
pub proof fn response_has_the_shape_of_the_selections<R1: Resolver, R2: Resolver, C: Coercion>(
    c: ContextView<R1, R2, C>,
    items: Seq<Selection>,
    object_type: ObjectType,
    object_value: Option<Value>,
    run: SetRun,
    response: Value,
    whole: bool,
)
    requires
        executes_set(c, items, object_type, object_value, run),
        as_object(
            set_outcome(groups_of(c, object_type, items), object_type, run),
            Ok(response),
        ),
        whole ==> loud_set(c, items, object_type, run),
    ensures
        object_shaped(c, whole, object_type, items, response),
{
    values_have_the_shape_of_the_selections(
        c,
        items,
        object_type,
        object_value,
        run,
        response->Object_0@,
        whole,
    );
    lemma_object_shaped(c, whole, object_type, items, response);
}

/// Where the resolvers give at least one error whenever they fail, no group of any run fails
/// without one.
pub proof fn failures_with_errors_are_loud<R1: Resolver, R2: Resolver, C: Coercion>(
    c: ContextView<R1, R2, C>,
    items: Seq<Selection>,
    object_type: ObjectType,
    object_value: Option<Value>,
    run: SetRun,
)
    requires
        failures_have_errors(c),
        executes_set(c, items, object_type, object_value, run),
    ensures
        loud_set(c, items, object_type, run),
    decreases run,
{
    let groups = groups_of(c, object_type, items);
    assert forall|i: int| 0 <= i < run.groups.len() implies loud_group(
        c,
        object_type,
        groups[i].1,
        #[trigger] run.groups[i],
    ) by {
        let fields = groups[i].1;
        let group_run = run.groups[i];
        assert(executes_group(c, object_type, object_value, fields, group_run));
        if group_run.result is Err {
            lemma_group_error(c, object_type, object_value, fields, group_run);
        } else {
            let (definition, introspecting) = selected_field(
                c,
                object_type,
                fields[0].name@,
            )->0;
            let inner = c.entering(fields[0], introspecting);
            assert(failures_have_errors(inner));
            lemma_loud_value(
                inner,
                first_of(fields),
                definition.field_type,
                fields,
                group_run.field->0.resolved->Ok_0,
                group_run.field->0.completion,
                group_run.result,
            );
        }
    }
}

/// The same of the completion of a value.
proof fn lemma_loud_value<R1: Resolver, R2: Resolver, C: Coercion>(
    c: ContextView<R1, R2, C>,
    field: Field,
    ty: Type,
    fields: Seq<Arc<Field>>,
    value: Value,
    run: Completion,
    result: Outcome<Value>,
)
    requires
        failures_have_errors(c),
        completes(c, field, ty, fields, value, run, result),
    ensures
        loud_value(c, ty, fields, value, run),
    decreases run,
{
    match ty {
        Type::NonNullType(inner) => lemma_loud_value(
            c,
            field,
            *inner,
            fields,
            value,
            *run->NonNull_1,
            run->NonNull_0,
        ),
        Type::ListType(inner) => {
            if let Value::List(values) = value {
                assert forall|i: int| 0 <= i < run->Items_0.len() implies loud_value(
                    c,
                    *inner,
                    fields,
                    values@[i],
                    (#[trigger] run->Items_0[i]).1,
                ) by {
                    lemma_loud_value(
                        c,
                        field,
                        *inner,
                        fields,
                        values@[i],
                        run->Items_0[i].1,
                        run->Items_0[i].0,
                    );
                }
            }
        },
        Type::NamedType(name) => {
            if !(value is Null) {
                match named_type(c.current_schema(), name@) {
                    Some(TypeDefinition::Object(object_type)) => failures_with_errors_are_loud(
                        c,
                        merged_items(fields),
                        object_type,
                        Some(value),
                        run->Object_0,
                    ),
                    Some(TypeDefinition::Interface(_)) | Some(TypeDefinition::Union(_)) => {
                        if let Some(object_type) = run->Abstract_0 {
                            failures_with_errors_are_loud(
                                c,
                                merged_items(fields),
                                object_type,
                                Some(value),
                                run->Abstract_1,
                            );
                        }
                    },
                    _ => {},
                }
            }
        },
    }
}

/// Without a deadline, every field group is executed.
pub proof fn without_deadline_every_group_is_executed<R1: Resolver, R2: Resolver, C: Coercion>(
    c: ContextView<R1, R2, C>,
    items: Seq<Selection>,
    object_type: ObjectType,
    object_value: Option<Value>,
    run: SetRun,
)
    requires
        c.deadline is None,
        executes_set(c, items, object_type, object_value, run),
    ensures
        run.groups.len() == groups_of(c, object_type, items).len(),
{
}

/// Where there is a deadline, the clock is read for each field group of a run: there is a reading
/// for each of its own, and the readings of a group begin with it.
pub proof fn clock_is_read_for_each_group<R1: Resolver, R2: Resolver, C: Coercion>(
    c: ContextView<R1, R2, C>,
    items: Seq<Selection>,
    object_type: ObjectType,
    object_value: Option<Value>,
    run: SetRun,
)
    requires
        c.deadline is Some,
        executes_set(c, items, object_type, object_value, run),
    ensures
        set_readings(run).len() >= run.groups.len(),
        forall|i: int|
            0 <= i < run.groups.len() ==> (#[trigger] run.groups[i]).reading is Some
                && group_readings(run.groups[i])[0] == run.groups[i].reading->0,
{
    let groups = groups_of(c, object_type, items);
    assert forall|i: int| 0 <= i < run.groups.len() implies (#[trigger] run.groups[i]).reading is Some
        && group_readings(run.groups[i])[0] == run.groups[i].reading->0 by {
        assert(executes_group(c, object_type, object_value, groups[i].1, run.groups[i]));
        lemma_clock_answer(c.deadline, run.groups[i].reading, run.groups[i].overdue);
    }
    lemma_readings_of_each(run.groups);
}

/// Groups that have a reading each have as many readings together as there are groups, or more.
proof fn lemma_readings_of_each(runs: Seq<GroupRun>)
    requires
        forall|i: int| 0 <= i < runs.len() ==> (#[trigger] runs[i]).reading is Some,
    ensures
        groups_readings(runs).len() >= runs.len(),
    decreases runs.len(),
{
    if runs.len() > 0 {
        let rest = runs.drop_last();
        assert forall|i: int| 0 <= i < rest.len() implies (#[trigger] rest[i]).reading is Some by {
            assert(rest[i] == runs[i]);
        }
        lemma_readings_of_each(rest);
        assert(runs[runs.len() - 1].reading is Some);
        assert(group_readings(runs.last()).len() >= 1);
    }
}

/// The readings of groups, and those of items, are in the order of the groups and items: those of
/// the first come before those of the others.
pub proof fn readings_are_in_order(
    first: Seq<GroupRun>,
    second: Seq<GroupRun>,
    first_items: Seq<(Outcome<Value>, Completion)>,
    second_items: Seq<(Outcome<Value>, Completion)>,
)
    ensures
        set_readings(SetRun { groups: first + second }) == set_readings(SetRun { groups: first })
            + set_readings(SetRun { groups: second }),
        completion_readings(Completion::Items(first_items + second_items)) == completion_readings(
            Completion::Items(first_items),
        ) + completion_readings(Completion::Items(second_items)),
{
    lemma_group_readings_in_order(first, second);
    lemma_item_readings_in_order(first_items, second_items);
}

/// The readings of groups are in the order of the groups.
proof fn lemma_group_readings_in_order(first: Seq<GroupRun>, second: Seq<GroupRun>)
    ensures
        groups_readings(first + second) == groups_readings(first) + groups_readings(second),
    decreases second.len(),
{
    if second.len() == 0 {
        assert(first + second =~= first);
        assert(groups_readings(first) + groups_readings(second) =~= groups_readings(first));
    } else {
        assert((first + second).drop_last() =~= first + second.drop_last());
        lemma_group_readings_in_order(first, second.drop_last());
        assert(groups_readings(first + second) =~= groups_readings(first) + groups_readings(
            second,
        ));
    }
}

/// The readings of items are in the order of the items.
proof fn lemma_item_readings_in_order(
    first: Seq<(Outcome<Value>, Completion)>,
    second: Seq<(Outcome<Value>, Completion)>,
)
    ensures
        items_readings(first + second) == items_readings(first) + items_readings(second),
    decreases second.len(),
{
    if second.len() == 0 {
        assert(first + second =~= first);
        assert(items_readings(first) + items_readings(second) =~= items_readings(first));
    } else {
        assert((first + second).drop_last() =~= first + second.drop_last());
        lemma_item_readings_in_order(first, second.drop_last());
        assert(items_readings(first + second) =~= items_readings(first) + items_readings(second));
    }
}

/// The readings of one group are its own, if there is one, and then those of the objects that its
/// field comes to, wherever in the value these stand.
pub proof fn group_is_read_before_its_objects(
    group: GroupRun,
    outcome: Outcome<Value>,
    completion: Completion,
    found: Option<ObjectType>,
    run: SetRun,
)
    ensures
        set_readings(SetRun { groups: seq![group] }) == taken(group.reading) + match group.field {
            Some(field) => completion_readings(field.completion),
            None => Seq::empty(),
        },
        completion_readings(Completion::Direct).len() == 0,
        completion_readings(Completion::NonNull(outcome, Box::new(completion)))
            == completion_readings(completion),
        completion_readings(Completion::Items(seq![(outcome, completion)])) == completion_readings(
            completion,
        ),
        completion_readings(Completion::Object(run)) == set_readings(run),
        completion_readings(Completion::Abstract(found, run)) == set_readings(run),
{
    let groups = seq![group];
    let items = seq![(outcome, completion)];
    assert(groups.drop_last() =~= Seq::empty());
    assert(items.drop_last() =~= Seq::empty());
    assert(groups_readings(groups.drop_last()) =~= Seq::empty());
    assert(items_readings(items.drop_last()) =~= Seq::empty());
    assert(groups_readings(groups) =~= group_readings(group));
    assert(items_readings(items) =~= completion_readings(completion));
}

/// Without a deadline, the clock is not read.
pub proof fn without_deadline_the_clock_is_not_read<R1: Resolver, R2: Resolver, C: Coercion>(
    c: ContextView<R1, R2, C>,
    items: Seq<Selection>,
    object_type: ObjectType,
    object_value: Option<Value>,
    run: SetRun,
)
    requires
        c.deadline is None,
        executes_set(c, items, object_type, object_value, run),
    ensures
        set_readings(run).len() == 0,
    decreases run,
{
    let groups = groups_of(c, object_type, items);
    assert forall|i: int| 0 <= i < run.groups.len() implies group_readings(
        #[trigger] run.groups[i],
    ).len() == 0 by {
        let fields = groups[i].1;
        let group_run = run.groups[i];
        assert(executes_group(c, object_type, object_value, fields, group_run));
        lemma_clock_answer(c.deadline, group_run.reading, group_run.overdue);
        if let Some(field_run) = group_run.field {
            let (definition, introspecting) = selected_field(
                c,
                object_type,
                fields[0].name@,
            )->0;
            if field_run.arguments is Ok && field_run.resolved is Ok {
                lemma_completion_without_reading(
                    c.entering(fields[0], introspecting),
                    first_of(fields),
                    definition.field_type,
                    fields,
                    field_run.resolved->Ok_0,
                    field_run.completion,
                    group_run.result,
                );
            }
        }
    }
    lemma_no_readings(run.groups);
}

/// The same of the completion of a value.
proof fn lemma_completion_without_reading<R1: Resolver, R2: Resolver, C: Coercion>(
    c: ContextView<R1, R2, C>,
    field: Field,
    ty: Type,
    fields: Seq<Arc<Field>>,
    value: Value,
    run: Completion,
    result: Outcome<Value>,
)
    requires
        c.deadline is None,
        completes(c, field, ty, fields, value, run, result),
    ensures
        completion_readings(run).len() == 0,
    decreases run,
{
    match ty {
        Type::NonNullType(inner) => {
            lemma_completion_without_reading(
                c,
                field,
                *inner,
                fields,
                value,
                *run->NonNull_1,
                run->NonNull_0,
            );
            assert(completion_readings(run) == completion_readings(*run->NonNull_1));
        },
        Type::ListType(inner) => {
            if let Value::List(values) = value {
                assert forall|i: int| 0 <= i < run->Items_0.len() implies completion_readings(
                    (#[trigger] run->Items_0[i]).1,
                ).len() == 0 by {
                    lemma_completion_without_reading(
                        c,
                        field,
                        *inner,
                        fields,
                        values@[i],
                        run->Items_0[i].1,
                        run->Items_0[i].0,
                    );
                }
                lemma_no_item_readings(run->Items_0);
            }
        },
        Type::NamedType(name) => {
            if !(value is Null) {
                match named_type(c.current_schema(), name@) {
                    Some(TypeDefinition::Object(object_type)) => {
                        without_deadline_the_clock_is_not_read(
                            c,
                            merged_items(fields),
                            object_type,
                            Some(value),
                            run->Object_0,
                        );
                    },
                    Some(TypeDefinition::Interface(_)) | Some(TypeDefinition::Union(_)) => {
                        if let Some(object_type) = run->Abstract_0 {
                            without_deadline_the_clock_is_not_read(
                                c,
                                merged_items(fields),
                                object_type,
                                Some(value),
                                run->Abstract_1,
                            );
                        }
                    },
                    _ => {},
                }
            }
        },
    }
}

/// Groups without a reading have none together.
proof fn lemma_no_readings(runs: Seq<GroupRun>)
    requires
        forall|i: int| 0 <= i < runs.len() ==> group_readings(#[trigger] runs[i]).len() == 0,
    ensures
        groups_readings(runs).len() == 0,
    decreases runs.len(),
{
    if runs.len() > 0 {
        let rest = runs.drop_last();
        assert forall|i: int| 0 <= i < rest.len() implies group_readings(
            #[trigger] rest[i],
        ).len() == 0 by {
            assert(rest[i] == runs[i]);
        }
        lemma_no_readings(rest);
        assert(group_readings(runs[runs.len() - 1]).len() == 0);
    }
}

/// Items without a reading have none together.
proof fn lemma_no_item_readings(items: Seq<(Outcome<Value>, Completion)>)
    requires
        forall|i: int|
            0 <= i < items.len() ==> completion_readings((#[trigger] items[i]).1).len() == 0,
    ensures
        items_readings(items).len() == 0,
    decreases items.len(),
{
    if items.len() > 0 {
        let rest = items.drop_last();
        assert forall|i: int| 0 <= i < rest.len() implies completion_readings(
            (#[trigger] rest[i]).1,
        ).len() == 0 by {
            assert(rest[i] == items[i]);
        }
        lemma_no_item_readings(rest);
        assert(completion_readings(items[items.len() - 1].1).len() == 0);
    }
}

/// An execution that finds the deadline passed fails, whatever it has found before, and its last
/// error says so.
pub proof fn late_execution_times_out<R1: Resolver, R2: Resolver, C: Coercion>(
    c: ContextView<R1, R2, C>,
    items: Seq<Selection>,
    object_type: ObjectType,
    object_value: Option<Value>,
    run: SetRun,
    i: int,
)
    requires
        executes_set(c, items, object_type, object_value, run),
        0 <= i < run.groups.len(),
        timed_out(c.deadline, run.groups[i].overdue),
    ensures
        i == run.groups.len() - 1,
        set_outcome(groups_of(c, object_type, items), object_type, run) matches Err(errors)
            && errors.len() > 0 && errors.last() == QueryExecutionError::Timeout,
{
    let groups = groups_of(c, object_type, items);
    let results = results_of(groups, run.groups);
    assert(executes_group(c, object_type, object_value, groups[i].1, run.groups[i]));
    assert(results.last().1 == Err::<Value, _>(seq![QueryExecutionError::Timeout]));
}

/// To select a field that does not exist is an error: it is reported, unless the deadline passes
/// first.
pub proof fn unknown_field_is_an_error<R1: Resolver, R2: Resolver, C: Coercion>(
    c: ContextView<R1, R2, C>,
    items: Seq<Selection>,
    object_type: ObjectType,
    object_value: Option<Value>,
    values: Outcome<Map<Seq<char>, Value>>,
    i: int,
)
    requires
        set_yields(c, items, object_type, object_value, values),
        0 <= i < groups_of(c, object_type, items).len(),
        selected_field(
            c,
            object_type,
            groups_of(c, object_type, items)[i].1[0].name@,
        ) is None,
    ensures
        ({
            let field = groups_of(c, object_type, items)[i].1[0];
            &&& values is Err
            &&& values->Err_0.contains(unknown_field(object_type, *field)) || {
                &&& c.deadline is Some
                &&& values->Err_0.last() == QueryExecutionError::Timeout
            }
        }),
{
    let groups = groups_of(c, object_type, items);
    let run = choose|run: SetRun|
        #![trigger executes_set(c, items, object_type, object_value, run)]
        executes_set(c, items, object_type, object_value, run) && values == set_outcome(
            groups,
            object_type,
            run,
        );
    let results = results_of(groups, run.groups);
    if run.groups.len() <= i {
        late_execution_times_out(
            c,
            items,
            object_type,
            object_value,
            run,
            run.groups.len() - 1,
        );
    } else if timed_out(c.deadline, run.groups[i].overdue) {
        late_execution_times_out(c, items, object_type, object_value, run, i);
    } else {
        let error = unknown_field(object_type, first_of(groups[i].1));
        assert(executes_group(c, object_type, object_value, groups[i].1, run.groups[i]));
        assert(results[i].1 == Err::<Value, _>(seq![error]));
        assert(seq![error][0] == error);
        assert(results[i].1->Err_0.contains(error));
        no_error_is_lost(results, error);
    }
}

/// What is selected within an introspection query belongs to the introspection schema.
pub proof fn introspection_is_kept<R1: Resolver, R2: Resolver, C: Coercion>(
    c: ContextView<R1, R2, C>,
    object_type: ObjectType,
    name: Seq<char>,
)
    requires
        c.introspecting,
    ensures
        selected_field(c, object_type, name) matches Some((_, introspecting)) ==> introspecting,
{
}

} // verus!
