//! What the results of the fields of an object, and of the parts of a query, come to together.
use vstd::prelude::*;

use std::sync::Arc;

use crate::collect::collected;
use crate::context::ContextView;
use crate::context::ExecutionContext;
use crate::error::Outcome;
use crate::error::QueryExecutionError;
use crate::field_groups::Groups;
use crate::field_groups::grouped;
use crate::laws::execution::no_error_is_lost;
use crate::laws::root::belongs;
use crate::laws::root::parts_of_a_query_keep_its_groups;
use crate::laws::root::root_groups;
use crate::laws::root::unknown_root_fields_are_reported;
use crate::query::Field;
use crate::query::Selection;
use crate::resolver::Coercion;
use crate::resolver::Resolver;
use crate::run::SetRun;
use crate::run::combined;
use crate::run::errors_of;
use crate::run::executes_set;
use crate::run::groups_of;
use crate::run::results_of;
use crate::run::root_items;
use crate::run::runs_root;
use crate::run::selected_field;
use crate::run::set_outcome;
use crate::run::unknown_fields;
use crate::run::values_of;
use crate::schema::ObjectType;
use crate::schema::field_definition;
use crate::schema::root_query_type;
use crate::value::Value;

verus! {

/// The errors of fields are in the order of the fields: those of the first come before those of the
/// others, and those of one field are as it has them.
pub proof fn errors_are_in_the_order_of_the_fields(
    first: Seq<(Seq<char>, Outcome<Value>)>,
    second: Seq<(Seq<char>, Outcome<Value>)>,
    key: Seq<char>,
    result: Outcome<Value>,
)
    ensures
        errors_of(first + second) == errors_of(first) + errors_of(second),
        result is Err ==> errors_of(seq![(key, result)]) == result->Err_0,
        result is Ok ==> errors_of(seq![(key, result)]).len() == 0,
    decreases second.len(),
{
    let one = seq![(key, result)];
    assert(one.drop_last() =~= Seq::empty());
    assert(errors_of(one.drop_last()) =~= Seq::empty());
    if result is Err {
        assert(errors_of(one) =~= result->Err_0);
    }
    if second.len() == 0 {
        assert(first + second =~= first);
        assert(errors_of(first) + errors_of(second) =~= errors_of(first));
    } else {
        assert((first + second).drop_last() =~= first + second.drop_last());
        errors_are_in_the_order_of_the_fields(first, second.drop_last(), key, result);
        assert(errors_of(first + second) =~= errors_of(first) + errors_of(second));
    }
}

/// The keys with a value are those under which some field has one.
pub proof fn keys_with_a_value_are_kept(results: Seq<(Seq<char>, Outcome<Value>)>, key: Seq<char>)
    ensures
        values_of(results).contains_key(key) <==> exists|i: int|
            0 <= i < results.len() && (#[trigger] results[i]).0 == key && results[i].1 is Ok,
    decreases results.len(),
{
    if results.len() > 0 {
        let rest = results.drop_last();
        let n = results.len() - 1;
        keys_with_a_value_are_kept(rest, key);
        assert(results[n] == results.last());
        if values_of(rest).contains_key(key) {
            let i = choose|i: int|
                0 <= i < rest.len() && (#[trigger] rest[i]).0 == key && rest[i].1 is Ok;
            assert(results[i] == rest[i]);
        }
        if exists|i: int|
            0 <= i < results.len() && (#[trigger] results[i]).0 == key && results[i].1 is Ok {
            let i = choose|i: int|
                0 <= i < results.len() && (#[trigger] results[i]).0 == key && results[i].1 is Ok;
            if i < n {
                assert(rest[i] == results[i]);
            }
        }
    }
}

/// Where several fields have a value under one key, the last counts.
pub proof fn last_value_of_a_key_counts(results: Seq<(Seq<char>, Outcome<Value>)>, i: int)
    requires
        0 <= i < results.len(),
        results[i].1 is Ok,
        forall|j: int|
            i < j < results.len() && (#[trigger] results[j]).0 == results[i].0
                ==> results[j].1 is Err,
    ensures
        values_of(results)[results[i].0] == results[i].1->Ok_0,
    decreases results.len(),
{
    let n = results.len() - 1;
    if i < n {
        let rest = results.drop_last();
        assert forall|j: int| i < j < rest.len() && (#[trigger] rest[j]).0 == rest[i].0 implies
            rest[j].1 is Err by {
            assert(results[j] == rest[j]);
        }
        last_value_of_a_key_counts(rest, i);
        if results[n].0 == results[i].0 {
            assert(results[n].1 is Err);
        }
    }
}

/// An object comes to a value if and only if no field has an error and some field has a value. If a
/// field has an error, the object has all the errors of its fields, and none else; and if there is
/// neither error nor value, its one error is that nothing was selected of its type.
pub proof fn object_needs_a_value_and_no_error(
    object_type: ObjectType,
    results: Seq<(Seq<char>, Outcome<Value>)>,
)
    ensures
        combined(object_type, results) is Ok <==> {
            &&& forall|i: int|
                0 <= i < results.len() && (#[trigger] results[i]).1 is Err
                    ==> results[i].1->Err_0.len() == 0
            &&& exists|i: int| 0 <= i < results.len() && (#[trigger] results[i]).1 is Ok
        },
        forall|i: int|
            #![trigger results[i]]
            0 <= i < results.len() && results[i].1 is Err && results[i].1->Err_0.len() > 0
                ==> combined(object_type, results) is Err && forall|error: QueryExecutionError|
                #[trigger] combined(object_type, results)->Err_0.contains(error) <==> exists|
                    j: int,
                |
                    0 <= j < results.len() && (#[trigger] results[j]).1 is Err
                        && results[j].1->Err_0.contains(error),
        (forall|i: int|
            0 <= i < results.len() ==> (#[trigger] results[i]).1 is Err
                && results[i].1->Err_0.len() == 0) ==> combined(object_type, results) is Err
            && combined(object_type, results)->Err_0.len() == 1
            && combined(object_type, results)->Err_0[0] == QueryExecutionError::EmptySelectionSet(
            object_type.name,
        ),
{
    let errors = errors_of(results);
    if errors.len() > 0 {
        let error = errors[0];
        assert(errors.contains(error));
        no_error_is_lost(results, error);
        let i = choose|i: int|
            0 <= i < results.len() && (#[trigger] results[i]).1 is Err
                && results[i].1->Err_0.contains(error);
        assert(results[i].1->Err_0.len() > 0);
        assert forall|error: QueryExecutionError| #[trigger]
            combined(object_type, results)->Err_0.contains(error) <==> exists|j: int|
                0 <= j < results.len() && (#[trigger] results[j]).1 is Err
                    && results[j].1->Err_0.contains(error) by {
            no_error_is_lost(results, error);
        }
    } else {
        assert forall|i: int| 0 <= i < results.len() && (#[trigger] results[i]).1 is Err implies
            results[i].1->Err_0.len() == 0 by {
            if results[i].1->Err_0.len() > 0 {
                let error = results[i].1->Err_0[0];
                assert(results[i].1->Err_0.contains(error));
                no_error_is_lost(results, error);
            }
        }
        if exists|i: int| 0 <= i < results.len() && (#[trigger] results[i]).1 is Ok {
            let i = choose|i: int| 0 <= i < results.len() && (#[trigger] results[i]).1 is Ok;
            keys_with_a_value_are_kept(results, results[i].0);
            assert(values_of(results).contains_key(results[i].0));
            assert(values_of(results) != Map::<Seq<char>, Value>::empty());
        } else {
            assert(values_of(results) =~= Map::<Seq<char>, Value>::empty()) by {
                assert forall|key: Seq<char>| !values_of(results).contains_key(key) by {
                    keys_with_a_value_are_kept(results, key);
                }
            }
        }
    }
}

/// A run of selections fails if and only if one of its groups has an error, or none has a value. In
/// the one case its errors are those of its groups and none else; in the other the one error is
/// that nothing was selected of the object type.
pub proof fn run_fails_with_the_errors_of_its_groups(
    groups: Groups,
    object_type: ObjectType,
    run: SetRun,
    error: QueryExecutionError,
)
    ensures
        set_outcome(groups, object_type, run) is Ok <==> {
            &&& forall|i: int|
                0 <= i < run.groups.len() && (#[trigger] run.groups[i]).result is Err
                    ==> run.groups[i].result->Err_0.len() == 0
            &&& exists|i: int|
                0 <= i < run.groups.len() && (#[trigger] run.groups[i]).result is Ok
        },
        forall|i: int|
            0 <= i < run.groups.len() && (#[trigger] run.groups[i]).result is Err
                && run.groups[i].result->Err_0.len() > 0 ==> set_outcome(
                groups,
                object_type,
                run,
            ) is Err && (set_outcome(groups, object_type, run)->Err_0.contains(error) <==> exists|
                j: int,
            |
                0 <= j < run.groups.len() && (#[trigger] run.groups[j]).result is Err
                    && run.groups[j].result->Err_0.contains(error)),
        run.groups.len() == 0 ==> set_outcome(groups, object_type, run) is Err && set_outcome(
            groups,
            object_type,
            run,
        )->Err_0.len() == 1 && set_outcome(groups, object_type, run)->Err_0[0]
            == QueryExecutionError::EmptySelectionSet(object_type.name),
{
    let results = results_of(groups, run.groups);
    object_needs_a_value_and_no_error(object_type, results);
    let outcome = set_outcome(groups, object_type, run);
    assert forall|i: int| 0 <= i < run.groups.len() implies (#[trigger] run.groups[i]).result
        == results[i].1 by {}
    if exists|i: int| 0 <= i < results.len() && (#[trigger] results[i]).1 is Ok {
        let i = choose|i: int| 0 <= i < results.len() && (#[trigger] results[i]).1 is Ok;
        assert(run.groups[i].result is Ok);
    }
    if exists|i: int| 0 <= i < run.groups.len() && (#[trigger] run.groups[i]).result is Ok {
        let i = choose|i: int| 0 <= i < run.groups.len() && (#[trigger] run.groups[i]).result is Ok;
        assert(results[i].1 is Ok);
    }
    if forall|i: int|
        0 <= i < run.groups.len() && (#[trigger] run.groups[i]).result is Err
            ==> run.groups[i].result->Err_0.len() == 0 {
        assert forall|i: int| 0 <= i < results.len() && (#[trigger] results[i]).1 is Err implies
            results[i].1->Err_0.len() == 0 by {
            assert(run.groups[i].result is Err);
        }
    }
    if forall|i: int|
        0 <= i < results.len() && (#[trigger] results[i]).1 is Err ==> results[i].1->Err_0.len()
            == 0 {
        assert forall|i: int|
            0 <= i < run.groups.len() && (#[trigger] run.groups[i]).result is Err implies
            run.groups[i].result->Err_0.len() == 0 by {
            assert(results[i].1 is Err);
        }
    }
    assert forall|i: int|
        0 <= i < run.groups.len() && (#[trigger] run.groups[i]).result is Err
            && run.groups[i].result->Err_0.len() > 0 implies outcome is Err && (
    outcome->Err_0.contains(error) <==> exists|j: int|
        0 <= j < run.groups.len() && (#[trigger] run.groups[j]).result is Err
            && run.groups[j].result->Err_0.contains(error)) by {
        assert(results[i].1 is Err && results[i].1->Err_0.len() > 0);
        if outcome->Err_0.contains(error) {
            let j = choose|j: int|
                0 <= j < results.len() && (#[trigger] results[j]).1 is Err
                    && results[j].1->Err_0.contains(error);
            assert(run.groups[j].result is Err);
        }
        if exists|j: int|
            0 <= j < run.groups.len() && (#[trigger] run.groups[j]).result is Err
                && run.groups[j].result->Err_0.contains(error) {
            let j = choose|j: int|
                0 <= j < run.groups.len() && (#[trigger] run.groups[j]).result is Err
                    && run.groups[j].result->Err_0.contains(error);
            assert(results[j].1 is Err);
        }
    }
}

/// A field is looked up among those at which introspection starts, whatever the object type is, and
/// only then among those of the object type.
pub proof fn introspection_fields_go_first<R1: Resolver, R2: Resolver, C: Coercion>(
    c: ContextView<R1, R2, C>,
    object_type: ObjectType,
    name: Seq<char>,
)
    ensures
        ({
            let starting = field_definition(root_query_type(c.introspection_schema)->0, name);
            let own = field_definition(object_type, name);
            let found = selected_field(c, object_type, name);
            &&& starting is Some ==> found == Some((starting->0, true))
            &&& starting is None && own is Some ==> found == Some((own->0, c.introspecting))
            &&& starting is None && own is None ==> found is None
        }),
{
}

/// The groups of selections are those of the fields that are collected with the fragments of the
/// query, the variables and the schema in use, no fragment having been visited yet.
pub proof fn groups_are_those_of_the_schema_in_use<R1: Resolver, R2: Resolver, C: Coercion>(
    c: ContextView<R1, R2, C>,
    object_type: ObjectType,
    items: Seq<Selection>,
)
    ensures
        c.introspecting ==> c.current_schema() == c.introspection_schema,
        !c.introspecting ==> c.current_schema() == c.schema.document,
        c.introspecting ==> groups_of(c, object_type, items) == grouped(
            collected(
                c.document,
                c.introspection_schema,
                c.variable_values@,
                object_type,
                items,
                Set::empty(),
            ),
        ),
        !c.introspecting ==> groups_of(c, object_type, items) == grouped(
            collected(
                c.document,
                c.schema.document,
                c.variable_values@,
                object_type,
                items,
                Set::empty(),
            ),
        ),
{
}

/// To enter a field changes nothing of a context but that the field is on top of the stack, and
/// whether it is one of the introspection schema.
pub proof fn field_is_entered_on_the_stack<R1: Resolver, R2: Resolver, C: Coercion>(
    c: ContextView<R1, R2, C>,
    field: Arc<Field>,
    introspecting: bool,
)
    ensures
        ({
            let inner = c.entering(field, introspecting);
            &&& inner.fields == c.fields.push(field)
            &&& inner.introspecting == introspecting
            &&& inner.schema == c.schema
            &&& inner.introspection_schema == c.introspection_schema
            &&& inner.document == c.document
            &&& inner.resolver == c.resolver
            &&& inner.introspection_resolver == c.introspection_resolver
            &&& inner.coercion == c.coercion
            &&& inner.variable_values == c.variable_values
            &&& inner.deadline == c.deadline
        }),
{
}

/// The view of a context leaves nothing of it out.
pub proof fn view_leaves_nothing_out<'a, R1, R2, C>(ctx: ExecutionContext<'a, R1, R2, C>) where
    R1: Resolver,
    R2: Resolver,
    C: Coercion,

    ensures
        ctx@.schema == *ctx.schema,
        ctx@.introspection_schema == *ctx.introspection_schema,
        ctx@.document == *ctx.document,
        ctx@.resolver == *ctx.resolver,
        ctx@.introspection_resolver == *ctx.introspection_resolver,
        ctx@.coercion == *ctx.coercion,
        ctx@.fields == ctx.fields@,
        ctx@.introspecting == ctx.introspecting,
        ctx@.variable_values == *ctx.variable_values,
        ctx@.deadline == ctx.deadline,
{
}

/// A part of a query has the groups that belong to it, in their order, and no others.
pub proof fn part_has_the_groups_that_belong_to_it<R1: Resolver, R2: Resolver, C: Coercion>(
    c: ContextView<R1, R2, C>,
    query_type: ObjectType,
    groups: Groups,
    introspecting: bool,
)
    ensures
        root_groups(c, query_type, groups, introspecting) == groups.filter(
            |group: (Seq<char>, Seq<Arc<Field>>)| belongs(c, query_type, group, introspecting),
        ),
    decreases groups.len(),
{
    reveal(Seq::filter);
    if groups.len() > 0 {
        part_has_the_groups_that_belong_to_it(c, query_type, groups.drop_last(), introspecting);
    }
}

/// The first of `fields`.
spec fn first_of(fields: Seq<Arc<Field>>) -> Field {
    *fields[0]
}

/// The errors of unknown fields are in the order of the groups: those of the first come before
/// those of the others, and a group has at most one.
pub proof fn unknown_fields_are_in_order<R1: Resolver, R2: Resolver, C: Coercion>(
    c: ContextView<R1, R2, C>,
    query_type: ObjectType,
    first: Groups,
    second: Groups,
    group: (Seq<char>, Seq<Arc<Field>>),
)
    ensures
        unknown_fields(c, query_type, first + second) == unknown_fields(c, query_type, first)
            + unknown_fields(c, query_type, second),
        unknown_fields(c, query_type, seq![group]).len() == if selected_field(
            c,
            query_type,
            group.1[0].name@,
        ) is None {
            1nat
        } else {
            0nat
        },
    decreases second.len(),
{
    assert(seq![group].drop_last() =~= Seq::empty());
    assert(unknown_fields(c, query_type, seq![group].drop_last()) =~= Seq::empty());
    if second.len() == 0 {
        assert(first + second =~= first);
        assert(unknown_fields(c, query_type, first) + unknown_fields(c, query_type, second)
            =~= unknown_fields(c, query_type, first));
    } else {
        assert((first + second).drop_last() =~= first + second.drop_last());
        unknown_fields_are_in_order(c, query_type, first, second.drop_last(), group);
        assert(unknown_fields(c, query_type, first + second) =~= unknown_fields(
            c,
            query_type,
            first,
        ) + unknown_fields(c, query_type, second));
    }
}

/// A query of a field that exists nowhere is refused without executing anything: each such field is
/// an error, and there is no other error.
pub proof fn query_of_unknown_fields_is_refused<R1: Resolver, R2: Resolver, C: Coercion>(
    c: ContextView<R1, R2, C>,
    query_type: ObjectType,
    items: Seq<Selection>,
    initial_value: Option<Value>,
    data: SetRun,
    introspection: SetRun,
    result: Outcome<Value>,
    i: int,
)
    requires
        runs_root(c, query_type, items, initial_value, data, introspection, result),
        0 <= i < groups_of(c, query_type, items).len(),
        selected_field(
            c,
            query_type,
            groups_of(c, query_type, items)[i].1[0].name@,
        ) is None,
    ensures
        data.groups.len() == 0,
        introspection.groups.len() == 0,
        result is Err,
        forall|error: QueryExecutionError| #[trigger]
            result->Err_0.contains(error) <==> exists|j: int|
                {
                    let group = groups_of(c, query_type, items)[j];
                    &&& 0 <= j < groups_of(c, query_type, items).len()
                    &&& selected_field(
                        c,
                        query_type,
                        (#[trigger] groups_of(c, query_type, items)[j]).1[0].name@,
                    ) is None
                    &&& error == QueryExecutionError::UnknownField(
                        group.1[0].position,
                        query_type.name,
                        group.1[0].name,
                    )
                },
{
    let groups = groups_of(c, query_type, items);
    let unknown = unknown_fields(c, query_type, groups);
    let first = first_of(groups[i].1);
    let error = QueryExecutionError::UnknownField(first.position, query_type.name, first.name);
    unknown_root_fields_are_reported(c, query_type, groups, error);
    assert(groups[i].1[0] == groups[i].1[0]);
    assert(unknown.contains(error));
    assert(unknown.len() > 0);
    assert forall|error: QueryExecutionError| #[trigger]
        result->Err_0.contains(error) <==> exists|j: int|
            {
                let group = groups[j];
                &&& 0 <= j < groups.len()
                &&& selected_field(c, query_type, (#[trigger] groups[j]).1[0].name@) is None
                &&& error == QueryExecutionError::UnknownField(
                    group.1[0].position,
                    query_type.name,
                    group.1[0].name,
                )
            } by {
        unknown_root_fields_are_reported(c, query_type, groups, error);
    }
}

/// Where all fields of a query exist and it has a data part and an introspection part, both are
/// executed on the initial value, the data part first; the introspection part only if the data part
/// succeeds. If a part fails, the query has exactly its errors. Else the response is an object with
/// the values of both parts and nothing else.
pub proof fn both_parts_of_a_query_count<R1: Resolver, R2: Resolver, C: Coercion>(
    c: ContextView<R1, R2, C>,
    query_type: ObjectType,
    items: Seq<Selection>,
    initial_value: Option<Value>,
    data: SetRun,
    introspection: SetRun,
    result: Outcome<Value>,
)
    requires
        runs_root(c, query_type, items, initial_value, data, introspection, result),
        forall|i: int|
            0 <= i < groups_of(c, query_type, items).len() ==> selected_field(
                c,
                query_type,
                (#[trigger] groups_of(c, query_type, items)[i]).1[0].name@,
            ) is Some,
        root_items(c, query_type, groups_of(c, query_type, items), false).len() > 0,
        root_items(c, query_type, groups_of(c, query_type, items), true).len() > 0,
    ensures
        ({
            let groups = groups_of(c, query_type, items);
            let data_items = root_items(c, query_type, groups, false);
            let other_items = root_items(c, query_type, groups, true);
            let data_outcome = set_outcome(
                groups_of(c, query_type, data_items),
                query_type,
                data,
            );
            let other_outcome = set_outcome(
                groups_of(c, query_type, other_items),
                query_type,
                introspection,
            );
            &&& executes_set(c, data_items, query_type, initial_value, data)
            &&& data_outcome is Err ==> introspection.groups.len() == 0 && result is Err
                && result->Err_0 == data_outcome->Err_0
            &&& data_outcome is Ok ==> executes_set(
                c,
                other_items,
                query_type,
                initial_value,
                introspection,
            )
            &&& data_outcome is Ok && other_outcome is Err ==> result is Err && result->Err_0
                == other_outcome->Err_0
            &&& data_outcome is Ok && other_outcome is Ok ==> {
                &&& result is Ok
                &&& result->Ok_0 is Object
                &&& forall|key: Seq<char>| #[trigger]
                    result->Ok_0->Object_0@.contains_key(key)
                        <==> data_outcome->Ok_0.contains_key(key)
                        || other_outcome->Ok_0.contains_key(key)
                &&& forall|key: Seq<char>| #[trigger]
                    other_outcome->Ok_0.contains_key(key) ==> result->Ok_0->Object_0@[key]
                        == other_outcome->Ok_0[key]
                &&& forall|key: Seq<char>| #[trigger]
                    data_outcome->Ok_0.contains_key(key) && !other_outcome->Ok_0.contains_key(key)
                        ==> result->Ok_0->Object_0@[key] == data_outcome->Ok_0[key]
            }
        }),
{
    let groups = groups_of(c, query_type, items);
    let unknown = unknown_fields(c, query_type, groups);
    if unknown.len() > 0 {
        let error = unknown[0];
        assert(unknown.contains(error));
        unknown_root_fields_are_reported(c, query_type, groups, error);
    }
}

/// A query of no fields comes to the one error that nothing was selected of the type at which
/// queries start.
pub proof fn query_of_nothing_is_an_error<R1: Resolver, R2: Resolver, C: Coercion>(
    c: ContextView<R1, R2, C>,
    query_type: ObjectType,
    items: Seq<Selection>,
    initial_value: Option<Value>,
    data: SetRun,
    introspection: SetRun,
    result: Outcome<Value>,
)
    requires
        runs_root(c, query_type, items, initial_value, data, introspection, result),
        groups_of(c, query_type, items).len() == 0,
    ensures
        data.groups.len() == 0,
        introspection.groups.len() == 0,
        result is Err,
        result->Err_0.len() == 1,
        result->Err_0[0] == QueryExecutionError::EmptySelectionSet(query_type.name),
{
    let part = root_items(c, query_type, groups_of(c, query_type, items), true);
    let groups = groups_of(c, query_type, part);
    assert(part =~= Seq::empty());
    parts_of_a_query_keep_its_groups(c, query_type, items, true);
    assert(groups.len() == 0);
    run_fails_with_the_errors_of_its_groups(
        groups,
        query_type,
        introspection,
        QueryExecutionError::EmptySelectionSet(query_type.name),
    );
}

/// Where all fields of a query exist and they all belong to one part, that part is executed on the
/// initial value, and the query comes to what it does.
pub proof fn only_part_of_a_query_counts<R1: Resolver, R2: Resolver, C: Coercion>(
    c: ContextView<R1, R2, C>,
    query_type: ObjectType,
    items: Seq<Selection>,
    initial_value: Option<Value>,
    data: SetRun,
    introspection: SetRun,
    result: Outcome<Value>,
    introspecting: bool,
)
    requires
        runs_root(c, query_type, items, initial_value, data, introspection, result),
        forall|i: int|
            0 <= i < groups_of(c, query_type, items).len() ==> selected_field(
                c,
                query_type,
                (#[trigger] groups_of(c, query_type, items)[i]).1[0].name@,
            ) is Some,
        root_items(c, query_type, groups_of(c, query_type, items), introspecting).len() > 0,
        root_items(c, query_type, groups_of(c, query_type, items), !introspecting).len() == 0,
    ensures
        ({
            let groups = groups_of(c, query_type, items);
            let part = root_items(c, query_type, groups, introspecting);
            let run = if introspecting {
                introspection
            } else {
                data
            };
            let values = set_outcome(groups_of(c, query_type, part), query_type, run);
            &&& executes_set(c, part, query_type, initial_value, run)
            &&& values is Err ==> result is Err && result->Err_0 == values->Err_0
            &&& values is Ok ==> result is Ok && result->Ok_0 is Object && result->Ok_0->Object_0@
                == values->Ok_0
        }),
{
    let groups = groups_of(c, query_type, items);
    let unknown = unknown_fields(c, query_type, groups);
    if unknown.len() > 0 {
        let error = unknown[0];
        assert(unknown.contains(error));
        unknown_root_fields_are_reported(c, query_type, groups, error);
    }
}

} // verus!
