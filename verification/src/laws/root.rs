//! What holds of every execution of a whole query.
use vstd::prelude::*;

use std::sync::Arc;

use crate::collect::collected;
use crate::context::ContextView;
use crate::error::Outcome;
use crate::error::QueryExecutionError;
use crate::field_groups::Groups;
use crate::field_groups::field_with_key;
use crate::field_groups::fields_of_a_new_key_make_a_group;
use crate::field_groups::group_holds_fields_of_its_key;
use crate::field_groups::group_keys_are_distinct;
use crate::field_groups::grouped;
use crate::field_groups::has_group;
use crate::field_groups::keys_of;
use crate::laws::collection::collected_fields_are_active;
use crate::laws::collection::fields_select_themselves;
use crate::laws::execution::failures_have_errors;
use crate::laws::execution::failures_with_errors_are_loud;
use crate::laws::execution::lemma_object_shaped;
use crate::laws::execution::loud_set;
use crate::laws::execution::object_shaped;
use crate::laws::execution::shaped;
use crate::laws::execution::values_have_the_shape_of_the_selections;
use crate::laws::execution::values_shaped;
use crate::query::Field;
use crate::query::Selection;
use crate::query::active;
use crate::query::response_key;
use crate::resolver::Coercion;
use crate::resolver::Resolver;
use crate::run::as_object;
use crate::run::as_selections;
use crate::run::SetRun;
use crate::run::executes_root;
use crate::run::executes_set;
use crate::run::groups_of;
use crate::run::root_items;
use crate::run::selected_field;
use crate::run::runs_root;
use crate::run::set_outcome;
use crate::run::set_yields;
use crate::run::unknown_field;
use crate::run::unknown_fields;
use crate::schema::ObjectType;
use crate::value::Value;

verus! {

/// Whether the field of the group `group` exists, and belongs to the introspection schema or not.
pub open spec fn belongs<R1: Resolver, R2: Resolver, C: Coercion>(
    c: ContextView<R1, R2, C>,
    query_type: ObjectType,
    group: (Seq<char>, Seq<Arc<Field>>),
    introspecting: bool,
) -> bool {
    selected_field(c, query_type, group.1[0].name@) matches Some((_, flag)) && flag
        == introspecting
}

/// The groups among `groups` that belong to the introspection schema, or those that do not.
pub open spec fn root_groups<R1: Resolver, R2: Resolver, C: Coercion>(
    c: ContextView<R1, R2, C>,
    query_type: ObjectType,
    groups: Groups,
    introspecting: bool,
) -> Groups
    decreases groups.len(),
{
    if groups.len() == 0 {
        Seq::empty()
    } else {
        let before = root_groups(c, query_type, groups.drop_last(), introspecting);
        if belongs(c, query_type, groups.last(), introspecting) {
            before.push(groups.last())
        } else {
            before
        }
    }
}

/// The fields of these groups.
spec fn root_fields<R1: Resolver, R2: Resolver, C: Coercion>(
    c: ContextView<R1, R2, C>,
    query_type: ObjectType,
    groups: Groups,
    introspecting: bool,
) -> Seq<Arc<Field>>
    decreases groups.len(),
{
    if groups.len() == 0 {
        Seq::empty()
    } else {
        let before = root_fields(c, query_type, groups.drop_last(), introspecting);
        if belongs(c, query_type, groups.last(), introspecting) {
            before + groups.last().1
        } else {
            before
        }
    }
}

/// Whether `groups` are groups of fields by their response keys, with no key twice.
spec fn proper_groups(groups: Groups) -> bool {
    &&& forall|i: int| 0 <= i < groups.len() ==> (#[trigger] groups[i]).1.len() > 0
    &&& forall|i: int, j: int|
        0 <= i < groups.len() && 0 <= j < groups[i].1.len() ==> response_key(
            *#[trigger] groups[i].1[j],
        )@ == groups[i].0
    &&& forall|i: int, j: int|
        0 <= i < j < groups.len() ==> (#[trigger] groups[i]).0 != (#[trigger] groups[j]).0
}

/// The groups that belong to a part of a query are made by the fields of that part.
proof fn lemma_root_groups<R1: Resolver, R2: Resolver, C: Coercion>(
    c: ContextView<R1, R2, C>,
    query_type: ObjectType,
    groups: Groups,
    introspecting: bool,
)
    requires
        proper_groups(groups),
    ensures
        grouped(root_fields(c, query_type, groups, introspecting)) == root_groups(
            c,
            query_type,
            groups,
            introspecting,
        ),
        root_items(c, query_type, groups, introspecting) == as_selections(
            root_fields(c, query_type, groups, introspecting),
        ),
        forall|k: int|
            0 <= k < root_fields(c, query_type, groups, introspecting).len() ==> exists|
                i: int,
                j: int,
            |
                0 <= i < groups.len() && 0 <= j < groups[i].1.len() && #[trigger] groups[i].1[j]
                    == #[trigger] root_fields(c, query_type, groups, introspecting)[k],
    decreases groups.len(),
{
    let fields = root_fields(c, query_type, groups, introspecting);
    if groups.len() == 0 {
        assert(grouped(fields) =~= root_groups(c, query_type, groups, introspecting));
        assert(root_items(c, query_type, groups, introspecting) =~= as_selections(fields));
    } else {
        let rest = groups.drop_last();
        let (key, last) = groups.last();
        let before = root_fields(c, query_type, rest, introspecting);
        assert(proper_groups(rest)) by {
            assert forall|i: int, j: int|
                0 <= i < rest.len() && 0 <= j < rest[i].1.len() implies response_key(
                *#[trigger] rest[i].1[j],
            )@ == rest[i].0 by {
                assert(response_key(*groups[i].1[j])@ == groups[i].0);
            }
        }
        lemma_root_groups(c, query_type, rest, introspecting);
        assert forall|k: int| 0 <= k < before.len() implies exists|i: int, j: int|
            0 <= i < groups.len() - 1 && 0 <= j < groups[i].1.len() && #[trigger] groups[i].1[j]
                == #[trigger] before[k] by {
            let (i, j) = choose|i: int, j: int|
                0 <= i < rest.len() && 0 <= j < rest[i].1.len() && #[trigger] rest[i].1[j]
                    == before[k];
            assert(groups[i].1[j] == before[k]);
        }
        if belongs(c, query_type, groups.last(), introspecting) {
            assert(!keys_of(before).contains(key)) by {
                if keys_of(before).contains(key) {
                    let k = keys_of(before).index_of(key);
                    let (i, j) = choose|i: int, j: int|
                        0 <= i < groups.len() - 1 && 0 <= j < groups[i].1.len()
                            && #[trigger] groups[i].1[j] == before[k];
                    assert(response_key(*groups[i].1[j])@ == groups[i].0);
                    assert(groups[i].0 != groups[groups.len() - 1].0);
                }
            }
            assert forall|j: int| 0 <= j < last.len() implies response_key(*#[trigger] last[j])@
                == key by {
                assert(response_key(*groups[groups.len() - 1].1[j])@ == key);
            }
            assert(groups[groups.len() - 1].1.len() > 0);
            fields_of_a_new_key_make_a_group(before, last, key);
            assert(as_selections(before) + as_selections(last) =~= as_selections(before + last));
            assert forall|k: int| 0 <= k < fields.len() implies exists|i: int, j: int|
                0 <= i < groups.len() && 0 <= j < groups[i].1.len() && #[trigger] groups[i].1[j]
                    == #[trigger] fields[k] by {
                if k < before.len() {
                    assert(fields[k] == before[k]);
                } else {
                    assert(groups[groups.len() - 1].1[k - before.len()] == fields[k]);
                }
            }
        }
    }
}

/// What the groups of a part of a query are.
proof fn lemma_root_groups_contain<R1: Resolver, R2: Resolver, C: Coercion>(
    c: ContextView<R1, R2, C>,
    query_type: ObjectType,
    groups: Groups,
    introspecting: bool,
)
    ensures
        forall|group: (Seq<char>, Seq<Arc<Field>>)| #[trigger]
            root_groups(c, query_type, groups, introspecting).contains(group) <==> (groups.contains(
                group,
            ) && belongs(c, query_type, group, introspecting)),
    decreases groups.len(),
{
    if groups.len() == 0 {
        assert forall|group: (Seq<char>, Seq<Arc<Field>>)| !groups.contains(group) by {}
    } else {
        let rest = groups.drop_last();
        let last = groups.last();
        let before = root_groups(c, query_type, rest, introspecting);
        lemma_root_groups_contain(c, query_type, rest, introspecting);
        assert forall|group: (Seq<char>, Seq<Arc<Field>>)| #[trigger]
            root_groups(c, query_type, groups, introspecting).contains(group) <==> (groups.contains(
                group,
            ) && belongs(c, query_type, group, introspecting)) by {
            assert(rest.push(last) =~= groups);
            lemma_push_contains(rest, last, group);
            lemma_push_contains(before, last, group);
            assert(before.contains(group) <==> (rest.contains(group) && belongs(
                c,
                query_type,
                group,
                introspecting,
            )));
        }
    }
}

/// What groups hold after one has been put behind them.
proof fn lemma_push_contains(
    groups: Groups,
    last: (Seq<char>, Seq<Arc<Field>>),
    group: (Seq<char>, Seq<Arc<Field>>),
)
    ensures
        groups.push(last).contains(group) == (groups.contains(group) || group == last),
{
    let after = groups.push(last);
    assert(after[groups.len() as int] == last);
    if groups.contains(group) {
        assert(after[groups.index_of(group)] == group);
    }
    if after.contains(group) {
        let i = after.index_of(group);
        if i < groups.len() {
            assert(groups[i] == group);
        }
    }
}

/// The parts into which a query is split keep its field groups: each part has the groups that
/// belong to it, in their order.
pub proof fn parts_of_a_query_keep_its_groups<R1: Resolver, R2: Resolver, C: Coercion>(
    c: ContextView<R1, R2, C>,
    query_type: ObjectType,
    items: Seq<Selection>,
    introspecting: bool,
)
    ensures
        ({
            let groups = groups_of(c, query_type, items);
            groups_of(c, query_type, root_items(c, query_type, groups, introspecting))
                == root_groups(c, query_type, groups, introspecting)
        }),
{
    let all = collected(
        c.document,
        c.current_schema(),
        c.variable_values@,
        query_type,
        items,
        Set::empty(),
    );
    let groups = groups_of(c, query_type, items);
    assert forall|i: int| 0 <= i < groups.len() implies (#[trigger] groups[i]).1.len() > 0 by {
        group_holds_fields_of_its_key(all, i);
    }
    assert forall|i: int, j: int|
        0 <= i < groups.len() && 0 <= j < groups[i].1.len() implies all.contains(
        #[trigger] groups[i].1[j],
    ) && response_key(*groups[i].1[j])@ == groups[i].0 by {
        field_with_key(all, i, j);
    }
    assert forall|i: int, j: int| 0 <= i < j < groups.len() implies (#[trigger] groups[i]).0 != (
    #[trigger] groups[j]).0 by {
        group_keys_are_distinct(all, i, j);
    }
    assert(proper_groups(groups));
    lemma_root_groups(c, query_type, groups, introspecting);
    let fields = root_fields(c, query_type, groups, introspecting);
    assert forall|k: int| 0 <= k < fields.len() implies active(
        Selection::Field(#[trigger] fields[k]),
        c.variable_values@,
    ) by {
        let (i, j) = choose|i: int, j: int|
            0 <= i < groups.len() && 0 <= j < groups[i].1.len() && #[trigger] groups[i].1[j]
                == fields[k];
        let n = all.index_of(groups[i].1[j]);
        collected_fields_are_active(
            c.document,
            c.current_schema(),
            c.variable_values@,
            query_type,
            items,
            Set::empty(),
            n,
        );
    }
    fields_select_themselves(
        c.document,
        c.current_schema(),
        c.variable_values@,
        query_type,
        fields,
        Set::empty(),
    );
}

/// All the fields that the type at which queries start does not have are reported, and nothing else
/// is reported with them.
pub proof fn unknown_root_fields_are_reported<R1: Resolver, R2: Resolver, C: Coercion>(
    c: ContextView<R1, R2, C>,
    query_type: ObjectType,
    groups: Groups,
    error: QueryExecutionError,
)
    ensures
        unknown_fields(c, query_type, groups).contains(error) <==> exists|i: int|
            0 <= i < groups.len() && selected_field(
                c,
                query_type,
                (#[trigger] groups[i]).1[0].name@,
            ) is None && error == unknown_field(query_type, *groups[i].1[0]),
    decreases groups.len(),
{
    if groups.len() > 0 {
        let rest = groups.drop_last();
        let before = unknown_fields(c, query_type, rest);
        let after = unknown_fields(c, query_type, groups);
        let n = groups.len() - 1;
        unknown_root_fields_are_reported(c, query_type, rest, error);
        assert(groups[n] == groups.last());
        if after.contains(error) {
            let k = after.index_of(error);
            if k < before.len() {
                assert(before[k] == error);
                let i = choose|i: int|
                    0 <= i < rest.len() && selected_field(
                        c,
                        query_type,
                        (#[trigger] rest[i]).1[0].name@,
                    ) is None && error == unknown_field(query_type, *rest[i].1[0]);
                assert(groups[i] == rest[i]);
            } else {
                assert(selected_field(c, query_type, groups[n].1[0].name@) is None);
            }
        }
        if exists|i: int|
            0 <= i < groups.len() && selected_field(
                c,
                query_type,
                (#[trigger] groups[i]).1[0].name@,
            ) is None && error == unknown_field(query_type, *groups[i].1[0]) {
            let i = choose|i: int|
                0 <= i < groups.len() && selected_field(
                    c,
                    query_type,
                    (#[trigger] groups[i]).1[0].name@,
                ) is None && error == unknown_field(query_type, *groups[i].1[0]);
            if i < n {
                assert(rest[i] == groups[i]);
                assert(before.contains(error));
                let k = before.index_of(error);
                assert(after[k] == error);
            } else {
                assert(after[before.len() as int] == error);
            }
        }
    }
}

/// A query that fails says why: it has at least one error.
pub proof fn failed_query_has_an_error<R1: Resolver, R2: Resolver, C: Coercion>(
    c: ContextView<R1, R2, C>,
    query_type: ObjectType,
    items: Seq<Selection>,
    initial_value: Option<Value>,
    errors: Seq<QueryExecutionError>,
)
    requires
        executes_root(c, query_type, items, initial_value, Err(errors)),
    ensures
        errors.len() > 0,
{
}

/// Whether no field group of the parts of a query fails without an error in the runs `data` and
/// `introspection` of these parts, nor one of an object that they come to.
pub open spec fn loud_root<R1: Resolver, R2: Resolver, C: Coercion>(
    c: ContextView<R1, R2, C>,
    query_type: ObjectType,
    items: Seq<Selection>,
    data: SetRun,
    introspection: SetRun,
) -> bool {
    let groups = groups_of(c, query_type, items);
    let data_items = root_items(c, query_type, groups, false);
    let introspection_items = root_items(c, query_type, groups, true);
    &&& data_items.len() > 0 ==> loud_set(c, data_items, query_type, data)
    &&& introspection_items.len() > 0 ==> loud_set(
        c,
        introspection_items,
        query_type,
        introspection,
    )
}

/// Where the resolvers give at least one error whenever they fail, no group of a query that
/// succeeds fails without one.
pub proof fn failures_with_errors_make_loud_queries<R1: Resolver, R2: Resolver, C: Coercion>(
    c: ContextView<R1, R2, C>,
    query_type: ObjectType,
    items: Seq<Selection>,
    initial_value: Option<Value>,
    data: SetRun,
    introspection: SetRun,
    response: Value,
)
    requires
        failures_have_errors(c),
        runs_root(c, query_type, items, initial_value, data, introspection, Ok(response)),
    ensures
        loud_root(c, query_type, items, data, introspection),
{
    let groups = groups_of(c, query_type, items);
    let data_items = root_items(c, query_type, groups, false);
    let introspection_items = root_items(c, query_type, groups, true);
    if data_items.len() > 0 {
        failures_with_errors_are_loud(c, data_items, query_type, initial_value, data);
    }
    if introspection_items.len() > 0 {
        failures_with_errors_are_loud(
            c,
            introspection_items,
            query_type,
            initial_value,
            introspection,
        );
    }
}

/// The response to a query is an object of its shape, though its data fields and its introspection
/// fields are executed apart. No key is missing, at any level, if no group fails without an error.
pub proof fn response_has_the_shape_of_the_query<R1: Resolver, R2: Resolver, C: Coercion>(
    c: ContextView<R1, R2, C>,
    query_type: ObjectType,
    items: Seq<Selection>,
    initial_value: Option<Value>,
    data: SetRun,
    introspection: SetRun,
    response: Value,
    whole: bool,
)
    requires
        runs_root(c, query_type, items, initial_value, data, introspection, Ok(response)),
        whole ==> loud_root(c, query_type, items, data, introspection),
    ensures
        object_shaped(c, whole, query_type, items, response),
{
    let groups = groups_of(c, query_type, items);
    let data_items = root_items(c, query_type, groups, false);
    let introspection_items = root_items(c, query_type, groups, true);
    parts_of_a_query_keep_its_groups(c, query_type, items, false);
    parts_of_a_query_keep_its_groups(c, query_type, items, true);
    lemma_distinct_groups(c, query_type, items);
    lemma_each_group_belongs(c, query_type, groups);
    let values = response->Object_0@;
    let none = Map::<Seq<char>, Value>::empty();
    if data_items.len() == 0 {
        if introspection_items.len() == 0 {
            assert(groups_of(c, query_type, introspection_items) =~= Seq::empty());
        }
        values_have_the_shape_of_the_selections(
            c,
            introspection_items,
            query_type,
            initial_value,
            introspection,
            values,
            whole,
        );
        lemma_no_items(c, query_type, data_items, whole);
        lemma_parts_shaped(c, query_type, groups, none, values, whole);
        assert(none.union_prefer_right(values) =~= values);
    } else if introspection_items.len() == 0 {
        values_have_the_shape_of_the_selections(
            c,
            data_items,
            query_type,
            initial_value,
            data,
            values,
            whole,
        );
        lemma_no_items(c, query_type, introspection_items, whole);
        lemma_parts_shaped(c, query_type, groups, values, none, whole);
        assert(values.union_prefer_right(none) =~= values);
    } else {
        let data_values = set_outcome(
            groups_of(c, query_type, data_items),
            query_type,
            data,
        )->Ok_0;
        let introspection_values = set_outcome(
            groups_of(c, query_type, introspection_items),
            query_type,
            introspection,
        )->Ok_0;
        values_have_the_shape_of_the_selections(
            c,
            data_items,
            query_type,
            initial_value,
            data,
            data_values,
            whole,
        );
        values_have_the_shape_of_the_selections(
            c,
            introspection_items,
            query_type,
            initial_value,
            introspection,
            introspection_values,
            whole,
        );
        lemma_parts_shaped(
            c,
            query_type,
            groups,
            data_values,
            introspection_values,
            whole,
        );
    }
    lemma_object_shaped(c, whole, query_type, items, response);
}

/// A query whose fields all belong to one part is executed as its plain selection set.
pub proof fn query_of_one_part_is_its_selection_set<R1: Resolver, R2: Resolver, C: Coercion>(
    c: ContextView<R1, R2, C>,
    query_type: ObjectType,
    items: Seq<Selection>,
    initial_value: Option<Value>,
    result: Outcome<Value>,
    introspecting: bool,
)
    requires
        forall|i: int|
            0 <= i < groups_of(c, query_type, items).len() ==> belongs(
                c,
                query_type,
                #[trigger] groups_of(c, query_type, items)[i],
                introspecting,
            ),
    ensures
        executes_root(c, query_type, items, initial_value, result) <==> exists|
            values: Outcome<Map<Seq<char>, Value>>,
        | #[trigger]
            set_yields(c, items, query_type, initial_value, values) && as_object(values, result),
{
    let groups = groups_of(c, query_type, items);
    let part = root_items(c, query_type, groups, introspecting);
    let other = root_items(c, query_type, groups, !introspecting);
    parts_of_a_query_keep_its_groups(c, query_type, items, introspecting);
    lemma_one_part(c, query_type, groups, introspecting);
    if executes_root(c, query_type, items, initial_value, result) {
        let (data, introspection) = choose|data: SetRun, introspection: SetRun| #[trigger]
            runs_root(c, query_type, items, initial_value, data, introspection, result);
        let run = if introspecting || part.len() == 0 {
            introspection
        } else {
            data
        };
        lemma_same_run(c, query_type, items, part, other, initial_value, run);
        assert(executes_set(c, items, query_type, initial_value, run));
        assert(set_yields(
            c,
            items,
            query_type,
            initial_value,
            set_outcome(groups, query_type, run),
        ));
    }
    if exists|values: Outcome<Map<Seq<char>, Value>>| #[trigger]
        set_yields(c, items, query_type, initial_value, values) && as_object(values, result) {
        let values = choose|values: Outcome<Map<Seq<char>, Value>>| #[trigger]
            set_yields(c, items, query_type, initial_value, values) && as_object(values, result);
        let run = choose|run: SetRun|
            #![trigger executes_set(c, items, query_type, initial_value, run)]
            executes_set(c, items, query_type, initial_value, run) && values == set_outcome(
                groups,
                query_type,
                run,
            );
        lemma_same_run(c, query_type, items, part, other, initial_value, run);
        let no_run = SetRun { groups: Seq::empty() };
        if introspecting || part.len() == 0 {
            assert(runs_root(c, query_type, items, initial_value, no_run, run, result));
        } else {
            assert(runs_root(c, query_type, items, initial_value, run, no_run, result));
        }
    }
}

/// Where a query has no part but one, its runs are those of that part; and where it has none, those
/// of the other as well.
proof fn lemma_same_run<R1: Resolver, R2: Resolver, C: Coercion>(
    c: ContextView<R1, R2, C>,
    query_type: ObjectType,
    items: Seq<Selection>,
    part: Seq<Selection>,
    other: Seq<Selection>,
    initial_value: Option<Value>,
    run: SetRun,
)
    requires
        groups_of(c, query_type, part) == groups_of(c, query_type, items),
        other.len() == 0,
    ensures
        executes_set(c, items, query_type, initial_value, run) == executes_set(
            c,
            part,
            query_type,
            initial_value,
            run,
        ),
        part.len() == 0 ==> executes_set(c, part, query_type, initial_value, run) == executes_set(
            c,
            other,
            query_type,
            initial_value,
            run,
        ) && groups_of(c, query_type, other) == groups_of(c, query_type, items),
{
    if part.len() == 0 {
        assert(part =~= other);
    }
}

/// Where all groups belong to one part, that part has all of them, and the other part nothing.
proof fn lemma_one_part<R1: Resolver, R2: Resolver, C: Coercion>(
    c: ContextView<R1, R2, C>,
    query_type: ObjectType,
    groups: Groups,
    introspecting: bool,
)
    requires
        forall|i: int|
            0 <= i < groups.len() ==> belongs(c, query_type, #[trigger] groups[i], introspecting),
    ensures
        root_groups(c, query_type, groups, introspecting) == groups,
        root_items(c, query_type, groups, !introspecting).len() == 0,
        unknown_fields(c, query_type, groups).len() == 0,
    decreases groups.len(),
{
    if groups.len() > 0 {
        let rest = groups.drop_last();
        assert forall|i: int| 0 <= i < rest.len() implies belongs(
            c,
            query_type,
            #[trigger] rest[i],
            introspecting,
        ) by {
            assert(rest[i] == groups[i]);
        }
        lemma_one_part(c, query_type, rest, introspecting);
        assert(belongs(c, query_type, groups[groups.len() - 1], introspecting));
        assert(rest.push(groups.last()) =~= groups);
    } else {
        assert(root_groups(c, query_type, groups, introspecting) =~= groups);
    }
}

/// The groups of selections have distinct keys.
proof fn lemma_distinct_groups<R1: Resolver, R2: Resolver, C: Coercion>(
    c: ContextView<R1, R2, C>,
    query_type: ObjectType,
    items: Seq<Selection>,
)
    ensures
        forall|i: int, j: int|
            0 <= i < j < groups_of(c, query_type, items).len() ==> (#[trigger] groups_of(
                c,
                query_type,
                items,
            )[i]).0 != (#[trigger] groups_of(c, query_type, items)[j]).0,
{
    let groups = groups_of(c, query_type, items);
    assert forall|i: int, j: int| 0 <= i < j < groups.len() implies (#[trigger] groups[i]).0 != (
    #[trigger] groups[j]).0 by {
        group_keys_are_distinct(
            collected(
                c.document,
                c.current_schema(),
                c.variable_values@,
                query_type,
                items,
                Set::empty(),
            ),
            i,
            j,
        );
    }
}

/// Where no field is unknown, each group belongs to a part.
proof fn lemma_each_group_belongs<R1: Resolver, R2: Resolver, C: Coercion>(
    c: ContextView<R1, R2, C>,
    query_type: ObjectType,
    groups: Groups,
)
    requires
        unknown_fields(c, query_type, groups).len() == 0,
    ensures
        forall|i: int|
            0 <= i < groups.len() ==> belongs(c, query_type, #[trigger] groups[i], true)
                || belongs(c, query_type, groups[i], false),
{
    assert forall|i: int| 0 <= i < groups.len() implies belongs(
        c,
        query_type,
        #[trigger] groups[i],
        true,
    ) || belongs(c, query_type, groups[i], false) by {
        if selected_field(c, query_type, groups[i].1[0].name@) is None {
            unknown_root_fields_are_reported(
                c,
                query_type,
                groups,
                unknown_error(query_type, groups[i]),
            );
        }
    }
}

/// Where nothing is selected, there is nothing to be shaped.
proof fn lemma_no_items<R1: Resolver, R2: Resolver, C: Coercion>(
    c: ContextView<R1, R2, C>,
    query_type: ObjectType,
    items: Seq<Selection>,
    whole: bool,
)
    requires
        items.len() == 0,
    ensures
        values_shaped(c, whole, query_type, groups_of(c, query_type, items), Map::empty()),
{
    assert(groups_of(c, query_type, items) =~= Seq::empty());
}

/// Where the values of both parts of a query have its shape, both together have.
proof fn lemma_parts_shaped<R1: Resolver, R2: Resolver, C: Coercion>(
    c: ContextView<R1, R2, C>,
    query_type: ObjectType,
    groups: Groups,
    data: Map<Seq<char>, Value>,
    introspection: Map<Seq<char>, Value>,
    whole: bool,
)
    requires
        forall|i: int, j: int|
            0 <= i < j < groups.len() ==> (#[trigger] groups[i]).0 != (#[trigger] groups[j]).0,
        forall|i: int|
            0 <= i < groups.len() ==> belongs(c, query_type, #[trigger] groups[i], true)
                || belongs(c, query_type, groups[i], false),
        values_shaped(c, whole, query_type, root_groups(c, query_type, groups, false), data),
        values_shaped(
            c,
            whole,
            query_type,
            root_groups(c, query_type, groups, true),
            introspection,
        ),
    ensures
        values_shaped(
            c,
            whole,
            query_type,
            groups,
            data.union_prefer_right(introspection),
        ),
{
    let data_groups = root_groups(c, query_type, groups, false);
    let introspection_groups = root_groups(c, query_type, groups, true);
    let values = data.union_prefer_right(introspection);
    lemma_root_groups_contain(c, query_type, groups, false);
    lemma_root_groups_contain(c, query_type, groups, true);
    assert forall|i: int| 0 <= i < groups.len() implies match selected_field(
        c,
        query_type,
        (#[trigger] groups[i]).1[0].name@,
    ) {
        Some((definition, introspecting)) => if values.contains_key(groups[i].0) {
            shaped(
                c.entering(groups[i].1[0], introspecting),
                whole,
                definition.field_type,
                groups[i].1,
                values[groups[i].0],
            )
        } else {
            !whole
        },
        None => false,
    } by {
        let group = groups[i];
        assert(groups.contains(group));
        if belongs(c, query_type, group, true) {
            lemma_not_in_other(c, query_type, groups, i, false, data, whole);
            assert(introspection_groups.contains(group));
            let k = introspection_groups.index_of(group);
            assert(introspection_groups[k] == group);
        } else {
            lemma_not_in_other(c, query_type, groups, i, true, introspection, whole);
            assert(data_groups.contains(group));
            let k = data_groups.index_of(group);
            assert(data_groups[k] == group);
        }
    }
    assert forall|key: Seq<char>| #[trigger] values.contains_key(key) implies has_group(
        groups,
        key,
    ) by {
        let part = if introspection.contains_key(key) {
            introspection_groups
        } else {
            data_groups
        };
        let k = choose|k: int| 0 <= k < part.len() && (#[trigger] part[k]).0 == key;
        assert(part.contains(part[k]));
        let j = groups.index_of(part[k]);
        assert(groups[j].0 == key);
    }
}

/// The values of a part have no key of a group that belongs to the other part.
proof fn lemma_not_in_other<R1: Resolver, R2: Resolver, C: Coercion>(
    c: ContextView<R1, R2, C>,
    query_type: ObjectType,
    groups: Groups,
    i: int,
    introspecting: bool,
    values: Map<Seq<char>, Value>,
    whole: bool,
)
    requires
        forall|i: int, j: int|
            0 <= i < j < groups.len() ==> (#[trigger] groups[i]).0 != (#[trigger] groups[j]).0,
        0 <= i < groups.len(),
        !belongs(c, query_type, groups[i], introspecting),
        values_shaped(
            c,
            whole,
            query_type,
            root_groups(c, query_type, groups, introspecting),
            values,
        ),
    ensures
        !values.contains_key(groups[i].0),
{
    let part = root_groups(c, query_type, groups, introspecting);
    lemma_root_groups_contain(c, query_type, groups, introspecting);
    if values.contains_key(groups[i].0) {
        let k = choose|k: int| 0 <= k < part.len() && (#[trigger] part[k]).0 == groups[i].0;
        assert(part.contains(part[k]));
        let j = groups.index_of(part[k]);
        assert(groups[j] == part[k]);
        assert(i != j);
    }
}

/// The error that the field of `group` does not exist.
spec fn unknown_error(
    query_type: ObjectType,
    group: (Seq<char>, Seq<Arc<Field>>),
) -> QueryExecutionError {
    unknown_field(query_type, *group.1[0])
}

} // verus!
