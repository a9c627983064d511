//! What an execution does, answer by answer.
//!
//! An execution asks resolvers for values, a coercion for arguments, and the clock for the time. A
//! run records the answers and what was made of them; whether a run is one of a given query is
//! decided node by node, and its outcome follows from it.
use vstd::prelude::*;

use std::sync::Arc;
use std::time::Instant;

use crate::clock::clock_answer;
use crate::clock::taken;
use crate::clock::timed_out;
use crate::coerce::Coerced;
use crate::coerce::arguments_coerced;
use crate::coerce::arguments_combined;
use crate::collect::collected;
use crate::context::ContextView;
use crate::error::Outcome;
use crate::error::QueryExecutionError;
use crate::field_groups::Groups;
use crate::field_groups::grouped;
use crate::merge::merged_items;
use crate::name_map::NameMap;
use crate::query::Field;
use crate::query::Selection;
use crate::resolve::resolves;
use crate::resolver::Coercion;
use crate::resolver::Resolver;
use crate::schema::FieldDefinition;
use crate::schema::ObjectType;
use crate::schema::Type;
use crate::schema::TypeDefinition;
use crate::schema::field_definition;
use crate::schema::named_type;
use crate::schema::root_query_type;
use crate::value::Value;

verus! {

/// The run of a selection set: the runs of its field groups, up to the last that was begun.
pub struct SetRun {
    pub groups: Seq<GroupRun>,
}

/// The run of a field group.
pub struct GroupRun {
    /// What the clock was read as for this group, if there is a deadline.
    pub reading: Option<Instant>,
    /// By how many nanoseconds the deadline had passed by that reading.
    pub overdue: u128,
    /// The run of the field, if it was executed.
    pub field: Option<FieldRun>,
    pub result: Outcome<Value>,
}

/// The run of a field.
pub struct FieldRun {
    /// What the coercion of each argument came to.
    pub answers: Seq<Coerced>,
    /// What the arguments came to together.
    pub arguments: Outcome<NameMap<Value>>,
    /// What the field was resolved into, if its arguments are valid.
    pub resolved: Outcome<Value>,
    /// How that value was completed, if there is one.
    pub completion: Completion,
}

/// How a value was completed.
pub enum Completion {
    /// Without further steps.
    Direct,
    /// As a value of the type without its non-null mark, with what that came to.
    NonNull(Outcome<Value>, Box<Completion>),
    /// Item by item, up to the first error, with what each came to.
    Items(Seq<(Outcome<Value>, Completion)>),
    /// As an object.
    Object(SetRun),
    /// As an object of the type that the resolver found, if it found one.
    Abstract(Option<ObjectType>, SetRun),
}

/// The definition of the field `name` of `object_type`, and whether it belongs to the introspection
/// schema. The fields at which introspection queries start can be selected everywhere.
pub open spec fn selected_field<R1: Resolver, R2: Resolver, C: Coercion>(
    c: ContextView<R1, R2, C>,
    object_type: ObjectType,
    name: Seq<char>,
) -> Option<(FieldDefinition, bool)> {
    match field_definition(root_query_type(c.introspection_schema)->0, name) {
        Some(definition) => Some((definition, true)),
        None => match field_definition(object_type, name) {
            Some(definition) => Some((definition, c.introspecting)),
            None => None,
        },
    }
}

/// The error that `object_type` does not have the field `field`.
pub open spec fn unknown_field(object_type: ObjectType, field: Field) -> QueryExecutionError {
    QueryExecutionError::UnknownField(field.position, object_type.name, field.name)
}

/// The field groups of the selections `items` on `object_type`.
pub open spec fn groups_of<R1: Resolver, R2: Resolver, C: Coercion>(
    c: ContextView<R1, R2, C>,
    object_type: ObjectType,
    items: Seq<Selection>,
) -> Groups {
    grouped(
        collected(
            c.document,
            c.current_schema(),
            c.variable_values@,
            object_type,
            items,
            Set::empty(),
        ),
    )
}

/// All the errors among `results`, in their order.
pub open spec fn errors_of(results: Seq<(Seq<char>, Outcome<Value>)>) -> Seq<QueryExecutionError>
    decreases results.len(),
{
    if results.len() == 0 {
        Seq::empty()
    } else {
        match results.last().1 {
            Err(errors) => errors_of(results.drop_last()) + errors,
            Ok(_) => errors_of(results.drop_last()),
        }
    }
}

/// The values among `results`, each under its response key.
pub open spec fn values_of(results: Seq<(Seq<char>, Outcome<Value>)>) -> Map<Seq<char>, Value>
    decreases results.len(),
{
    if results.len() == 0 {
        Map::empty()
    } else {
        match results.last().1 {
            Ok(value) => values_of(results.drop_last()).insert(results.last().0, value),
            Err(_) => values_of(results.drop_last()),
        }
    }
}

/// What the results of the fields of an object come to: the values by response key, or all the
/// errors if there is any. To have no value at all is an error.
pub open spec fn combined(
    object_type: ObjectType,
    results: Seq<(Seq<char>, Outcome<Value>)>,
) -> Outcome<Map<Seq<char>, Value>> {
    if errors_of(results).len() > 0 {
        Err(errors_of(results))
    } else if values_of(results) == Map::<Seq<char>, Value>::empty() {
        Err(seq![QueryExecutionError::EmptySelectionSet(object_type.name)])
    } else {
        Ok(values_of(results))
    }
}

/// The results of `runs`, each with the response key of its group.
pub open spec fn results_of(groups: Groups, runs: Seq<GroupRun>) -> Seq<
    (Seq<char>, Outcome<Value>),
> {
    Seq::new(runs.len(), |i: int| (groups[i].0, runs[i].result))
}

/// What the run of a selection set comes to.
pub open spec fn set_outcome(groups: Groups, object_type: ObjectType, run: SetRun) -> Outcome<
    Map<Seq<char>, Value>,
> {
    combined(object_type, results_of(groups, run.groups))
}

/// Whether `result` is the object that `values` are, or its errors are those of `values`.
pub open spec fn as_object(values: Outcome<Map<Seq<char>, Value>>, result: Outcome<Value>) -> bool {
    match values {
        Ok(map) => result matches Ok(Value::Object(object)) && object@ == map,
        Err(errors) => result == Err::<Value, _>(errors),
    }
}

/// Whether `run` is a run of the selections `items` on an object of type `object_type`. The field
/// groups are executed in their order, and none after one that finds the deadline passed.
pub open spec fn executes_set<R1: Resolver, R2: Resolver, C: Coercion>(
    c: ContextView<R1, R2, C>,
    items: Seq<Selection>,
    object_type: ObjectType,
    object_value: Option<Value>,
    run: SetRun,
) -> bool
    decreases run,
{
    let groups = groups_of(c, object_type, items);
    &&& run.groups.len() <= groups.len()
    &&& forall|i: int|
        0 <= i < run.groups.len() ==> executes_group(
            c,
            object_type,
            object_value,
            groups[i].1,
            #[trigger] run.groups[i],
        )
    &&& forall|i: int|
        0 <= i < run.groups.len() - 1 ==> !timed_out(c.deadline, #[trigger] run.groups[i].overdue)
    &&& run.groups.len() < groups.len() ==> run.groups.len() > 0 && timed_out(
        c.deadline,
        run.groups.last().overdue,
    )
}

/// Whether `run` is a run of the field group `fields` on an object of type `object_type`. It is the
/// first field of the group that is executed, with the selections of all.
pub open spec fn executes_group<R1: Resolver, R2: Resolver, C: Coercion>(
    c: ContextView<R1, R2, C>,
    object_type: ObjectType,
    object_value: Option<Value>,
    fields: Seq<Arc<Field>>,
    run: GroupRun,
) -> bool
    decreases run,
{
    &&& clock_answer(c.deadline, run.reading, run.overdue)
    &&& if timed_out(c.deadline, run.overdue) {
        &&& run.field is None
        &&& run.result == Err::<Value, _>(seq![QueryExecutionError::Timeout])
    } else {
        match selected_field(c, object_type, fields[0].name@) {
            None => {
                &&& run.field is None
                &&& run.result == Err::<Value, _>(seq![unknown_field(object_type, *fields[0])])
            },
            Some((definition, introspecting)) => {
                &&& run.field is Some
                &&& executes_field(
                    c.entering(fields[0], introspecting),
                    object_type,
                    object_value,
                    *fields[0],
                    definition,
                    fields,
                    run.field->0,
                    run.result,
                )
            },
        }
    }
}

/// Whether `run` is a run of the field `field`, and `result` is what it comes to: its arguments are
/// coerced, then its value is resolved, then the value is completed; the first of these that fails
/// gives the errors.
pub open spec fn executes_field<R1: Resolver, R2: Resolver, C: Coercion>(
    c: ContextView<R1, R2, C>,
    object_type: ObjectType,
    object_value: Option<Value>,
    field: Field,
    definition: FieldDefinition,
    fields: Seq<Arc<Field>>,
    run: FieldRun,
    result: Outcome<Value>,
) -> bool
    decreases run,
{
    &&& arguments_coerced(c, object_type, field, run.answers)
    &&& arguments_combined(run.answers, run.arguments)
    &&& match run.arguments {
        Err(errors) => run.completion is Direct && result == Err::<Value, _>(errors),
        Ok(arguments) => {
            &&& resolves(
                c,
                object_type,
                object_value,
                field,
                definition,
                definition.field_type,
                arguments,
                run.resolved,
            )
            &&& match run.resolved {
                Err(errors) => run.completion is Direct && result == Err::<Value, _>(errors),
                Ok(value) => completes(
                    c,
                    field,
                    definition.field_type,
                    fields,
                    value,
                    run.completion,
                    result,
                ),
            }
        },
    }
}

/// Whether `run` is a completion of `value` as one of type `ty`, and `result` is what it comes to.
/// A null is an error for a type that excludes null, and stays null for any other type. A list is
/// completed item by item. Scalars and enums are left as they are. An object is completed by
/// executing the selections of `fields` on it; for an interface or a union the resolver finds the
/// object type.
pub open spec fn completes<R1: Resolver, R2: Resolver, C: Coercion>(
    c: ContextView<R1, R2, C>,
    field: Field,
    ty: Type,
    fields: Seq<Arc<Field>>,
    value: Value,
    run: Completion,
    result: Outcome<Value>,
) -> bool
    decreases run,
{
    match ty {
        Type::NonNullType(inner) => {
            &&& run is NonNull
            &&& completes(c, field, *inner, fields, value, *run->NonNull_1, run->NonNull_0)
            &&& result == (if run->NonNull_0 == Ok::<_, Seq<QueryExecutionError>>(Value::Null) {
                Err(seq![QueryExecutionError::NonNullError(field.position, field.name)])
            } else {
                run->NonNull_0
            })
        },
        Type::ListType(inner) => match value {
            Value::Null => run is Direct && result == Ok::<_, Seq<QueryExecutionError>>(
                Value::Null,
            ),
            Value::List(values) => {
                &&& run is Items
                &&& run->Items_0.len() <= values@.len()
                &&& forall|i: int|
                    0 <= i < run->Items_0.len() ==> completes(
                        c,
                        field,
                        *inner,
                        fields,
                        values@[i],
                        (#[trigger] run->Items_0[i]).1,
                        run->Items_0[i].0,
                    )
                &&& items_combined(values@.len(), run->Items_0, result)
            },
            _ => run is Direct && result == Err::<Value, _>(
                seq![QueryExecutionError::ListValueError(field.position, field.name)],
            ),
        },
        Type::NamedType(name) => if value is Null {
            run is Direct && result == Ok::<_, Seq<QueryExecutionError>>(Value::Null)
        } else {
            match named_type(c.current_schema(), name@) {
                Some(TypeDefinition::Scalar(_)) | Some(TypeDefinition::Enum(_)) => run is Direct
                    && result == Ok::<_, Seq<QueryExecutionError>>(value),
                Some(TypeDefinition::Object(object_type)) => {
                    &&& run is Object
                    &&& executes_set(
                        c,
                        merged_items(fields),
                        object_type,
                        Some(value),
                        run->Object_0,
                    )
                    &&& as_object(
                        set_outcome(
                            groups_of(c, object_type, merged_items(fields)),
                            object_type,
                            run->Object_0,
                        ),
                        result,
                    )
                },
                Some(abstract_type) => {
                    &&& !(abstract_type is InputObject)
                    &&& run is Abstract
                    &&& match run->Abstract_0 {
                        Some(object_type) => {
                            &&& c.abstract_answer(abstract_type, value, Some(&object_type))
                            &&& executes_set(
                                c,
                                merged_items(fields),
                                object_type,
                                Some(value),
                                run->Abstract_1,
                            )
                            &&& as_object(
                                set_outcome(
                                    groups_of(c, object_type, merged_items(fields)),
                                    object_type,
                                    run->Abstract_1,
                                ),
                                result,
                            )
                        },
                        None => {
                            &&& c.abstract_answer(abstract_type, value, None)
                            &&& run->Abstract_1.groups.len() == 0
                            &&& result == Err::<Value, _>(
                                seq![
                                    QueryExecutionError::AbstractTypeError(
                                        abstract_type.defined_name(),
                                    ),
                                ],
                            )
                        },
                    }
                },
                None => false,
            }
        },
    }
}

/// Whether `result` is what the completion of the items of a list of length `len` comes to: the
/// list of their values, or the errors of the first item that has any, which ends the completion.
pub open spec fn items_combined(
    len: nat,
    items: Seq<(Outcome<Value>, Completion)>,
    result: Outcome<Value>,
) -> bool {
    &&& forall|i: int| 0 <= i < items.len() - 1 ==> (#[trigger] items[i]).0 is Ok
    &&& if items.len() > 0 && items.last().0 is Err {
        result == items.last().0
    } else {
        &&& items.len() == len
        &&& result matches Ok(Value::List(list)) && list@ == Seq::new(
            items.len(),
            |i: int| items[i].0->Ok_0,
        )
    }
}

/// Whether `result` is what some run of the selections `items` on an object of type `object_type`
/// comes to.
pub open spec fn set_yields<R1: Resolver, R2: Resolver, C: Coercion>(
    c: ContextView<R1, R2, C>,
    items: Seq<Selection>,
    object_type: ObjectType,
    object_value: Option<Value>,
    result: Outcome<Map<Seq<char>, Value>>,
) -> bool {
    exists|run: SetRun|
        #![trigger executes_set(c, items, object_type, object_value, run)]
        executes_set(c, items, object_type, object_value, run) && result == set_outcome(
            groups_of(c, object_type, items),
            object_type,
            run,
        )
}

/// The errors of the groups among `groups` whose field `query_type` does not have, in their order.
pub open spec fn unknown_fields<R1: Resolver, R2: Resolver, C: Coercion>(
    c: ContextView<R1, R2, C>,
    query_type: ObjectType,
    groups: Groups,
) -> Seq<QueryExecutionError>
    decreases groups.len(),
{
    if groups.len() == 0 {
        Seq::empty()
    } else {
        let before = unknown_fields(c, query_type, groups.drop_last());
        let first = groups.last().1[0];
        match selected_field(c, query_type, first.name@) {
            Some(_) => before,
            None => before.push(unknown_field(query_type, *first)),
        }
    }
}

/// Selections of `fields`, one by one.
pub open spec fn as_selections(fields: Seq<Arc<Field>>) -> Seq<Selection> {
    Seq::new(fields.len(), |i: int| Selection::Field(fields[i]))
}

/// The fields of the groups among `groups` that belong to the introspection schema, or of those
/// that do not, as selections.
pub open spec fn root_items<R1: Resolver, R2: Resolver, C: Coercion>(
    c: ContextView<R1, R2, C>,
    query_type: ObjectType,
    groups: Groups,
    introspecting: bool,
) -> Seq<Selection>
    decreases groups.len(),
{
    if groups.len() == 0 {
        Seq::empty()
    } else {
        let before = root_items(c, query_type, groups.drop_last(), introspecting);
        let (_, fields) = groups.last();
        match selected_field(c, query_type, fields[0].name@) {
            Some((_, belongs)) => if belongs == introspecting {
                before + as_selections(fields)
            } else {
                before
            },
            None => before,
        }
    }
}

/// Whether `data` and `introspection` are runs of the two parts of the selections `items` of a
/// query, as far as these are executed, and `result` is what they come to, if queries start at
/// `query_type`. Fields that it does not have are errors, and then nothing is executed. The data
/// fields and the introspection fields are executed apart, the data fields first; if there are
/// both, the first part that fails gives the errors, and else the values of both are taken
/// together.
pub open spec fn runs_root<R1: Resolver, R2: Resolver, C: Coercion>(
    c: ContextView<R1, R2, C>,
    query_type: ObjectType,
    items: Seq<Selection>,
    initial_value: Option<Value>,
    data: SetRun,
    introspection: SetRun,
    result: Outcome<Value>,
) -> bool {
    let groups = groups_of(c, query_type, items);
    let unknown = unknown_fields(c, query_type, groups);
    let data_items = root_items(c, query_type, groups, false);
    let introspection_items = root_items(c, query_type, groups, true);
    let data_outcome = set_outcome(groups_of(c, query_type, data_items), query_type, data);
    let introspection_outcome = set_outcome(
        groups_of(c, query_type, introspection_items),
        query_type,
        introspection,
    );
    if unknown.len() > 0 {
        &&& data.groups.len() == 0
        &&& introspection.groups.len() == 0
        &&& result == Err::<Value, _>(unknown)
    } else if data_items.len() == 0 {
        &&& data.groups.len() == 0
        &&& executes_set(c, introspection_items, query_type, initial_value, introspection)
        &&& as_object(introspection_outcome, result)
    } else if introspection_items.len() == 0 {
        &&& introspection.groups.len() == 0
        &&& executes_set(c, data_items, query_type, initial_value, data)
        &&& as_object(data_outcome, result)
    } else {
        &&& executes_set(c, data_items, query_type, initial_value, data)
        &&& match data_outcome {
            Err(errors) => {
                &&& introspection.groups.len() == 0
                &&& result == Err::<Value, _>(errors)
            },
            Ok(data_values) => {
                &&& executes_set(c, introspection_items, query_type, initial_value, introspection)
                &&& match introspection_outcome {
                    Err(errors) => result == Err::<Value, _>(errors),
                    Ok(introspection_values) => as_object(
                        Ok(data_values.union_prefer_right(introspection_values)),
                        result,
                    ),
                }
            },
        }
    }
}

/// Whether `result` is what some runs of the selections `items` of a query come to, if queries
/// start at `query_type`.
pub open spec fn executes_root<R1: Resolver, R2: Resolver, C: Coercion>(
    c: ContextView<R1, R2, C>,
    query_type: ObjectType,
    items: Seq<Selection>,
    initial_value: Option<Value>,
    result: Outcome<Value>,
) -> bool {
    exists|data: SetRun, introspection: SetRun| #[trigger]
        runs_root(c, query_type, items, initial_value, data, introspection, result)
}

/// What the clock was read as in `run`, in this order: for each group when it comes up, and within
/// it for the groups of the objects that it comes to.
pub open spec fn set_readings(run: SetRun) -> Seq<Instant>
    decreases run,
{
    groups_readings(run.groups)
}

/// What the clock was read as in `runs`, one after the other.
pub open spec fn groups_readings(runs: Seq<GroupRun>) -> Seq<Instant>
    decreases runs,
{
    if runs.len() == 0 {
        Seq::empty()
    } else {
        groups_readings(runs.drop_last()) + group_readings(runs.last())
    }
}

/// What the clock was read as in the run of a group.
pub open spec fn group_readings(run: GroupRun) -> Seq<Instant>
    decreases run,
{
    taken(run.reading) + match run.field {
        Some(field_run) => completion_readings(field_run.completion),
        None => Seq::empty(),
    }
}

/// What the clock was read as in the completion of a value.
pub open spec fn completion_readings(run: Completion) -> Seq<Instant>
    decreases run,
{
    match run {
        Completion::Direct => Seq::empty(),
        Completion::NonNull(_, inner) => completion_readings(*inner),
        Completion::Items(items) => items_readings(items),
        Completion::Object(set_run) => set_readings(set_run),
        Completion::Abstract(_, set_run) => set_readings(set_run),
    }
}

/// What the clock was read as in the completion of items, one after the other.
pub open spec fn items_readings(items: Seq<(Outcome<Value>, Completion)>) -> Seq<Instant>
    decreases items,
{
    if items.len() == 0 {
        Seq::empty()
    } else {
        items_readings(items.drop_last()) + completion_readings(items.last().1)
    }
}

} // verus!
