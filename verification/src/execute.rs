//! The execution of a query.
use vstd::prelude::*;
use vstd::pervasive::unreached;

use std::sync::Arc;

use crate::answerable::StuckField;
use crate::answerable::StuckGroup;
use crate::answerable::StuckResolution;
use crate::answerable::StuckRoot;
use crate::answerable::StuckSet;
use crate::answerable::StuckValue;
use crate::answerable::field_answerable;
use crate::answerable::root_answerable;
use crate::answerable::set_answerable;
use crate::answerable::stuck_field;
use crate::answerable::stuck_root;
use crate::answerable::stuck_set;
use crate::answerable::stuck_value;
use crate::answerable::value_answerable;
use crate::clock::Clock;
use crate::clock::ask_clock;
use crate::clock::is_timed_out;
use crate::clock::taken;
use crate::clock::timed_out;
use crate::coerce::Coerced;
use crate::coerce::arguments_coerced;
use crate::coerce::arguments_combined;
use crate::coerce::coerce_argument_values;
use crate::collect::collect_fields;
use crate::collect::collected;
use crate::context::ContextView;
use crate::context::ExecutionContext;
use crate::error::Outcome;
use crate::error::QueryExecutionError;
use crate::error::outcome;
use crate::field_groups::group_holds_fields_of_its_key;
use crate::field_groups::grouped;
use crate::field_groups::into_groups;
use crate::merge::merge_selection_sets;
use crate::merge::merged_items;
use crate::name_map::NameMap;
use crate::query::Field;
use crate::query::Selection;
use crate::query::SelectionSet;
use crate::query::share;
use crate::query::share_all;
use crate::resolve::one_error;
use crate::resolve::resolve_field_value;
use crate::resolver::Coercion;
use crate::resolver::Resolver;
use crate::run::Completion;
use crate::run::FieldRun;
use crate::run::GroupRun;
use crate::run::SetRun;
use crate::run::as_selections;
use crate::run::as_object;
use crate::run::combined;
use crate::run::completion_readings;
use crate::run::completes;
use crate::run::errors_of;
use crate::run::executes_field;
use crate::run::executes_group;
use crate::run::executes_root;
use crate::run::executes_set;
use crate::run::group_readings;
use crate::run::groups_of;
use crate::run::groups_readings;
use crate::run::items_combined;
use crate::run::items_readings;
use crate::run::results_of;
use crate::run::root_items;
use crate::run::runs_root;
use crate::run::selected_field;
use crate::run::set_outcome;
use crate::run::set_readings;
use crate::run::set_yields;
use crate::run::unknown_fields;
use crate::run::values_of;
use crate::schema;
use crate::schema::FieldDefinition;
use crate::schema::ObjectType;
use crate::schema::Type;
use crate::schema::TypeDefinition;
use crate::schema::field_definition;
use crate::schema::get_named_type;
use crate::schema::get_root_query_type;
use crate::schema::get_type_name;
use crate::schema::is_output_type;
use crate::schema::root_query_type;
use crate::value::Value;

verus! {

/// The outcomes of `results`, each with its response key.
pub open spec fn keyed(results: Seq<(String, Result<Value, Vec<QueryExecutionError>>)>) -> Seq<
    (Seq<char>, Outcome<Value>),
> {
    Seq::new(results.len(), |i: int| (results[i].0@, outcome(results[i].1)))
}

/// The map that a result holds.
pub open spec fn map_outcome(result: Result<NameMap<Value>, Vec<QueryExecutionError>>) -> Outcome<
    Map<Seq<char>, Value>,
> {
    match result {
        Ok(map) => Ok(map@),
        Err(errors) => Err(errors@),
    }
}

/// Combines the results of the fields of an object.
pub fn combine_results(
    object_type: &ObjectType,
    results: Vec<(String, Result<Value, Vec<QueryExecutionError>>)>,
) -> (result: Result<NameMap<Value>, Vec<QueryExecutionError>>)
    ensures
        map_outcome(result) == combined(*object_type, keyed(results@)),
{
    let mut errors: Vec<QueryExecutionError> = Vec::new();
    let mut result_map: NameMap<Value> = NameMap::new();
    assert(keyed(results@).take(0) =~= Seq::empty());
    for entry in it: results
        invariant
            it.seq() == results@,
            errors@ == errors_of(keyed(results@).take(it.index() as int)),
            result_map@ == values_of(keyed(results@).take(it.index() as int)),
    {
        let ghost n = it.index() as int;
        assert(keyed(results@).take(n + 1).drop_last() =~= keyed(results@).take(n));
        let (response_key, result) = entry;
        match result {
            Ok(value) => result_map.insert(response_key, value),
            Err(field_errors) => {
                let mut field_errors = field_errors;
                errors.append(&mut field_errors);
            },
        }
    }
    assert(keyed(results@).take(results@.len() as int) =~= keyed(results@));
    if errors.is_empty() && !result_map.is_empty() {
        Ok(result_map)
    } else {
        if errors.is_empty() {
            errors.push(QueryExecutionError::EmptySelectionSet(object_type.name.clone()));
            assert(errors@ =~= seq![QueryExecutionError::EmptySelectionSet(object_type.name)]);
        }
        Err(errors)
    }
}

/// Looks up a field of an object type, and whether it belongs to the introspection schema.
pub fn get_field_type<'a, R1, R2, C>(
    ctx: ExecutionContext<'a, R1, R2, C>,
    object_type: &'a ObjectType,
    name: &String,
) -> (found: Option<(&'a FieldDefinition, bool)>) where R1: Resolver, R2: Resolver, C: Coercion
    requires
        root_query_type(ctx@.introspection_schema) is Some,
    ensures
        match found {
            Some((definition, introspecting)) => selected_field(ctx@, *object_type, name@) == Some(
                (*definition, introspecting),
            ),
            None => selected_field(ctx@, *object_type, name@) is None,
        },
{
    // Resolve __schema and __Type using the introspection schema
    match get_root_query_type(ctx.introspection_schema) {
        Some(introspection_query_type) => {
            if let Some(definition) = schema::get_field_type(introspection_query_type, name) {
                return Some((definition, true));
            }
        },
        None => unreached(),
    }
    match schema::get_field_type(object_type, name) {
        Some(definition) => Some((definition, ctx.introspecting)),
        None => None,
    }
}

/// How deep `ty` is nested.
pub open spec fn type_depth(ty: Type) -> nat
    decreases ty,
{
    match ty {
        Type::NamedType(_) => 1,
        Type::ListType(inner) => type_depth(*inner) + 1,
        Type::NonNullType(inner) => type_depth(*inner) + 1,
    }
}

/// Executes a selection set, requiring the result to be of the given object type.
///
/// Allows passing in a parent value during recursive processing of objects and their fields.
pub fn execute_selection_set<'a, R1, R2, C>(
    ctx: ExecutionContext<'a, R1, R2, C>,
    selection_set: &SelectionSet,
    object_type: &ObjectType,
    object_value: &Option<Value>,
) -> (result: Result<Value, Vec<QueryExecutionError>>) where
    R1: Resolver,
    R2: Resolver,
    C: Coercion,

    requires
        set_answerable(ctx@, selection_set.items@, *object_type, *object_value),
    ensures
        exists|values: Outcome<Map<Seq<char>, Value>>| #[trigger]
            set_yields(ctx@, selection_set.items@, *object_type, *object_value, values)
                && as_object(values, outcome(result)),
{
    let mut clock = Clock::new();
    match try_execute_selection_set(ctx, selection_set, object_type, object_value, &mut clock) {
        Some(result) => {
            proof {
                let run = choose|run: SetRun|
                    #![trigger executes_set(
                        ctx@,
                        selection_set.items@,
                        *object_type,
                        *object_value,
                        run,
                    )]
                    executes_set(ctx@, selection_set.items@, *object_type, *object_value, run)
                        && as_object(
                        set_outcome(
                            groups_of(ctx@, *object_type, selection_set.items@),
                            *object_type,
                            run,
                        ),
                        outcome(result),
                    );
                assert(set_yields(
                    ctx@,
                    selection_set.items@,
                    *object_type,
                    *object_value,
                    set_outcome(
                        groups_of(ctx@, *object_type, selection_set.items@),
                        *object_type,
                        run,
                    ),
                ));
            }
            result
        },
        None => unreached(),
    }
}

/// Executes a selection set into a map from response keys to values.
pub fn execute_selection_set_to_map<'a, R1, R2, C>(
    ctx: ExecutionContext<'a, R1, R2, C>,
    selection_set: &SelectionSet,
    object_type: &ObjectType,
    object_value: &Option<Value>,
) -> (result: Result<NameMap<Value>, Vec<QueryExecutionError>>) where
    R1: Resolver,
    R2: Resolver,
    C: Coercion,

    requires
        set_answerable(ctx@, selection_set.items@, *object_type, *object_value),
    ensures
        set_yields(
            ctx@,
            selection_set.items@,
            *object_type,
            *object_value,
            map_outcome(result),
        ),
{
    let mut clock = Clock::new();
    match try_execute_selection_set_to_map(
        ctx,
        selection_set,
        object_type,
        object_value,
        &mut clock,
    ) {
        Some(result) => result,
        None => unreached(),
    }
}

/// Executes a selection set by the readings of `clock`, unless it gets stuck.
fn try_execute_selection_set<'a, R1, R2, C>(
    ctx: ExecutionContext<'a, R1, R2, C>,
    selection_set: &SelectionSet,
    object_type: &ObjectType,
    object_value: &Option<Value>,
    clock: &mut Clock,
) -> (attempt: Option<Result<Value, Vec<QueryExecutionError>>>) where
    R1: Resolver,
    R2: Resolver,
    C: Coercion,

    ensures
        match attempt {
            Some(result) => exists|run: SetRun|
                #![trigger executes_set(
                    ctx@,
                    selection_set.items@,
                    *object_type,
                    *object_value,
                    run,
                )]
                executes_set(ctx@, selection_set.items@, *object_type, *object_value, run)
                    && as_object(
                    set_outcome(
                        groups_of(ctx@, *object_type, selection_set.items@),
                        *object_type,
                        run,
                    ),
                    outcome(result),
                ) && final(clock).readings() == old(clock).readings() + set_readings(run),
            None => exists|stuck: StuckSet| #[trigger]
                stuck_set(ctx@, selection_set.items@, *object_type, *object_value, stuck),
        },
    decreases usize::MAX - ctx.fields@.len(), 2int, 0nat,
{
    let values = match try_execute_selection_set_to_map(
        ctx,
        selection_set,
        object_type,
        object_value,
        clock,
    ) {
        Some(values) => values,
        None => return None,
    };
    match values {
        Ok(map) => Some(Ok(Value::Object(map))),
        Err(errors) => Some(Err(errors)),
    }
}

/// Executes a selection set into a map by the readings of `clock`, unless it gets stuck.
fn try_execute_selection_set_to_map<'a, R1, R2, C>(
    ctx: ExecutionContext<'a, R1, R2, C>,
    selection_set: &SelectionSet,
    object_type: &ObjectType,
    object_value: &Option<Value>,
    clock: &mut Clock,
) -> (attempt: Option<Result<NameMap<Value>, Vec<QueryExecutionError>>>) where
    R1: Resolver,
    R2: Resolver,
    C: Coercion,

    ensures
        match attempt {
            Some(result) => exists|run: SetRun|
                #![trigger executes_set(
                    ctx@,
                    selection_set.items@,
                    *object_type,
                    *object_value,
                    run,
                )]
                executes_set(ctx@, selection_set.items@, *object_type, *object_value, run)
                    && map_outcome(result) == set_outcome(
                    groups_of(ctx@, *object_type, selection_set.items@),
                    *object_type,
                    run,
                ) && final(clock).readings() == old(clock).readings() + set_readings(run),
            None => exists|stuck: StuckSet| #[trigger]
                stuck_set(ctx@, selection_set.items@, *object_type, *object_value, stuck),
        },
    decreases usize::MAX - ctx.fields@.len(), 1int, 0nat,
{
    let ghost readings_before = clock.readings();
    let ghost c = ctx@;
    let ghost all = collected(
        c.document,
        c.current_schema(),
        c.variable_values@,
        *object_type,
        selection_set.items@,
        Set::empty(),
    );
    let ghost all_groups = groups_of(c, *object_type, selection_set.items@);

    // Group fields with the same response key, so we can execute them together
    let groups = into_groups(collect_fields(ctx.clone(), object_type, selection_set, None));

    let mut results: Vec<(String, Result<Value, Vec<QueryExecutionError>>)> = Vec::new();
    let ghost mut runs: Seq<GroupRun> = Seq::empty();
    let mut scope = ctx.clone();
    let mut late = false;
    let mut i: usize = 0;
    assert(keyed(results@) =~= results_of(all_groups, runs));
    assert(clock.readings() =~= readings_before + groups_readings(runs));

    // Process all field groups in order
    while !late && i < groups.len()
        invariant
            i <= groups@.len(),
            ctx@ == c,
            scope@ == c,
            all_groups == groups_of(c, *object_type, selection_set.items@),
            all_groups == grouped(all),
            groups@.len() == all_groups.len(),
            forall|j: int|
                0 <= j < groups@.len() ==> (#[trigger] groups@[j]).0@ == all_groups[j].0
                    && groups@[j].1@ == all_groups[j].1,
            runs.len() == i,
            results@.len() == i,
            forall|j: int|
                0 <= j < i ==> executes_group(
                    c,
                    *object_type,
                    *object_value,
                    all_groups[j].1,
                    #[trigger] runs[j],
                ),
            forall|j: int| 0 <= j < i - 1 ==> !timed_out(c.deadline, #[trigger] runs[j].overdue),
            !late && i > 0 ==> !timed_out(c.deadline, runs[i - 1].overdue),
            late ==> i > 0 && timed_out(c.deadline, runs[i - 1].overdue),
            keyed(results@) == results_of(all_groups, runs),
            readings_before == old(clock).readings(),
            clock.readings() == readings_before + groups_readings(runs),
        decreases groups@.len() - i,
    {
        let ghost readings_so_far = clock.readings();
        let (overdue, Ghost(reading)) = ask_clock(clock, scope.deadline);
        let key = groups[i].0.clone();
        let fields = share_all(&groups[i].1);
        proof {
            assert(groups@[i as int].1@ == all_groups[i as int].1);
            group_holds_fields_of_its_key(all, i as int);
        }
        let ghost mut field_run: Option<FieldRun> = None;
        let result: Result<Value, Vec<QueryExecutionError>>;
        if is_timed_out(&scope.deadline, overdue) {
            late = true;
            result = Err(one_error(QueryExecutionError::Timeout));
        } else {
            // Introspection fields can be selected everywhere
            if get_root_query_type(scope.introspection_schema).is_none() {
                proof {
                    let stuck = StuckSet {
                        before: runs,
                        reading,
                        overdue,
                        at: StuckGroup::NoIntrospection,
                    };
                    assert(stuck_set(
                        c,
                        selection_set.items@,
                        *object_type,
                        *object_value,
                        stuck,
                    ));
                }
                return None;
            }

            // If the field exists on the object, execute it and add its result to the result map
            let first = share(&fields[0]);
            match get_field_type(scope.clone(), object_type, &first.name) {
                Some((definition, introspecting)) => {
                    // Push the new field onto the context's field stack
                    let mut field_ctx = scope.for_field(&first);
                    assert(field_ctx.fields.len() == ctx.fields@.len() + 1);

                    // Remember whether or not we're introspecting now
                    field_ctx.introspecting = introspecting;
                    let ghost fc = field_ctx@;
                    let ghost all_fields = fields@;
                    assert(fc == c.entering(first, introspecting));

                    result = match try_execute_field(
                        field_ctx,
                        object_type,
                        object_value,
                        &first,
                        definition,
                        fields,
                        clock,
                    ) {
                        Some(result) => result,
                        None => {
                            proof {
                                let field_stuck = choose|stuck: StuckField| #[trigger]
                                    stuck_field(
                                        fc,
                                        *object_type,
                                        *object_value,
                                        *first,
                                        *definition,
                                        all_fields,
                                        stuck,
                                    );
                                let stuck = StuckSet {
                                    before: runs,
                                    reading,
                                    overdue,
                                    at: StuckGroup::Field(field_stuck),
                                };
                                assert(stuck_set(
                                    c,
                                    selection_set.items@,
                                    *object_type,
                                    *object_value,
                                    stuck,
                                ));
                            }
                            return None;
                        },
                    };
                    proof {
                        field_run = Some(choose|run: FieldRun| #[trigger]
                            executes_field(
                                fc,
                                *object_type,
                                *object_value,
                                *first,
                                *definition,
                                all_fields,
                                run,
                                outcome(result),
                            ) && clock.readings() == (readings_so_far + taken(reading))
                                + completion_readings(run.completion));
                    }
                },
                None => {
                    result = Err(
                        one_error(
                            QueryExecutionError::UnknownField(
                                first.position,
                                object_type.name.clone(),
                                first.name.clone(),
                            ),
                        ),
                    );
                },
            }
        }
        let ghost run = GroupRun { reading, overdue, field: field_run, result: outcome(result) };
        let ghost runs_before = runs;
        let ghost results_before = results@;
        proof {
            runs = runs.push(run);
            assert(executes_group(c, *object_type, *object_value, all_groups[i as int].1, run));
            assert(key@ == all_groups[i as int].0);
        }
        results.push((key, result));
        proof {
            assert forall|j: int| 0 <= j < i implies keyed(results@)[j] == results_of(
                all_groups,
                runs,
            )[j] by {
                assert(keyed(results_before)[j] == results_of(all_groups, runs_before)[j]);
            }
            assert(keyed(results@) =~= results_of(all_groups, runs));
            assert(runs.drop_last() =~= runs_before);
            assert(clock.readings() =~= readings_so_far + group_readings(run));
            assert(clock.readings() =~= readings_before + groups_readings(runs));
        }
        i += 1;
    }
    let ghost run = SetRun { groups: runs };
    assert(executes_set(c, selection_set.items@, *object_type, *object_value, run));
    Some(combine_results(object_type, results))
}

/// Executes a field.
pub fn execute_field<'a, R1, R2, C>(
    ctx: ExecutionContext<'a, R1, R2, C>,
    object_type: &ObjectType,
    object_value: &Option<Value>,
    field: &Field,
    field_definition: &FieldDefinition,
    fields: Vec<Arc<Field>>,
) -> (result: Result<Value, Vec<QueryExecutionError>>) where
    R1: Resolver,
    R2: Resolver,
    C: Coercion,

    requires
        field_answerable(
            ctx@,
            *object_type,
            *object_value,
            *field,
            *field_definition,
            fields@,
        ),
    ensures
        exists|run: FieldRun|
            executes_field(
                ctx@,
                *object_type,
                *object_value,
                *field,
                *field_definition,
                fields@,
                run,
                outcome(result),
            ),
{
    let mut clock = Clock::new();
    match try_execute_field(
        ctx,
        object_type,
        object_value,
        field,
        field_definition,
        fields,
        &mut clock,
    ) {
        Some(result) => result,
        None => unreached(),
    }
}

/// Executes a field by the readings of `clock`, unless it gets stuck.
fn try_execute_field<'a, R1, R2, C>(
    ctx: ExecutionContext<'a, R1, R2, C>,
    object_type: &ObjectType,
    object_value: &Option<Value>,
    field: &Field,
    field_definition: &FieldDefinition,
    fields: Vec<Arc<Field>>,
    clock: &mut Clock,
) -> (attempt: Option<Result<Value, Vec<QueryExecutionError>>>) where
    R1: Resolver,
    R2: Resolver,
    C: Coercion,

    ensures
        match attempt {
            Some(result) => exists|run: FieldRun| #[trigger]
                executes_field(
                    ctx@,
                    *object_type,
                    *object_value,
                    *field,
                    *field_definition,
                    fields@,
                    run,
                    outcome(result),
                ) && final(clock).readings() == old(clock).readings() + completion_readings(
                    run.completion,
                ),
            None => exists|stuck: StuckField| #[trigger]
                stuck_field(
                    ctx@,
                    *object_type,
                    *object_value,
                    *field,
                    *field_definition,
                    fields@,
                    stuck,
                ),
        },
    decreases usize::MAX - ctx.fields@.len(), 5int, 0nat,
{
    let ghost c = ctx@;
    let ghost all_fields = fields@;
    let ghost readings_before = clock.readings();
    assert(readings_before =~= readings_before + completion_readings(Completion::Direct));
    let ghost mut run = FieldRun {
        answers: Seq::empty(),
        arguments: Err(Seq::empty()),
        resolved: Err(Seq::empty()),
        completion: Completion::Direct,
    };
    let arguments = coerce_argument_values(&ctx, object_type, field);
    proof {
        run.answers = choose|answers: Seq<Coerced>|
            #![trigger arguments_coerced(c, *object_type, *field, answers)]
            arguments_coerced(c, *object_type, *field, answers) && arguments_combined(
                answers,
                outcome(arguments),
            );
        run.arguments = outcome(arguments);
    }
    let argument_values = match arguments {
        Ok(values) => values,
        Err(errors) => {
            assert(executes_field(
                c,
                *object_type,
                *object_value,
                *field,
                *field_definition,
                all_fields,
                run,
                Err(errors@),
            ));
            return Some(Err(errors));
        },
    };
    if !is_output_type(ctx.get_schema(), &field_definition.field_type) {
        proof {
            let stuck = StuckField {
                answers: run.answers,
                arguments: argument_values,
                at: StuckResolution::InputObject,
            };
            assert(stuck_field(
                c,
                *object_type,
                *object_value,
                *field,
                *field_definition,
                all_fields,
                stuck,
            ));
        }
        return None;
    }
    let resolved = resolve_field_value(
        ctx.clone(),
        object_type,
        object_value,
        field,
        field_definition,
        &field_definition.field_type,
        &argument_values,
    );
    proof { run.resolved = outcome(resolved); }
    let value = match resolved {
        Ok(value) => value,
        Err(errors) => {
            assert(executes_field(
                c,
                *object_type,
                *object_value,
                *field,
                *field_definition,
                all_fields,
                run,
                Err(errors@),
            ));
            return Some(Err(errors));
        },
    };
    let result = match try_complete_value(
        ctx,
        field,
        &field_definition.field_type,
        fields,
        value,
        clock,
    ) {
        Some(result) => result,
        None => {
            proof {
                let value_stuck = choose|stuck: StuckValue| #[trigger]
                    stuck_value(
                        c,
                        *field,
                        field_definition.field_type,
                        all_fields,
                        value,
                        stuck,
                    );
                let stuck = StuckField {
                    answers: run.answers,
                    arguments: argument_values,
                    at: StuckResolution::Value(value, value_stuck),
                };
                assert(stuck_field(
                    c,
                    *object_type,
                    *object_value,
                    *field,
                    *field_definition,
                    all_fields,
                    stuck,
                ));
            }
            return None;
        },
    };
    proof {
        run.completion = choose|completion: Completion| #[trigger]
            completes(
                c,
                *field,
                field_definition.field_type,
                all_fields,
                value,
                completion,
                outcome(result),
            ) && clock.readings() == readings_before + completion_readings(completion);
        assert(executes_field(
            c,
            *object_type,
            *object_value,
            *field,
            *field_definition,
            all_fields,
            run,
            outcome(result),
        ));
    }
    Some(result)
}

/// Ensures that a value matches the expected return type.
pub fn complete_value<'a, R1, R2, C>(
    ctx: ExecutionContext<'a, R1, R2, C>,
    field: &Field,
    field_type: &Type,
    fields: Vec<Arc<Field>>,
    resolved_value: Value,
) -> (result: Result<Value, Vec<QueryExecutionError>>) where
    R1: Resolver,
    R2: Resolver,
    C: Coercion,

    requires
        value_answerable(ctx@, *field, *field_type, fields@, resolved_value),
    ensures
        exists|run: Completion|
            completes(
                ctx@,
                *field,
                *field_type,
                fields@,
                resolved_value,
                run,
                outcome(result),
            ),
{
    let mut clock = Clock::new();
    match try_complete_value(ctx, field, field_type, fields, resolved_value, &mut clock) {
        Some(result) => result,
        None => unreached(),
    }
}

/// Completes a value by the readings of `clock`, unless that gets stuck.
fn try_complete_value<'a, R1, R2, C>(
    ctx: ExecutionContext<'a, R1, R2, C>,
    field: &Field,
    field_type: &Type,
    fields: Vec<Arc<Field>>,
    resolved_value: Value,
    clock: &mut Clock,
) -> (attempt: Option<Result<Value, Vec<QueryExecutionError>>>) where
    R1: Resolver,
    R2: Resolver,
    C: Coercion,

    ensures
        match attempt {
            Some(result) => exists|run: Completion| #[trigger]
                completes(
                    ctx@,
                    *field,
                    *field_type,
                    fields@,
                    resolved_value,
                    run,
                    outcome(result),
                ) && final(clock).readings() == old(clock).readings() + completion_readings(run),
            None => exists|stuck: StuckValue| #[trigger]
                stuck_value(ctx@, *field, *field_type, fields@, resolved_value, stuck),
        },
    decreases usize::MAX - ctx.fields@.len(), 4int, type_depth(*field_type),
{
    let ghost c = ctx@;
    let ghost all_fields = fields@;
    let ghost readings_before = clock.readings();
    assert(readings_before =~= readings_before + completion_readings(Completion::Direct));
    match field_type {
        // Fail if the field type is non-null but the value is null
        Type::NonNullType(inner_type) => {
            let completed = match try_complete_value(
                ctx,
                field,
                inner_type,
                fields,
                resolved_value,
                clock,
            ) {
                Some(completed) => completed,
                None => {
                    proof {
                        let inner_stuck = choose|stuck: StuckValue| #[trigger]
                            stuck_value(
                                c,
                                *field,
                                **inner_type,
                                all_fields,
                                resolved_value,
                                stuck,
                            );
                        assert(stuck_value(
                            c,
                            *field,
                            *field_type,
                            all_fields,
                            resolved_value,
                            StuckValue::NonNull(Box::new(inner_stuck)),
                        ));
                    }
                    return None;
                },
            };
            let ghost inner_run = choose|run: Completion| #[trigger]
                completes(
                    c,
                    *field,
                    **inner_type,
                    all_fields,
                    resolved_value,
                    run,
                    outcome(completed),
                ) && clock.readings() == readings_before + completion_readings(run);
            let ghost run = Completion::NonNull(outcome(completed), Box::new(inner_run));
            let result = match completed {
                Ok(Value::Null) => Err(
                    one_error(
                        QueryExecutionError::NonNullError(field.position, field.name.clone()),
                    ),
                ),
                other => other,
            };
            assert(completes(
                c,
                *field,
                *field_type,
                all_fields,
                resolved_value,
                run,
                outcome(result),
            ));
            Some(result)
        },
        // Complete list values
        Type::ListType(inner_type) => match resolved_value {
            // If the resolved value is null, return null
            Value::Null => {
                assert(completes(
                    c,
                    *field,
                    *field_type,
                    all_fields,
                    Value::Null,
                    Completion::Direct,
                    Ok(Value::Null),
                ));
                Some(Ok(Value::Null))
            },
            // Complete list values individually
            Value::List(values) => {
                let ghost mut items: Seq<(Outcome<Value>, Completion)> = Seq::empty();
                let mut out: Vec<Value> = Vec::new();
                assert(clock.readings() =~= readings_before + items_readings(items));
                for value in it: values
                    invariant
                        it.seq() == values@,
                        ctx@ == c,
                        ctx.fields@.len() == c.fields.len(),
                        fields@ == all_fields,
                        *field_type == Type::ListType(*inner_type),
                        resolved_value == Value::List(values),
                        readings_before == old(clock).readings(),
                        clock.readings() == readings_before + items_readings(items),
                        items.len() == it.index(),
                        out@.len() == it.index(),
                        forall|j: int|
                            0 <= j < items.len() ==> completes(
                                c,
                                *field,
                                **inner_type,
                                all_fields,
                                values@[j],
                                (#[trigger] items[j]).1,
                                items[j].0,
                            ),
                        forall|j: int|
                            0 <= j < items.len() ==> (#[trigger] items[j]).0 == Ok::<
                                _,
                                Seq<QueryExecutionError>,
                            >(out@[j]),
                {
                    let ghost n = it.index() as int;
                    assert(value == values@[n]);
                    let ghost readings_so_far = clock.readings();
                    let completed = match try_complete_value(
                        ctx.clone(),
                        field,
                        inner_type,
                        share_all(&fields),
                        value,
                        clock,
                    ) {
                        Some(completed) => completed,
                        None => {
                            proof {
                                let item_stuck = choose|stuck: StuckValue| #[trigger]
                                    stuck_value(
                                        c,
                                        *field,
                                        **inner_type,
                                        all_fields,
                                        values@[n],
                                        stuck,
                                    );
                                assert(stuck_value(
                                    c,
                                    *field,
                                    *field_type,
                                    all_fields,
                                    resolved_value,
                                    StuckValue::Item(items, Box::new(item_stuck)),
                                ));
                            }
                            return None;
                        },
                    };
                    proof {
                        let item_run = choose|run: Completion| #[trigger]
                            completes(
                                c,
                                *field,
                                **inner_type,
                                all_fields,
                                values@[n],
                                run,
                                outcome(completed),
                            ) && clock.readings() == readings_so_far + completion_readings(run);
                        let items_before = items;
                        items = items.push((outcome(completed), item_run));
                        assert(items.drop_last() =~= items_before);
                        assert(clock.readings() =~= readings_before + items_readings(items));
                    }
                    match completed {
                        Ok(value) => out.push(value),
                        Err(errors) => {
                            let ghost run = Completion::Items(items);
                            assert(items_combined(values@.len(), items, Err(errors@)));
                            assert(completes(
                                c,
                                *field,
                                *field_type,
                                all_fields,
                                Value::List(values),
                                run,
                                Err(errors@),
                            ));
                            return Some(Err(errors));
                        },
                    }
                }
                let ghost run = Completion::Items(items);
                assert(out@ =~= Seq::new(items.len(), |i: int| items[i].0->Ok_0));
                assert(items_combined(values@.len(), items, Ok(Value::List(out))));
                assert(completes(
                    c,
                    *field,
                    *field_type,
                    all_fields,
                    Value::List(values),
                    run,
                    Ok(Value::List(out)),
                ));
                Some(Ok(Value::List(out)))
            },
            // Return field error if the resolved value for the list is not a list
            _ => {
                let result: Result<Value, Vec<QueryExecutionError>> = Err(
                    one_error(
                        QueryExecutionError::ListValueError(field.position, field.name.clone()),
                    ),
                );
                assert(completes(
                    c,
                    *field,
                    *field_type,
                    all_fields,
                    resolved_value,
                    Completion::Direct,
                    outcome(result),
                ));
                Some(result)
            },
        },
        Type::NamedType(name) => {
            // If the resolved value is null, return null
            if let Value::Null = resolved_value {
                assert(completes(
                    c,
                    *field,
                    *field_type,
                    all_fields,
                    Value::Null,
                    Completion::Direct,
                    Ok(Value::Null),
                ));
                return Some(Ok(Value::Null));
            }
            try_complete_named_value(ctx, field, field_type, name, fields, resolved_value, clock)
        },
    }
}

/// Completes a value of a named type that is not null by the readings of `clock`, unless that gets
/// stuck.
fn try_complete_named_value<'a, R1, R2, C>(
    ctx: ExecutionContext<'a, R1, R2, C>,
    field: &Field,
    field_type: &Type,
    name: &String,
    fields: Vec<Arc<Field>>,
    resolved_value: Value,
    clock: &mut Clock,
) -> (attempt: Option<Result<Value, Vec<QueryExecutionError>>>) where
    R1: Resolver,
    R2: Resolver,
    C: Coercion,

    requires
        *field_type == Type::NamedType(*name),
        !(resolved_value is Null),
    ensures
        match attempt {
            Some(result) => exists|run: Completion| #[trigger]
                completes(
                    ctx@,
                    *field,
                    *field_type,
                    fields@,
                    resolved_value,
                    run,
                    outcome(result),
                ) && final(clock).readings() == old(clock).readings() + completion_readings(run),
            None => exists|stuck: StuckValue| #[trigger]
                stuck_value(ctx@, *field, *field_type, fields@, resolved_value, stuck),
        },
    decreases usize::MAX - ctx.fields@.len(), 3int, 0nat,
{
    let ghost c = ctx@;
    let ghost items = merged_items(fields@);
    let ghost readings_before = clock.readings();
    assert(readings_before =~= readings_before + completion_readings(Completion::Direct));
    let named = match get_named_type(ctx.get_schema(), name) {
        Some(named) => named,
        None => {
            assert(stuck_value(
                c,
                *field,
                *field_type,
                fields@,
                resolved_value,
                StuckValue::Here,
            ));
            return None;
        },
    };
    match named {
        // Complete scalar values; we're assuming that the resolver has
        // already returned a valid value for the scalar type
        TypeDefinition::Scalar(_) => {
            assert(completes(
                c,
                *field,
                *field_type,
                fields@,
                resolved_value,
                Completion::Direct,
                Ok(resolved_value),
            ));
            Some(Ok(resolved_value))
        },
        // Complete enum values; we're assuming that the resolver has
        // already returned a valid value for the enum type
        TypeDefinition::Enum(_) => {
            assert(completes(
                c,
                *field,
                *field_type,
                fields@,
                resolved_value,
                Completion::Direct,
                Ok(resolved_value),
            ));
            Some(Ok(resolved_value))
        },
        // Complete object types recursively
        TypeDefinition::Object(object_type) => {
            if fields.is_empty() {
                assert(stuck_value(
                    c,
                    *field,
                    *field_type,
                    fields@,
                    resolved_value,
                    StuckValue::Here,
                ));
                return None;
            }
            let object_value = Some(resolved_value);
            let result = match try_execute_selection_set(
                ctx,
                &merge_selection_sets(&fields),
                object_type,
                &object_value,
                clock,
            ) {
                Some(result) => result,
                None => {
                    proof {
                        let set_stuck = choose|stuck: StuckSet| #[trigger]
                            stuck_set(c, items, *object_type, object_value, stuck);
                        assert(stuck_value(
                            c,
                            *field,
                            *field_type,
                            fields@,
                            resolved_value,
                            StuckValue::Object(Box::new(set_stuck)),
                        ));
                    }
                    return None;
                },
            };
            proof {
                let set_run = choose|run: SetRun|
                    #![trigger executes_set(c, items, *object_type, object_value, run)]
                    executes_set(c, items, *object_type, object_value, run) && as_object(
                        set_outcome(groups_of(c, *object_type, items), *object_type, run),
                        outcome(result),
                    ) && clock.readings() == readings_before + set_readings(run);
                assert(completes(
                    c,
                    *field,
                    *field_type,
                    fields@,
                    resolved_value,
                    Completion::Object(set_run),
                    outcome(result),
                ));
            }
            Some(result)
        },
        // Input objects are never resolved
        TypeDefinition::InputObject(_) => {
            assert(stuck_value(
                c,
                *field,
                *field_type,
                fields@,
                resolved_value,
                StuckValue::Here,
            ));
            None
        },
        // Resolve interface and union types using the resolved value and complete the value
        // recursively
        _ => {
            match resolve_abstract_type(ctx.clone(), named, &resolved_value) {
                Ok(object_type) => {
                    if fields.is_empty() {
                        assert(stuck_value(
                            c,
                            *field,
                            *field_type,
                            fields@,
                            resolved_value,
                            StuckValue::Found(*object_type),
                        ));
                        return None;
                    }
                    let object_value = Some(resolved_value);
                    let result = match try_execute_selection_set(
                        ctx,
                        &merge_selection_sets(&fields),
                        object_type,
                        &object_value,
                        clock,
                    ) {
                        Some(result) => result,
                        None => {
                            proof {
                                let set_stuck = choose|stuck: StuckSet| #[trigger]
                                    stuck_set(c, items, *object_type, object_value, stuck);
                                assert(stuck_value(
                                    c,
                                    *field,
                                    *field_type,
                                    fields@,
                                    resolved_value,
                                    StuckValue::Abstract(*object_type, Box::new(set_stuck)),
                                ));
                            }
                            return None;
                        },
                    };
                    proof {
                        let set_run = choose|run: SetRun|
                            #![trigger executes_set(c, items, *object_type, object_value, run)]
                            executes_set(c, items, *object_type, object_value, run) && as_object(
                                set_outcome(groups_of(c, *object_type, items), *object_type, run),
                                outcome(result),
                            ) && clock.readings() == readings_before + set_readings(run);
                        assert(completes(
                            c,
                            *field,
                            *field_type,
                            fields@,
                            resolved_value,
                            Completion::Abstract(Some(*object_type), set_run),
                            outcome(result),
                        ));
                    }
                    Some(result)
                },
                Err(errors) => {
                    let ghost set_run = SetRun { groups: Seq::empty() };
                    assert(readings_before =~= readings_before + set_readings(set_run));
                    assert(completes(
                        c,
                        *field,
                        *field_type,
                        fields@,
                        resolved_value,
                        Completion::Abstract(None, set_run),
                        Err(errors@),
                    ));
                    Some(Err(errors))
                },
            }
        },
    }
}

/// Takes the answer of a resolver to the question for an object type.
pub fn found_or_error<'a>(
    abstract_type: &TypeDefinition,
    answer: Option<&'a ObjectType>,
) -> (result: Result<&'a ObjectType, Vec<QueryExecutionError>>)
    ensures
        match result {
            Ok(object_type) => answer == Some(object_type),
            Err(errors) => answer is None && errors@ == seq![
                QueryExecutionError::AbstractTypeError(abstract_type.defined_name()),
            ],
        },
{
    match answer {
        Some(object_type) => Ok(object_type),
        None => Err(
            one_error(QueryExecutionError::AbstractTypeError(get_type_name(abstract_type).clone())),
        ),
    }
}

/// Resolves an abstract type (interface, union) into an object type based on the given value.
pub fn resolve_abstract_type<'a, R1, R2, C>(
    ctx: ExecutionContext<'a, R1, R2, C>,
    abstract_type: &TypeDefinition,
    object_value: &Value,
) -> (result: Result<&'a ObjectType, Vec<QueryExecutionError>>) where
    R1: Resolver,
    R2: Resolver,
    C: Coercion,

    ensures
        match result {
            Ok(object_type) => ctx@.abstract_answer(
                *abstract_type,
                *object_value,
                Some(object_type),
            ),
            Err(errors) => ctx@.abstract_answer(*abstract_type, *object_value, None) && errors@
                == seq![QueryExecutionError::AbstractTypeError(abstract_type.defined_name())],
        },
{
    // Let the resolver handle the type resolution, return an error if the resolution
    // yields nothing
    let answer = ctx.resolver.resolve_abstract_type(ctx.get_schema(), abstract_type, object_value);
    found_or_error(abstract_type, answer)
}

/// Executes the root selection set of a query.
pub fn execute_root_selection_set<'a, R1, R2, C>(
    ctx: ExecutionContext<'a, R1, R2, C>,
    selection_set: &SelectionSet,
    initial_value: &Option<Value>,
) -> (result: Result<Value, Vec<QueryExecutionError>>) where
    R1: Resolver,
    R2: Resolver,
    C: Coercion,

    requires
        root_query_type(ctx@.schema.document) matches Some(query_type) ==> root_answerable(
            ctx@,
            query_type,
            selection_set.items@,
            *initial_value,
        ),
    ensures
        match root_query_type(ctx@.schema.document) {
            None => outcome(result) == Err::<Value, _>(
                seq![QueryExecutionError::NoRootQueryObjectType],
            ),
            Some(query_type) => executes_root(
                ctx@,
                query_type,
                selection_set.items@,
                *initial_value,
                outcome(result),
            ),
        },
{
    let mut clock = Clock::new();
    match try_execute_root_selection_set(ctx, selection_set, initial_value, &mut clock) {
        Some(result) => result,
        None => unreached(),
    }
}

/// Executes the root selection set of a query by the readings of `clock`, unless it gets stuck: at
/// a field whose type is an input object, or at any field while introspection has no type at which
/// it starts. Nothing is asked of the caller.
#[verifier::rlimit(50)]
pub fn try_execute_root_selection_set<'a, R1, R2, C>(
    ctx: ExecutionContext<'a, R1, R2, C>,
    selection_set: &SelectionSet,
    initial_value: &Option<Value>,
    clock: &mut Clock,
) -> (attempt: Option<Result<Value, Vec<QueryExecutionError>>>) where
    R1: Resolver,
    R2: Resolver,
    C: Coercion,

    ensures
        match (root_query_type(ctx@.schema.document), attempt) {
            (None, Some(result)) => {
                &&& outcome(result) == Err::<Value, _>(
                    seq![QueryExecutionError::NoRootQueryObjectType],
                )
                &&& final(clock).readings() == old(clock).readings()
            },
            (Some(query_type), Some(result)) => exists|data: SetRun, introspection: SetRun|
                #[trigger] runs_root(
                    ctx@,
                    query_type,
                    selection_set.items@,
                    *initial_value,
                    data,
                    introspection,
                    outcome(result),
                ) && final(clock).readings() == old(clock).readings() + set_readings(data)
                    + set_readings(introspection),
            (None, None) => false,
            (Some(query_type), None) => exists|stuck: StuckRoot| #[trigger]
                stuck_root(ctx@, query_type, selection_set.items@, *initial_value, stuck),
        },
{
    // Obtain the root Query type and fail if there isn't one
    let query_type = match get_root_query_type(&ctx.schema.document) {
        Some(t) => t,
        None => return Some(Err(one_error(QueryExecutionError::NoRootQueryObjectType))),
    };
    let ghost c = ctx@;
    let ghost readings_before = clock.readings();
    let ghost all = collected(
        c.document,
        c.current_schema(),
        c.variable_values@,
        *query_type,
        selection_set.items@,
        Set::empty(),
    );
    let ghost all_groups = groups_of(c, *query_type, selection_set.items@);

    // Split the toplevel fields into introspection fields and
    // 'normal' data fields
    let mut errors: Vec<QueryExecutionError> = Vec::new();
    let mut data_items: Vec<Selection> = Vec::new();
    let mut intro_items: Vec<Selection> = Vec::new();
    let groups = into_groups(collect_fields(ctx.clone(), query_type, selection_set, None));
    let mut i: usize = 0;
    assert(all_groups.take(0) =~= Seq::empty());
    while i < groups.len()
        invariant
            i <= groups@.len(),
            ctx@ == c,
            root_query_type(c.schema.document) == Some(*query_type),
            i > 0 ==> root_query_type(c.introspection_schema) is Some,
            all_groups == groups_of(c, *query_type, selection_set.items@),
            all_groups == grouped(all),
            groups@.len() == all_groups.len(),
            forall|j: int|
                0 <= j < groups@.len() ==> (#[trigger] groups@[j]).0@ == all_groups[j].0
                    && groups@[j].1@ == all_groups[j].1,
            errors@ == unknown_fields(c, *query_type, all_groups.take(i as int)),
            data_items@ == root_items(c, *query_type, all_groups.take(i as int), false),
            intro_items@ == root_items(c, *query_type, all_groups.take(i as int), true),
        decreases groups@.len() - i,
    {
        let fields = &groups[i].1;
        proof {
            assert(groups@[i as int].1@ == all_groups[i as int].1);
            group_holds_fields_of_its_key(all, i as int);
            assert(all_groups.take(i + 1).drop_last() =~= all_groups.take(i as int));
        }
        if get_root_query_type(ctx.introspection_schema).is_none() {
            assert(stuck_root(
                c,
                *query_type,
                selection_set.items@,
                *initial_value,
                StuckRoot::NoIntrospection,
            ));
            return None;
        }
        let first = &fields[0];
        match get_field_type(ctx.clone(), query_type, &first.name) {
            Some((_, introspecting)) => {
                if introspecting {
                    add_selections(&mut intro_items, fields);
                } else {
                    add_selections(&mut data_items, fields);
                }
            },
            None => errors.push(
                QueryExecutionError::UnknownField(
                    first.position,
                    query_type.name.clone(),
                    first.name.clone(),
                ),
            ),
        }
        i += 1;
    }
    assert(all_groups.take(all_groups.len() as int) =~= all_groups);

    let ghost no_run = SetRun { groups: Seq::empty() };
    assert(set_readings(no_run) =~= Seq::empty());
    if !errors.is_empty() {
        assert(runs_root(
            c,
            *query_type,
            selection_set.items@,
            *initial_value,
            no_run,
            no_run,
            Err(errors@),
        ));
        return Some(Err(errors));
    }
    let data_set = SelectionSet { span: selection_set.span, items: data_items };
    let intro_set = SelectionSet { span: selection_set.span, items: intro_items };
    proof {
        if all_groups.len() == 0 {
            lemma_no_groups(c, *query_type, data_set.items@);
            lemma_no_groups(c, *query_type, intro_set.items@);
        }
    }

    // Execute the root selection set against the root query type
    if data_set.items.is_empty() {
        // Only introspection
        let result = match try_execute_selection_set(
            ctx,
            &intro_set,
            query_type,
            initial_value,
            clock,
        ) {
            Some(result) => result,
            None => {
                proof {
                    let set_stuck = choose|stuck: StuckSet| #[trigger]
                        stuck_set(c, intro_set.items@, *query_type, *initial_value, stuck);
                    assert(stuck_root(
                        c,
                        *query_type,
                        selection_set.items@,
                        *initial_value,
                        StuckRoot::Introspection(no_run, set_stuck),
                    ));
                }
                return None;
            },
        };
        proof {
            let run = choose|run: SetRun|
                #![trigger executes_set(c, intro_set.items@, *query_type, *initial_value, run)]
                executes_set(c, intro_set.items@, *query_type, *initial_value, run) && as_object(
                    set_outcome(
                        groups_of(c, *query_type, intro_set.items@),
                        *query_type,
                        run,
                    ),
                    outcome(result),
                ) && clock.readings() == readings_before + set_readings(run);
            assert(runs_root(
                c,
                *query_type,
                selection_set.items@,
                *initial_value,
                no_run,
                run,
                outcome(result),
            ));
            assert(clock.readings() =~= readings_before + set_readings(no_run) + set_readings(run));
        }
        Some(result)
    } else if intro_set.items.is_empty() {
        // Only data
        let result = match try_execute_selection_set(
            ctx,
            &data_set,
            query_type,
            initial_value,
            clock,
        ) {
            Some(result) => result,
            None => {
                proof {
                    let set_stuck = choose|stuck: StuckSet| #[trigger]
                        stuck_set(c, data_set.items@, *query_type, *initial_value, stuck);
                    assert(stuck_root(
                        c,
                        *query_type,
                        selection_set.items@,
                        *initial_value,
                        StuckRoot::Data(set_stuck),
                    ));
                }
                return None;
            },
        };
        proof {
            let run = choose|run: SetRun|
                #![trigger executes_set(c, data_set.items@, *query_type, *initial_value, run)]
                executes_set(c, data_set.items@, *query_type, *initial_value, run) && as_object(
                    set_outcome(
                        groups_of(c, *query_type, data_set.items@),
                        *query_type,
                        run,
                    ),
                    outcome(result),
                ) && clock.readings() == readings_before + set_readings(run);
            assert(runs_root(
                c,
                *query_type,
                selection_set.items@,
                *initial_value,
                run,
                no_run,
                outcome(result),
            ));
            assert(clock.readings() =~= readings_before + set_readings(run) + set_readings(no_run));
        }
        Some(result)
    } else {
        // Both introspection and data
        let data = match try_execute_selection_set_to_map(
            ctx.clone(),
            &data_set,
            query_type,
            initial_value,
            clock,
        ) {
            Some(data) => data,
            None => {
                proof {
                    let set_stuck = choose|stuck: StuckSet| #[trigger]
                        stuck_set(c, data_set.items@, *query_type, *initial_value, stuck);
                    assert(stuck_root(
                        c,
                        *query_type,
                        selection_set.items@,
                        *initial_value,
                        StuckRoot::Data(set_stuck),
                    ));
                }
                return None;
            },
        };
        let ghost data_run = choose|run: SetRun|
            #![trigger executes_set(c, data_set.items@, *query_type, *initial_value, run)]
            executes_set(c, data_set.items@, *query_type, *initial_value, run) && map_outcome(data)
                == set_outcome(groups_of(c, *query_type, data_set.items@), *query_type, run)
                && clock.readings() == readings_before + set_readings(run);
        let mut values = match data {
            Ok(values) => values,
            Err(errors) => {
                assert(runs_root(
                    c,
                    *query_type,
                    selection_set.items@,
                    *initial_value,
                    data_run,
                    no_run,
                    Err(errors@),
                ));
                assert(clock.readings() =~= readings_before + set_readings(data_run)
                    + set_readings(no_run));
                return Some(Err(errors));
            },
        };
        let ghost readings_so_far = clock.readings();
        let introspection = match try_execute_selection_set_to_map(
            ctx,
            &intro_set,
            query_type,
            initial_value,
            clock,
        ) {
            Some(introspection) => introspection,
            None => {
                proof {
                    let set_stuck = choose|stuck: StuckSet| #[trigger]
                        stuck_set(c, intro_set.items@, *query_type, *initial_value, stuck);
                    assert(stuck_root(
                        c,
                        *query_type,
                        selection_set.items@,
                        *initial_value,
                        StuckRoot::Introspection(data_run, set_stuck),
                    ));
                }
                return None;
            },
        };
        let ghost introspection_run = choose|run: SetRun|
            #![trigger executes_set(c, intro_set.items@, *query_type, *initial_value, run)]
            executes_set(c, intro_set.items@, *query_type, *initial_value, run) && map_outcome(
                introspection,
            ) == set_outcome(groups_of(c, *query_type, intro_set.items@), *query_type, run)
                && clock.readings() == readings_so_far + set_readings(run);
        let result: Result<Value, Vec<QueryExecutionError>> = match introspection {
            Ok(introspection_values) => {
                values.extend(introspection_values);
                Ok(Value::Object(values))
            },
            Err(errors) => Err(errors),
        };
        assert(runs_root(
            c,
            *query_type,
            selection_set.items@,
            *initial_value,
            data_run,
            introspection_run,
            outcome(result),
        ));
        Some(result)
    }
}

/// Where nothing is selected, there is no group, so nothing can get stuck.
proof fn lemma_no_groups<R1: Resolver, R2: Resolver, C: Coercion>(
    c: ContextView<R1, R2, C>,
    query_type: ObjectType,
    items: Seq<Selection>,
)
    requires
        items.len() == 0,
    ensures
        groups_of(c, query_type, items).len() == 0,
{
}

/// Puts selections of `fields` behind `items`.
fn add_selections(items: &mut Vec<Selection>, fields: &Vec<Arc<Field>>)
    ensures
        final(items)@ == old(items)@ + as_selections(fields@),
{
    let ghost before = items@;
    let mut i: usize = 0;
    assert(before + as_selections(fields@).take(0) =~= before);
    while i < fields.len()
        invariant
            i <= fields@.len(),
            items@ == before + as_selections(fields@).take(i as int),
        decreases fields@.len() - i,
    {
        items.push(Selection::Field(share(&fields[i])));
        i += 1;
        assert(items@ =~= before + as_selections(fields@).take(i as int));
    }
    assert(as_selections(fields@).take(fields@.len() as int) =~= as_selections(fields@));
}

} // verus!
