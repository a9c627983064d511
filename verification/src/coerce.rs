//! The values of arguments and variables, turned into values of their types.
use vstd::prelude::*;

use crate::context::ContextView;
use crate::context::ExecutionContext;
use crate::error::Outcome;
use crate::error::QueryExecutionError;
use crate::error::outcome;
use crate::name_map::NameMap;
use crate::query::Field;
use crate::query::OperationDefinition;
use crate::query::VariableDefinition;
use crate::query::argument_value;
use crate::query::get_argument_value;
use crate::query::get_variable_definitions;
use crate::query::variable_definitions;
use crate::resolve::one_error;
use crate::resolver::Coercion;
use crate::resolver::Resolver;
use crate::schema::InputValue;
use crate::schema::ObjectType;
use crate::schema::Schema;
use crate::schema::SchemaDocument;
use crate::schema::argument_definitions;
use crate::schema::get_argument_definitions;
use crate::schema::input_type;
use crate::schema::is_input_type;
use crate::schema::is_non_null_type;
use crate::value::Value;

verus! {

/// What the coercion of an argument comes to, with the argument's name: a value, no value, or an
/// error.
pub type Coerced = (String, Result<Option<Value>, QueryExecutionError>);

/// The errors among `answers`, in their order.
pub open spec fn errors_among(answers: Seq<Coerced>) -> Seq<QueryExecutionError>
    decreases answers.len(),
{
    if answers.len() == 0 {
        Seq::empty()
    } else {
        match answers.last().1 {
            Err(error) => errors_among(answers.drop_last()).push(error),
            Ok(_) => errors_among(answers.drop_last()),
        }
    }
}

/// The values among `answers`, each under the name of its argument.
pub open spec fn values_among(answers: Seq<Coerced>) -> Map<Seq<char>, Value>
    decreases answers.len(),
{
    if answers.len() == 0 {
        Map::empty()
    } else {
        let before = values_among(answers.drop_last());
        match answers.last().1 {
            Ok(Some(value)) => before.insert(answers.last().0@, value),
            _ => before,
        }
    }
}

/// Whether `result` is what `answers` come to: the values by their names, or all the errors if
/// there is any.
pub open spec fn arguments_combined(
    answers: Seq<Coerced>,
    result: Outcome<NameMap<Value>>,
) -> bool {
    match result {
        Ok(values) => errors_among(answers).len() == 0 && values@ == values_among(answers),
        Err(errors) => errors.len() > 0 && errors == errors_among(answers),
    }
}

/// Combines what the coercion of each argument has come to.
pub fn combine_arguments(answers: Vec<Coerced>) -> (result: Result<
    NameMap<Value>,
    Vec<QueryExecutionError>,
>)
    ensures
        arguments_combined(answers@, outcome(result)),
{
    let mut coerced_values: NameMap<Value> = NameMap::new();
    let mut errors: Vec<QueryExecutionError> = Vec::new();
    assert(answers@.take(0) =~= Seq::empty());
    for answer in it: answers
        invariant
            it.seq() == answers@,
            coerced_values@ == values_among(answers@.take(it.index() as int)),
            errors@ == errors_among(answers@.take(it.index() as int)),
    {
        let ghost n = it.index() as int;
        assert(answers@.take(n + 1).drop_last() =~= answers@.take(n));
        let (name, coerced) = answer;
        match coerced {
            Ok(Some(value)) => coerced_values.insert(name, value),
            Ok(None) => {},
            Err(error) => errors.push(error),
        }
    }
    assert(answers@.take(answers@.len() as int) =~= answers@);
    if errors.is_empty() {
        Ok(coerced_values)
    } else {
        Err(errors)
    }
}

/// Whether `answer` may be what the coercion of the argument `definition` of `field` comes to. It
/// is asked with the value that the query gives, if any, with the current schema, and with the
/// values of the variables.
pub open spec fn argument_coerced<R1: Resolver, R2: Resolver, C: Coercion>(
    c: ContextView<R1, R2, C>,
    field: Field,
    definition: InputValue,
    answer: Coerced,
) -> bool {
    &&& answer.0 == definition.name
    &&& call_ensures(
        C::coerce_input_value,
        (
            &c.coercion,
            given_value(argument_value(field.arguments@, definition.name@)),
            &definition,
            &c.current_schema(),
            &c.variable_values,
        ),
        answer.1,
    )
}

/// A value that is passed by reference.
pub open spec fn given_value<'v>(value: Option<Value>) -> Option<&'v Value> {
    match value {
        Some(value) => Some(&value),
        None => None,
    }
}

/// Whether `answers` may be what the coercion of the arguments of `field` comes to, argument by
/// argument, as the field of that name of `object_type` defines them.
pub open spec fn arguments_coerced<R1: Resolver, R2: Resolver, C: Coercion>(
    c: ContextView<R1, R2, C>,
    object_type: ObjectType,
    field: Field,
    answers: Seq<Coerced>,
) -> bool {
    let definitions = argument_definitions(object_type, field.name@);
    &&& answers.len() == definitions.len()
    &&& forall|i: int|
        0 <= i < answers.len() ==> argument_coerced(c, field, definitions[i], #[trigger] answers[i])
}

/// Coerces argument values into GraphQL values.
pub fn coerce_argument_values<'a, R1, R2, C>(
    ctx: &ExecutionContext<'a, R1, R2, C>,
    object_type: &ObjectType,
    field: &Field,
) -> (result: Result<NameMap<Value>, Vec<QueryExecutionError>>) where
    R1: Resolver,
    R2: Resolver,
    C: Coercion,

    ensures
        exists|answers: Seq<Coerced>|
            #![trigger arguments_coerced(ctx@, *object_type, *field, answers)]
            arguments_coerced(ctx@, *object_type, *field, answers) && arguments_combined(
                answers,
                outcome(result),
            ),
{
    let mut answers: Vec<Coerced> = Vec::new();
    if let Some(definitions) = get_argument_definitions(object_type, &field.name) {
        let mut i: usize = 0;
        while i < definitions.len()
            invariant
                i <= definitions@.len(),
                answers@.len() == i,
                definitions@ == argument_definitions(*object_type, field.name@),
                forall|j: int|
                    0 <= j < i ==> argument_coerced(
                        ctx@,
                        *field,
                        definitions@[j],
                        #[trigger] answers@[j],
                    ),
            decreases definitions@.len() - i,
        {
            let definition = &definitions[i];
            let value = get_argument_value(&field.arguments, &definition.name);
            let coerced = ctx.coercion.coerce_input_value(
                value,
                definition,
                ctx.get_schema(),
                &ctx.variable_values,
            );
            answers.push((definition.name.clone(), coerced));
            i += 1;
        }
    }
    assert(arguments_coerced(ctx@, *object_type, *field, answers@));
    combine_arguments(answers)
}

/// What an operation makes of one of its variables, before its value is coerced.
pub enum VariableCase {
    /// Its type cannot be given as input.
    InvalidType,
    /// It has no value, and its type excludes null.
    Missing,
    /// It has no value, and needs none.
    Absent,
    /// It has this value.
    Given(Value),
}

/// The value of a variable: the one that is given for it, or else its default.
pub open spec fn variable_value(
    definition: VariableDefinition,
    variables: Option<NameMap<Value>>,
) -> Option<Value> {
    match variables {
        Some(values) => if values@.contains_key(definition.name@) {
            Some(values@[definition.name@])
        } else {
            definition.default_value
        },
        None => definition.default_value,
    }
}

/// What an operation makes of the variable `definition`, before its value is coerced.
pub open spec fn variable_case(
    schema: SchemaDocument,
    definition: VariableDefinition,
    variables: Option<NameMap<Value>>,
) -> VariableCase {
    if !input_type(schema, definition.var_type) {
        VariableCase::InvalidType
    } else {
        match variable_value(definition, variables) {
            Some(value) => VariableCase::Given(value),
            None => if definition.var_type is NonNullType {
                VariableCase::Missing
            } else {
                VariableCase::Absent
            },
        }
    }
}

/// Whether `answer` may be what the coercion of `value` to the type of the variable `definition`
/// comes to. No variable has a value while variables are coerced.
pub open spec fn variable_coerced<C: Coercion>(
    coercion: C,
    schema: SchemaDocument,
    definition: VariableDefinition,
    value: Value,
    answer: Option<Value>,
) -> bool {
    exists|none: NameMap<Value>|
        none@ == Map::<Seq<char>, Value>::empty() && #[trigger] call_ensures(
            C::coerce_value,
            (&coercion, &value, &definition.var_type, &schema, &none),
            answer,
        )
}

/// Whether `result` is the one error that `value` does not fit the variable `definition`.
pub open spec fn is_invalid_value<T>(
    definition: VariableDefinition,
    value: Value,
    result: Outcome<T>,
) -> bool {
    &&& result is Err
    &&& result->Err_0.len() == 1
    &&& result->Err_0[0] matches QueryExecutionError::InvalidArgumentError(position, name, invalid)
        && position == definition.position && name == definition.name && invalid@ == value@
}

/// Whether `result` is what the coercion of `value` to the type of the variable `definition` comes
/// to, if the answer is `answer`: the coerced value, or the error that the value does not fit.
pub open spec fn variable_result(
    definition: VariableDefinition,
    value: Value,
    answer: Option<Value>,
    result: Outcome<Value>,
) -> bool {
    match answer {
        Some(coerced) => result == Ok::<_, Seq<QueryExecutionError>>(coerced),
        None => is_invalid_value(definition, value, result),
    }
}

/// Takes the answer to the coercion of a variable's value.
pub fn coerced_or_invalid(
    variable_def: &VariableDefinition,
    value: &Value,
    answer: Option<Value>,
) -> (result: Result<Value, Vec<QueryExecutionError>>)
    ensures
        variable_result(*variable_def, *value, answer, outcome(result)),
{
    match answer {
        Some(coerced) => Ok(coerced),
        None => Err(
            one_error(
                QueryExecutionError::InvalidArgumentError(
                    variable_def.position,
                    variable_def.name.clone(),
                    value.clone(),
                ),
            ),
        ),
    }
}

/// Coerces the value of a variable.
pub fn coerce_variable_value<C: Coercion>(
    coercion: &C,
    schema: &Schema,
    variable_def: &VariableDefinition,
    value: &Value,
) -> (result: Result<Value, Vec<QueryExecutionError>>)
    ensures
        exists|answer: Option<Value>|
            #![trigger variable_coerced(*coercion, schema.document, *variable_def, *value, answer)]
            variable_coerced(*coercion, schema.document, *variable_def, *value, answer)
                && variable_result(*variable_def, *value, answer, outcome(result)),
{
    let none: NameMap<Value> = NameMap::new();
    let answer = coercion.coerce_value(value, &variable_def.var_type, &schema.document, &none);
    assert(variable_coerced(*coercion, schema.document, *variable_def, *value, answer));
    coerced_or_invalid(variable_def, value, answer)
}

/// Whether the answer to the coercion of the variable `definition` ends the coercion: it has a
/// value, and the value does not fit.
pub open spec fn variable_fails(
    schema: SchemaDocument,
    definition: VariableDefinition,
    variables: Option<NameMap<Value>>,
    answer: Option<Value>,
) -> bool {
    variable_case(schema, definition, variables) is Given && answer is None
}

/// Whether `answers` may be what the coercion of variables comes to, variable by variable. It ends
/// with the first value that does not fit. For a variable without a value nothing is asked, and its
/// answer does not matter.
pub open spec fn variables_coerced<C: Coercion>(
    coercion: C,
    schema: SchemaDocument,
    definitions: Seq<VariableDefinition>,
    variables: Option<NameMap<Value>>,
    answers: Seq<Option<Value>>,
) -> bool {
    &&& answers.len() <= definitions.len()
    &&& forall|i: int|
        0 <= i < answers.len() ==> {
            variable_case(schema, definitions[i], variables) matches VariableCase::Given(value)
                ==> variable_coerced(
                coercion,
                schema,
                definitions[i],
                value,
                #[trigger] answers[i],
            )
        }
    &&& forall|i: int|
        0 <= i < answers.len() - 1 ==> !variable_fails(
            schema,
            definitions[i],
            variables,
            #[trigger] answers[i],
        )
    &&& answers.len() < definitions.len() ==> ends_early(schema, definitions, variables, answers)
}

/// Whether the last of `answers` is that of a value that does not fit.
pub open spec fn ends_early(
    schema: SchemaDocument,
    definitions: Seq<VariableDefinition>,
    variables: Option<NameMap<Value>>,
    answers: Seq<Option<Value>>,
) -> bool {
    answers.len() > 0 && variable_fails(
        schema,
        definitions[answers.len() - 1],
        variables,
        answers.last(),
    )
}

/// The errors of the variables that have no valid type, or lack a value, in their order.
pub open spec fn variable_errors(
    schema: SchemaDocument,
    definitions: Seq<VariableDefinition>,
    variables: Option<NameMap<Value>>,
) -> Seq<QueryExecutionError>
    decreases definitions.len(),
{
    if definitions.len() == 0 {
        Seq::empty()
    } else {
        let before = variable_errors(schema, definitions.drop_last(), variables);
        let definition = definitions.last();
        match variable_case(schema, definition, variables) {
            VariableCase::InvalidType => before.push(
                QueryExecutionError::InvalidVariableTypeError(definition.position, definition.name),
            ),
            VariableCase::Missing => before.push(
                QueryExecutionError::MissingVariableError(definition.position, definition.name),
            ),
            _ => before,
        }
    }
}

/// The coerced values of the first variables of `definitions`, one for each of `answers`, by their
/// names.
pub open spec fn coerced_variables(
    schema: SchemaDocument,
    definitions: Seq<VariableDefinition>,
    variables: Option<NameMap<Value>>,
    answers: Seq<Option<Value>>,
) -> Map<Seq<char>, Value>
    decreases answers.len(),
{
    if answers.len() == 0 {
        Map::empty()
    } else {
        let before = coerced_variables(schema, definitions, variables, answers.drop_last());
        let definition = definitions[answers.len() - 1];
        match (variable_case(schema, definition, variables), answers.last()) {
            (VariableCase::Given(_), Some(coerced)) => before.insert(definition.name@, coerced),
            _ => before,
        }
    }
}

/// Whether `result` is what `answers` come to: the error of the first value that does not fit, or
/// else the errors of the variables without a valid type or value, or else the coerced values.
pub open spec fn variables_combined(
    schema: SchemaDocument,
    definitions: Seq<VariableDefinition>,
    variables: Option<NameMap<Value>>,
    answers: Seq<Option<Value>>,
    result: Outcome<NameMap<Value>>,
) -> bool {
    if ends_early(schema, definitions, variables, answers) {
        let definition = definitions[answers.len() - 1];
        is_invalid_value(
            definition,
            variable_case(schema, definition, variables)->Given_0,
            result,
        )
    } else {
        let errors = variable_errors(schema, definitions, variables);
        match result {
            Ok(values) => errors.len() == 0 && values@ == coerced_variables(
                schema,
                definitions,
                variables,
                answers,
            ),
            Err(e) => e.len() > 0 && e == errors,
        }
    }
}

/// Coerces variable values for an operation.
pub fn coerce_variable_values<C: Coercion>(
    coercion: &C,
    schema: &Schema,
    operation: &OperationDefinition,
    variables: &Option<NameMap<Value>>,
) -> (result: Result<NameMap<Value>, Vec<QueryExecutionError>>)
    ensures
        exists|answers: Seq<Option<Value>>|
            #![trigger variables_coerced(
                *coercion,
                schema.document,
                variable_definitions(*operation),
                *variables,
                answers,
            )]
            variables_coerced(
                *coercion,
                schema.document,
                variable_definitions(*operation),
                *variables,
                answers,
            ) && variables_combined(
                schema.document,
                variable_definitions(*operation),
                *variables,
                answers,
                outcome(result),
            ),
{
    let mut coerced_values: NameMap<Value> = NameMap::new();
    let mut errors: Vec<QueryExecutionError> = Vec::new();
    let ghost mut answers: Seq<Option<Value>> = Seq::empty();
    let ghost all = variable_definitions(*operation);

    if let Some(definitions) = get_variable_definitions(operation) {
        let mut i: usize = 0;
        assert(all.take(0) =~= Seq::empty());
        while i < definitions.len()
            invariant
                i <= definitions@.len(),
                all == variable_definitions(*operation),
                definitions@ == all,
                answers.len() == i,
                forall|j: int|
                    0 <= j < i ==> {
                        variable_case(schema.document, all[j], *variables) matches
                            VariableCase::Given(value) ==> variable_coerced(
                            *coercion,
                            schema.document,
                            all[j],
                            value,
                            #[trigger] answers[j],
                        )
                    },
                forall|j: int|
                    0 <= j < i ==> !variable_fails(
                        schema.document,
                        all[j],
                        *variables,
                        #[trigger] answers[j],
                    ),
                coerced_values@ == coerced_variables(schema.document, all, *variables, answers),
                errors@ == variable_errors(schema.document, all.take(i as int), *variables),
            decreases definitions@.len() - i,
        {
            let variable_def = &definitions[i];
            let ghost before = answers;
            assert(all.take(i + 1).drop_last() =~= all.take(i as int));
            assert forall|answer: Option<Value>| before.push(answer).drop_last() == before by {
                assert(before.push(answer).drop_last() =~= before);
            }
            i += 1;

            // Skip variable if it has an invalid type
            if !is_input_type(&schema.document, &variable_def.var_type) {
                errors.push(
                    QueryExecutionError::InvalidVariableTypeError(
                        variable_def.position,
                        variable_def.name.clone(),
                    ),
                );
                proof { answers = answers.push(None); }
                continue;
            }
            let given = match variables {
                Some(values) => values.get(&variable_def.name),
                None => None,
            };
            let value = match given {
                Some(value) => Some(value),
                None => variable_def.default_value.as_ref(),
            };
            match value {
                // No variable value provided and no default for non-null type, fail
                None => {
                    if is_non_null_type(&variable_def.var_type) {
                        errors.push(
                            QueryExecutionError::MissingVariableError(
                                variable_def.position,
                                variable_def.name.clone(),
                            ),
                        );
                    }
                    proof { answers = answers.push(None); }
                },
                // We have a variable value, attempt to coerce it to the value type
                // of the variable definition
                Some(value) => {
                    let coerced = coerce_variable_value(coercion, schema, variable_def, value);
                    proof {
                        let answer = choose|answer: Option<Value>|
                            #![trigger variable_coerced(
                                *coercion,
                                schema.document,
                                *variable_def,
                                *value,
                                answer,
                            )]
                            variable_coerced(
                                *coercion,
                                schema.document,
                                *variable_def,
                                *value,
                                answer,
                            ) && variable_result(*variable_def, *value, answer, outcome(coerced));
                        answers = answers.push(answer);
                    }
                    match coerced {
                        Ok(coerced) => {
                            coerced_values.insert(variable_def.name.clone(), coerced);
                        },
                        Err(errors) => {
                            assert(variables_coerced(
                                *coercion,
                                schema.document,
                                all,
                                *variables,
                                answers,
                            ));
                            return Err(errors);
                        },
                    }
                },
            }
        }
        assert(all.take(all.len() as int) =~= all);
    }
    assert(variables_coerced(*coercion, schema.document, all, *variables, answers));
    if errors.is_empty() {
        Ok(coerced_values)
    } else {
        Err(errors)
    }
}

} // verus!
