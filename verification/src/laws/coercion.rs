//! What holds of the values of arguments and variables.
use vstd::prelude::*;

use crate::coerce::Coerced;
use crate::coerce::VariableCase;
use crate::coerce::argument_coerced;
use crate::coerce::arguments_coerced;
use crate::coerce::arguments_combined;
use crate::coerce::coerced_variables;
use crate::coerce::ends_early;
use crate::coerce::errors_among;
use crate::coerce::values_among;
use crate::coerce::variable_case;
use crate::coerce::variable_coerced;
use crate::coerce::variable_errors;
use crate::coerce::variable_fails;
use crate::coerce::variable_value;
use crate::coerce::variables_coerced;
use crate::coerce::variables_combined;
use crate::context::ContextView;
use crate::error::Outcome;
use crate::error::QueryExecutionError;
use crate::name_map::NameMap;
use crate::named::Named;
use crate::named::lemma_first_named;
use crate::query::Field;
use crate::query::VariableDefinition;
use crate::query::argument_value;
use crate::resolver::Coercion;
use crate::resolver::Resolver;
use crate::schema::FieldDefinition;
use crate::schema::ObjectType;
use crate::schema::SchemaDocument;
use crate::schema::Type;
use crate::schema::argument_definitions;
use crate::schema::field_definition;
use crate::schema::input_type;
use crate::schema::named_type;
use crate::value::Value;

verus! {

/// There is no error among `answers` if and only if none of them is one.
proof fn lemma_no_errors(answers: Seq<Coerced>)
    ensures
        errors_among(answers).len() == 0 <==> forall|i: int|
            0 <= i < answers.len() ==> (#[trigger] answers[i]).1 is Ok,
    decreases answers.len(),
{
    if answers.len() > 0 {
        let rest = answers.drop_last();
        lemma_no_errors(rest);
        assert(answers[answers.len() - 1] == answers.last());
        if errors_among(answers).len() == 0 {
            assert forall|i: int| 0 <= i < answers.len() implies (
            #[trigger] answers[i]).1 is Ok by {
                if i < rest.len() {
                    assert(rest[i] == answers[i]);
                }
            }
        }
        if forall|i: int| 0 <= i < answers.len() ==> (#[trigger] answers[i]).1 is Ok {
            assert forall|i: int| 0 <= i < rest.len() implies (#[trigger] rest[i]).1 is Ok by {
                assert(rest[i] == answers[i]);
            }
        }
    }
}

/// The arguments of a field are valid if and only if each of them is; one that is not is enough for
/// all to be refused.
pub proof fn arguments_are_valid_together(answers: Seq<Coerced>, result: Outcome<NameMap<Value>>)
    requires
        arguments_combined(answers, result),
    ensures
        result is Ok <==> forall|i: int|
            0 <= i < answers.len() ==> (#[trigger] answers[i]).1 is Ok,
{
    lemma_no_errors(answers);
}

/// Valid arguments are those that have a value, and no others.
pub proof fn arguments_with_a_value_are_kept(
    answers: Seq<Coerced>,
    values: NameMap<Value>,
    name: Seq<char>,
)
    requires
        arguments_combined(answers, Ok(values)),
    ensures
        values@.contains_key(name) <==> exists|i: int|
            0 <= i < answers.len() && (#[trigger] answers[i]).0@ == name && answers[i].1 matches Ok(
                Some(_),
            ),
{
    lemma_values_among(answers, name);
}

/// Refused arguments are reported with the errors of all that are refused, in their order.
pub proof fn refused_arguments_are_reported_in_order(
    answers: Seq<Coerced>,
    result: Outcome<NameMap<Value>>,
)
    requires
        arguments_combined(answers, result),
        result is Err,
    ensures
        result->Err_0 == answers.filter(|answer: Coerced| answer.1 is Err).map_values(
            |answer: Coerced| answer.1->Err_0,
        ),
        result->Err_0.len() > 0,
{
    lemma_errors_in_order(answers);
}

/// The errors among `answers` are those of the answers that are errors, in their order.
proof fn lemma_errors_in_order(answers: Seq<Coerced>)
    ensures
        errors_among(answers) == answers.filter(|answer: Coerced| answer.1 is Err).map_values(
            |answer: Coerced| answer.1->Err_0,
        ),
    decreases answers.len(),
{
    reveal(Seq::filter);
    let refused = |answer: Coerced| answer.1 is Err;
    let error = |answer: Coerced| answer.1->Err_0;
    if answers.len() > 0 {
        lemma_errors_in_order(answers.drop_last());
        let before = answers.drop_last().filter(refused);
        if answers.last().1 is Err {
            assert(before.push(answers.last()).map_values(error) =~= before.map_values(error).push(
                answers.last().1->Err_0,
            ));
        }
    } else {
        assert(errors_among(answers) =~= answers.filter(refused).map_values(error));
    }
}

/// Where a name comes up several times among valid arguments, its last value counts.
pub proof fn last_value_of_an_argument_counts(
    answers: Seq<Coerced>,
    values: NameMap<Value>,
    i: int,
)
    requires
        arguments_combined(answers, Ok(values)),
        0 <= i < answers.len(),
        answers[i].1 matches Ok(Some(_)),
        forall|j: int| i < j < answers.len() ==> (#[trigger] answers[j]).0@ != answers[i].0@,
    ensures
        values@.contains_key(answers[i].0@),
        values@[answers[i].0@] == answers[i].1->Ok_0->0,
{
    lemma_last_value(answers, i);
}

/// The last value of a name among `answers` counts.
proof fn lemma_last_value(answers: Seq<Coerced>, i: int)
    requires
        0 <= i < answers.len(),
        answers[i].1 matches Ok(Some(_)),
        forall|j: int| i < j < answers.len() ==> (#[trigger] answers[j]).0@ != answers[i].0@,
    ensures
        values_among(answers).contains_key(answers[i].0@),
        values_among(answers)[answers[i].0@] == answers[i].1->Ok_0->0,
    decreases answers.len(),
{
    let n = answers.len() - 1;
    if i < n {
        let rest = answers.drop_last();
        assert forall|j: int| i < j < rest.len() implies (#[trigger] rest[j]).0@ != rest[i].0@ by {
            assert(answers[j].0@ != answers[i].0@);
        }
        lemma_last_value(rest, i);
        assert(answers[n].0@ != answers[i].0@);
    }
}

/// The value of a valid argument is what the coercion has made of it, if no name comes up twice.
pub proof fn arguments_have_their_coerced_values(
    answers: Seq<Coerced>,
    values: NameMap<Value>,
    i: int,
)
    requires
        arguments_combined(answers, Ok(values)),
        forall|j: int, k: int|
            0 <= j < k < answers.len() ==> (#[trigger] answers[j]).0@ != (#[trigger] answers[k]).0@,
        0 <= i < answers.len(),
        answers[i].1 matches Ok(Some(_)),
    ensures
        values@.contains_key(answers[i].0@),
        answers[i].1 == Ok::<_, QueryExecutionError>(Some(values@[answers[i].0@])),
{
    lemma_value_among(answers, i);
}

/// The value of a name among `answers`, if no name comes up twice.
proof fn lemma_value_among(answers: Seq<Coerced>, i: int)
    requires
        forall|j: int, k: int|
            0 <= j < k < answers.len() ==> (#[trigger] answers[j]).0@ != (#[trigger] answers[k]).0@,
        0 <= i < answers.len(),
        answers[i].1 matches Ok(Some(_)),
    ensures
        values_among(answers).contains_key(answers[i].0@),
        answers[i].1 == Ok::<_, QueryExecutionError>(Some(values_among(answers)[answers[i].0@])),
    decreases answers.len(),
{
    let n = answers.len() - 1;
    if i < n {
        let rest = answers.drop_last();
        assert forall|j: int, k: int| 0 <= j < k < rest.len() implies (#[trigger] rest[j]).0@ != (
        #[trigger] rest[k]).0@ by {
            assert(answers[j].0@ != answers[k].0@);
        }
        lemma_value_among(rest, i);
        assert(answers[i].0@ != answers[n].0@);
    }
}

/// Which names have a value among `answers`.
proof fn lemma_values_among(answers: Seq<Coerced>, name: Seq<char>)
    ensures
        values_among(answers).contains_key(name) <==> exists|i: int|
            0 <= i < answers.len() && (#[trigger] answers[i]).0@ == name && answers[i].1 matches Ok(
                Some(_),
            ),
    decreases answers.len(),
{
    if answers.len() > 0 {
        let rest = answers.drop_last();
        let n = answers.len() - 1;
        lemma_values_among(rest, name);
        assert(answers[n] == answers.last());
        if values_among(rest).contains_key(name) {
            let i = choose|i: int|
                0 <= i < rest.len() && (#[trigger] rest[i]).0@ == name && rest[i].1 matches Ok(
                    Some(_),
                );
            assert(answers[i] == rest[i]);
        }
        if exists|i: int|
            0 <= i < answers.len() && (#[trigger] answers[i]).0@ == name && answers[i].1 matches Ok(
                Some(_),
            ) {
            let i = choose|i: int|
                0 <= i < answers.len() && (#[trigger] answers[i]).0@ == name
                    && answers[i].1 matches Ok(Some(_));
            if i < n {
                assert(rest[i] == answers[i]);
            }
        }
    }
}

/// Arguments that a field does not define are ignored: where two fields give the same values for
/// the arguments that are defined, their arguments come to the same.
pub proof fn undefined_arguments_are_ignored<R1: Resolver, R2: Resolver, C: Coercion>(
    c: ContextView<R1, R2, C>,
    object_type: ObjectType,
    field: Field,
    other: Field,
    answers: Seq<Coerced>,
)
    requires
        field.name@ == other.name@,
        forall|i: int|
            0 <= i < argument_definitions(object_type, field.name@).len() ==> argument_value(
                field.arguments@,
                (#[trigger] argument_definitions(object_type, field.name@)[i]).name@,
            ) == argument_value(
                other.arguments@,
                argument_definitions(object_type, field.name@)[i].name@,
            ),
    ensures
        arguments_coerced(c, object_type, field, answers) <==> arguments_coerced(
            c,
            object_type,
            other,
            answers,
        ),
{
    let definitions = argument_definitions(object_type, field.name@);
    if answers.len() == definitions.len() {
        assert forall|i: int| 0 <= i < answers.len() implies argument_coerced(
            c,
            field,
            definitions[i],
            #[trigger] answers[i],
        ) == argument_coerced(c, other, definitions[i], answers[i]) by {
            assert(argument_value(field.arguments@, definitions[i].name@) == argument_value(
                other.arguments@,
                definitions[i].name@,
            ));
        }
        assert(arguments_coerced(c, object_type, field, answers) ==> arguments_coerced(
            c,
            object_type,
            other,
            answers,
        ));
    }
}

/// Where a variable is given a value, null included, its default does not matter.
pub proof fn given_value_makes_the_default_irrelevant(
    schema: SchemaDocument,
    definition: VariableDefinition,
    other: VariableDefinition,
    given: NameMap<Value>,
)
    requires
        given@.contains_key(definition.name@),
        definition.name@ == other.name@,
        definition.var_type == other.var_type,
    ensures
        variable_value(definition, Some(given)) == Some(given@[definition.name@]),
        variable_case(schema, definition, Some(given)) == variable_case(schema, other, Some(given)),
{
}

/// Whether the variable `definition` has a type that can be given as input, and a value if it needs
/// one.
pub open spec fn acceptable(
    schema: SchemaDocument,
    definition: VariableDefinition,
    variables: Option<NameMap<Value>>,
) -> bool {
    match variable_case(schema, definition, variables) {
        VariableCase::InvalidType => false,
        VariableCase::Missing => false,
        VariableCase::Absent => true,
        VariableCase::Given(_) => true,
    }
}

/// There is no error of a variable if and only if each variable is acceptable.
proof fn lemma_no_variable_errors(
    schema: SchemaDocument,
    definitions: Seq<VariableDefinition>,
    variables: Option<NameMap<Value>>,
)
    ensures
        variable_errors(schema, definitions, variables).len() == 0 <==> forall|i: int|
            0 <= i < definitions.len() ==> acceptable(schema, #[trigger] definitions[i], variables),
    decreases definitions.len(),
{
    if definitions.len() > 0 {
        let rest = definitions.drop_last();
        lemma_no_variable_errors(schema, rest, variables);
        assert(definitions[definitions.len() - 1] == definitions.last());
        if variable_errors(schema, definitions, variables).len() == 0 {
            assert forall|i: int| 0 <= i < definitions.len() implies acceptable(
                schema,
                #[trigger] definitions[i],
                variables,
            ) by {
                if i < rest.len() {
                    assert(rest[i] == definitions[i]);
                }
            }
        }
        if forall|i: int|
            0 <= i < definitions.len() ==> acceptable(
                schema,
                #[trigger] definitions[i],
                variables,
            ) {
            assert forall|i: int| 0 <= i < rest.len() implies acceptable(
                schema,
                #[trigger] rest[i],
                variables,
            ) by {
                assert(rest[i] == definitions[i]);
            }
        }
    }
}

/// Which names have a value among the first variables of `definitions`.
proof fn lemma_coerced_variables(
    schema: SchemaDocument,
    definitions: Seq<VariableDefinition>,
    variables: Option<NameMap<Value>>,
    answers: Seq<Option<Value>>,
    name: Seq<char>,
)
    requires
        answers.len() <= definitions.len(),
        forall|i: int|
            0 <= i < answers.len() ==> !variable_fails(
                schema,
                definitions[i],
                variables,
                #[trigger] answers[i],
            ),
    ensures
        coerced_variables(schema, definitions, variables, answers).contains_key(name) <==> exists|
            i: int,
        |
            0 <= i < answers.len() && (#[trigger] definitions[i]).name@ == name && variable_case(
                schema,
                definitions[i],
                variables,
            ) is Given,
    decreases answers.len(),
{
    if answers.len() > 0 {
        let rest = answers.drop_last();
        let n = answers.len() - 1;
        assert forall|i: int| 0 <= i < rest.len() implies !variable_fails(
            schema,
            definitions[i],
            variables,
            #[trigger] rest[i],
        ) by {
            assert(rest[i] == answers[i]);
        }
        lemma_coerced_variables(schema, definitions, variables, rest, name);
        assert(answers[n] == answers.last());
        assert(!variable_fails(schema, definitions[n], variables, answers[n]));
        assert(definitions[n] == definitions[n]);
    }
}

/// The variables of an operation are accepted if and only if each has a type that can be given as
/// input, a value if it needs one, and no value that does not fit its type; the operation then has
/// a value for each variable that was given one or has a default, and for no other.
pub proof fn variables_are_accepted_together<C: Coercion>(
    coercion: C,
    schema: SchemaDocument,
    definitions: Seq<VariableDefinition>,
    variables: Option<NameMap<Value>>,
    answers: Seq<Option<Value>>,
    result: Outcome<NameMap<Value>>,
)
    requires
        variables_coerced(coercion, schema, definitions, variables, answers),
        variables_combined(schema, definitions, variables, answers, result),
    ensures
        result is Ok <==> {
            &&& forall|i: int|
                0 <= i < definitions.len() ==> acceptable(
                    schema,
                    #[trigger] definitions[i],
                    variables,
                )
            &&& forall|i: int|
                0 <= i < answers.len() ==> !variable_fails(
                    schema,
                    definitions[i],
                    variables,
                    #[trigger] answers[i],
                )
        },
        result matches Ok(values) ==> forall|name: Seq<char>| #[trigger]
            values@.contains_key(name) <==> exists|i: int|
                0 <= i < definitions.len() && (#[trigger] definitions[i]).name@ == name
                    && variable_case(schema, definitions[i], variables) is Given,
{
    lemma_no_variable_errors(schema, definitions, variables);
    if !ends_early(schema, definitions, variables, answers) {
        assert forall|i: int| 0 <= i < answers.len() implies !variable_fails(
            schema,
            definitions[i],
            variables,
            #[trigger] answers[i],
        ) by {
            if i == answers.len() - 1 {
                assert(answers[i] == answers.last());
            }
        }
        if let Ok(values) = result {
            assert forall|name: Seq<char>| #[trigger] values@.contains_key(name) <==> exists|i: int|
                0 <= i < definitions.len() && (#[trigger] definitions[i]).name@ == name
                    && variable_case(schema, definitions[i], variables) is Given by {
                lemma_coerced_variables(schema, definitions, variables, answers, name);
            }
        }
    } else {
        assert(answers[answers.len() - 1] == answers.last());
    }
}

/// The value of a variable is what the coercion has made of the value that it was given, or else of
/// its default. Where several variables of one name have a value, the last counts.
pub proof fn variables_have_their_coerced_values<C: Coercion>(
    coercion: C,
    schema: SchemaDocument,
    definitions: Seq<VariableDefinition>,
    variables: Option<NameMap<Value>>,
    answers: Seq<Option<Value>>,
    values: NameMap<Value>,
    i: int,
)
    requires
        variables_coerced(coercion, schema, definitions, variables, answers),
        variables_combined(schema, definitions, variables, answers, Ok(values)),
        0 <= i < definitions.len(),
        forall|j: int|
            i < j < definitions.len() && (#[trigger] definitions[j]).name@ == definitions[i].name@
                ==> variable_value(definitions[j], variables) is None,
        variable_value(definitions[i], variables) is Some,
    ensures
        values@.contains_key(definitions[i].name@),
        variable_coerced(
            coercion,
            schema,
            definitions[i],
            variable_value(definitions[i], variables)->0,
            Some(values@[definitions[i].name@]),
        ),
{
    variables_are_accepted_together(
        coercion,
        schema,
        definitions,
        variables,
        answers,
        Ok(values),
    );
    assert(acceptable(schema, definitions[i], variables));
    assert(!variable_fails(schema, definitions[i], variables, answers[i]));
    lemma_value_of_variable(schema, definitions, variables, answers, i);
}

/// The value of a variable is the answer to its coercion, if no variable of its name behind it has
/// a value.
proof fn lemma_value_of_variable(
    schema: SchemaDocument,
    definitions: Seq<VariableDefinition>,
    variables: Option<NameMap<Value>>,
    answers: Seq<Option<Value>>,
    i: int,
)
    requires
        0 <= i < answers.len() <= definitions.len(),
        forall|j: int|
            i < j < answers.len() && (#[trigger] definitions[j]).name@ == definitions[i].name@
                ==> !(variable_case(schema, definitions[j], variables) is Given),
        variable_case(schema, definitions[i], variables) is Given,
        answers[i] is Some,
    ensures
        coerced_variables(schema, definitions, variables, answers).contains_key(
            definitions[i].name@,
        ),
        coerced_variables(schema, definitions, variables, answers)[definitions[i].name@]
            == answers[i]->0,
    decreases answers.len(),
{
    let n = answers.len() - 1;
    if i < n {
        lemma_value_of_variable(schema, definitions, variables, answers.drop_last(), i);
        if definitions[n].name@ == definitions[i].name@ {
            assert(!(variable_case(schema, definitions[n], variables) is Given));
        }
    }
}

/// Whether the variable `definition` is given a value.
pub open spec fn is_given(
    definition: VariableDefinition,
    variables: Option<NameMap<Value>>,
) -> bool {
    variables is Some && variables->0@.contains_key(definition.name@)
}

/// Whether the named type that is left of `ty` is a scalar, an enum or an input object of `schema`.
pub open spec fn may_be_input(schema: SchemaDocument, ty: Type) -> bool
    decreases ty,
{
    match ty {
        Type::ListType(inner) => may_be_input(schema, *inner),
        Type::NonNullType(inner) => may_be_input(schema, *inner),
        Type::NamedType(name) => {
            &&& named_type(schema, name@) is Some
            &&& named_type(schema, name@)->0 is Scalar || named_type(schema, name@)->0 is Enum
                || named_type(schema, name@)->0 is InputObject
        },
    }
}

/// Lists and non-null marks do not matter to whether a type can be given as input.
pub proof fn input_types_are_scalars_enums_and_input_objects(schema: SchemaDocument, ty: Type)
    ensures
        input_type(schema, ty) == may_be_input(schema, ty),
    decreases ty,
{
    match ty {
        Type::ListType(inner) => input_types_are_scalars_enums_and_input_objects(schema, *inner),
        Type::NonNullType(inner) => input_types_are_scalars_enums_and_input_objects(schema, *inner),
        Type::NamedType(_) => {},
    }
}

/// A variable whose type excludes null, be it a list or not, must have a value: where one is given
/// none and has no default, the variables are refused.
pub proof fn missing_required_variable_is_refused<C: Coercion>(
    coercion: C,
    schema: SchemaDocument,
    definitions: Seq<VariableDefinition>,
    variables: Option<NameMap<Value>>,
    answers: Seq<Option<Value>>,
    result: Outcome<NameMap<Value>>,
    i: int,
)
    requires
        variables_coerced(coercion, schema, definitions, variables, answers),
        variables_combined(schema, definitions, variables, answers, result),
        0 <= i < definitions.len(),
        definitions[i].var_type is NonNullType,
        !is_given(definitions[i], variables),
        definitions[i].default_value is None,
    ensures
        result is Err,
        result->Err_0.len() > 0,
{
    variables_are_accepted_together(coercion, schema, definitions, variables, answers, result);
    assert(!acceptable(schema, definitions[i], variables));
}

/// A variable whose type cannot be given as input is refused, whether or not it has a value.
pub proof fn variable_of_another_type_is_refused<C: Coercion>(
    coercion: C,
    schema: SchemaDocument,
    definitions: Seq<VariableDefinition>,
    variables: Option<NameMap<Value>>,
    answers: Seq<Option<Value>>,
    result: Outcome<NameMap<Value>>,
    i: int,
)
    requires
        variables_coerced(coercion, schema, definitions, variables, answers),
        variables_combined(schema, definitions, variables, answers, result),
        0 <= i < definitions.len(),
        !may_be_input(schema, definitions[i].var_type),
    ensures
        result is Err,
        result->Err_0.len() > 0,
{
    input_types_are_scalars_enums_and_input_objects(schema, definitions[i].var_type);
    variables_are_accepted_together(coercion, schema, definitions, variables, answers, result);
    assert(!acceptable(schema, definitions[i], variables));
}

/// Where variables are accepted, the names that have a value are those of the variables that are
/// given one or have a default, and so of each variable whose type excludes null.
pub proof fn accepted_variables_have_their_values<C: Coercion>(
    coercion: C,
    schema: SchemaDocument,
    definitions: Seq<VariableDefinition>,
    variables: Option<NameMap<Value>>,
    answers: Seq<Option<Value>>,
    values: NameMap<Value>,
)
    requires
        variables_coerced(coercion, schema, definitions, variables, answers),
        variables_combined(schema, definitions, variables, answers, Ok(values)),
    ensures
        forall|i: int|
            0 <= i < definitions.len() ==> may_be_input(
                schema,
                (#[trigger] definitions[i]).var_type,
            ),
        forall|i: int|
            0 <= i < definitions.len() && (#[trigger] definitions[i]).var_type is NonNullType
                ==> values@.contains_key(definitions[i].name@),
        forall|i: int|
            0 <= i < definitions.len() && (is_given(#[trigger] definitions[i], variables)
                || definitions[i].default_value is Some) ==> values@.contains_key(
                definitions[i].name@,
            ),
        forall|name: Seq<char>| #[trigger]
            values@.contains_key(name) ==> exists|i: int|
                0 <= i < definitions.len() && (#[trigger] definitions[i]).name@ == name && (
                is_given(definitions[i], variables) || definitions[i].default_value is Some),
{
    variables_are_accepted_together(
        coercion,
        schema,
        definitions,
        variables,
        answers,
        Ok(values),
    );
    assert forall|i: int| 0 <= i < definitions.len() implies may_be_input(
        schema,
        (#[trigger] definitions[i]).var_type,
    ) && (definitions[i].var_type is NonNullType || is_given(definitions[i], variables)
        || definitions[i].default_value is Some ==> values@.contains_key(
        definitions[i].name@,
    )) by {
        assert(acceptable(schema, definitions[i], variables));
        input_types_are_scalars_enums_and_input_objects(schema, definitions[i].var_type);
        if variable_case(schema, definitions[i], variables) is Given {
            let name = definitions[i].name@;
            assert(values@.contains_key(name));
        }
    }
}

/// The coercion is asked with the value that is given for a variable, or else with its default, and
/// with the type of the variable, while no variable has a value; what it answers is the value of
/// the variable. Where several variables of one name have a value, the last counts.
pub proof fn given_variable_is_coerced_to_its_type<C: Coercion>(
    coercion: C,
    schema: SchemaDocument,
    definitions: Seq<VariableDefinition>,
    variables: Option<NameMap<Value>>,
    answers: Seq<Option<Value>>,
    values: NameMap<Value>,
    i: int,
) -> (asked: (Value, NameMap<Value>))
    requires
        variables_coerced(coercion, schema, definitions, variables, answers),
        variables_combined(schema, definitions, variables, answers, Ok(values)),
        0 <= i < definitions.len(),
        forall|j: int|
            i < j < definitions.len() && (#[trigger] definitions[j]).name@ == definitions[i].name@
                ==> !is_given(definitions[j], variables) && definitions[j].default_value is None,
        is_given(definitions[i], variables) || definitions[i].default_value is Some,
    ensures
        is_given(definitions[i], variables) ==> asked.0 == variables->0@[definitions[i].name@],
        !is_given(definitions[i], variables) ==> asked.0 == definitions[i].default_value->0,
        asked.1@ == Map::<Seq<char>, Value>::empty(),
        values@.contains_key(definitions[i].name@),
        call_ensures(
            C::coerce_value,
            (&coercion, &asked.0, &definitions[i].var_type, &schema, &asked.1),
            Some(values@[definitions[i].name@]),
        ),
{
    variables_have_their_coerced_values(
        coercion,
        schema,
        definitions,
        variables,
        answers,
        values,
        i,
    );
    let value = variable_value(definitions[i], variables)->0;
    let answer = Some(values@[definitions[i].name@]);
    let none = choose|none: NameMap<Value>|
        none@ == Map::<Seq<char>, Value>::empty() && #[trigger] call_ensures(
            C::coerce_value,
            (&coercion, &value, &definitions[i].var_type, &schema, &none),
            answer,
        );
    (value, none)
}

/// Where variables are refused though every value fits, each that has a type which cannot be given
/// as input is an error of this, and each that lacks a value which it needs; there is no other
/// error.
pub proof fn refused_variables_are_each_reported<C: Coercion>(
    coercion: C,
    schema: SchemaDocument,
    definitions: Seq<VariableDefinition>,
    variables: Option<NameMap<Value>>,
    answers: Seq<Option<Value>>,
    result: Outcome<NameMap<Value>>,
    error: QueryExecutionError,
)
    requires
        variables_coerced(coercion, schema, definitions, variables, answers),
        variables_combined(schema, definitions, variables, answers, result),
        result is Err,
        forall|i: int|
            0 <= i < answers.len() && may_be_input(schema, (#[trigger] definitions[i]).var_type)
                && (
            is_given(definitions[i], variables) || definitions[i].default_value is Some)
                ==> answers[i] is Some,
    ensures
        result->Err_0.contains(error) <==> exists|i: int|
            0 <= i < definitions.len() && refused_for(
                schema,
                #[trigger] definitions[i],
                variables,
                error,
            ),
{
    if ends_early(schema, definitions, variables, answers) {
        let n = answers.len() - 1;
        input_types_are_scalars_enums_and_input_objects(schema, definitions[n].var_type);
        assert(answers[n] is Some);
    }
    lemma_reported(schema, definitions, variables, error);
}

/// Whether `error` is the one of the variable `definition`: that its type cannot be given as input,
/// or else that it lacks a value which it needs.
pub open spec fn refused_for(
    schema: SchemaDocument,
    definition: VariableDefinition,
    variables: Option<NameMap<Value>>,
    error: QueryExecutionError,
) -> bool {
    if !may_be_input(schema, definition.var_type) {
        error == QueryExecutionError::InvalidVariableTypeError(definition.position, definition.name)
    } else {
        &&& definition.var_type is NonNullType
        &&& !is_given(definition, variables)
        &&& definition.default_value is None
        &&& error == QueryExecutionError::MissingVariableError(definition.position, definition.name)
    }
}

/// The errors of variables are those for which they are refused.
pub proof fn lemma_reported(
    schema: SchemaDocument,
    definitions: Seq<VariableDefinition>,
    variables: Option<NameMap<Value>>,
    error: QueryExecutionError,
)
    ensures
        variable_errors(schema, definitions, variables).contains(error) <==> exists|i: int|
            0 <= i < definitions.len() && refused_for(
                schema,
                #[trigger] definitions[i],
                variables,
                error,
            ),
    decreases definitions.len(),
{
    let after = variable_errors(schema, definitions, variables);
    if definitions.len() > 0 {
        let rest = definitions.drop_last();
        let n = definitions.len() - 1;
        let before = variable_errors(schema, rest, variables);
        lemma_reported(schema, rest, variables, error);
        input_types_are_scalars_enums_and_input_objects(schema, definitions[n].var_type);
        assert(definitions[n] == definitions.last());
        if after.contains(error) {
            let k = after.index_of(error);
            if k < before.len() {
                assert(before[k] == error);
                let i = choose|i: int|
                    0 <= i < rest.len() && refused_for(
                        schema,
                        #[trigger] rest[i],
                        variables,
                        error,
                    );
                assert(definitions[i] == rest[i]);
            } else {
                assert(refused_for(schema, definitions[n], variables, error));
            }
        }
        if exists|i: int|
            0 <= i < definitions.len() && refused_for(
                schema,
                #[trigger] definitions[i],
                variables,
                error,
            ) {
            let i = choose|i: int|
                0 <= i < definitions.len() && refused_for(
                    schema,
                    #[trigger] definitions[i],
                    variables,
                    error,
                );
            if i < n {
                assert(rest[i] == definitions[i]);
                assert(before.contains(error));
                assert(after[before.index_of(error)] == error);
            } else {
                assert(after[before.len() as int] == error);
            }
        }
    }
}

/// The errors of variables are in the order of the variables: those of the first come before those
/// of the others.
pub proof fn variable_errors_are_in_order(
    schema: SchemaDocument,
    first: Seq<VariableDefinition>,
    second: Seq<VariableDefinition>,
    variables: Option<NameMap<Value>>,
)
    ensures
        variable_errors(schema, first + second, variables) == variable_errors(
            schema,
            first,
            variables,
        ) + variable_errors(schema, second, variables),
    decreases second.len(),
{
    if second.len() == 0 {
        assert(first + second =~= first);
        assert(variable_errors(schema, first, variables) + variable_errors(
            schema,
            second,
            variables,
        ) =~= variable_errors(schema, first, variables));
    } else {
        assert((first + second).drop_last() =~= first + second.drop_last());
        variable_errors_are_in_order(schema, first, second.drop_last(), variables);
        assert(variable_errors(schema, first + second, variables) =~= variable_errors(
            schema,
            first,
            variables,
        ) + variable_errors(schema, second, variables));
    }
}

/// The first value that the coercion refuses ends the coercion of variables: it is the only error,
/// with the position and the name of the variable and the value.
pub proof fn value_that_does_not_fit_is_the_only_error<C: Coercion>(
    coercion: C,
    schema: SchemaDocument,
    definitions: Seq<VariableDefinition>,
    variables: Option<NameMap<Value>>,
    answers: Seq<Option<Value>>,
    result: Outcome<NameMap<Value>>,
    i: int,
)
    requires
        variables_coerced(coercion, schema, definitions, variables, answers),
        variables_combined(schema, definitions, variables, answers, result),
        0 <= i < answers.len(),
        may_be_input(schema, definitions[i].var_type),
        is_given(definitions[i], variables) || definitions[i].default_value is Some,
        answers[i] is None,
    ensures
        answers.len() == i + 1,
        result is Err,
        result->Err_0.len() == 1,
        result->Err_0[0] is InvalidArgumentError,
        result->Err_0[0]->InvalidArgumentError_0 == definitions[i].position,
        result->Err_0[0]->InvalidArgumentError_1 == definitions[i].name,
        is_given(definitions[i], variables) ==> result->Err_0[0]->InvalidArgumentError_2@
            == variables->0@[definitions[i].name@]@,
        !is_given(definitions[i], variables) ==> result->Err_0[0]->InvalidArgumentError_2@
            == definitions[i].default_value->0@,
{
    input_types_are_scalars_enums_and_input_objects(schema, definitions[i].var_type);
    assert(variable_fails(schema, definitions[i], variables, answers[i]));
    assert(i == answers.len() - 1);
    assert(answers[i] == answers.last());
}

/// Every variable is coerced, unless one before it has a value that does not fit.
pub proof fn variables_are_coerced_in_order<C: Coercion>(
    coercion: C,
    schema: SchemaDocument,
    definitions: Seq<VariableDefinition>,
    variables: Option<NameMap<Value>>,
    answers: Seq<Option<Value>>,
)
    requires
        variables_coerced(coercion, schema, definitions, variables, answers),
        answers.len() < definitions.len(),
    ensures
        answers.len() > 0,
        answers[answers.len() - 1] is None,
        is_given(definitions[answers.len() - 1], variables) || definitions[answers.len()
            - 1].default_value is Some,
        may_be_input(schema, definitions[answers.len() - 1].var_type),
{
    input_types_are_scalars_enums_and_input_objects(
        schema,
        definitions[answers.len() - 1].var_type,
    );
}

/// The coercion is asked once for each argument that the field of that name defines, in their
/// order: with the first value that the query gives under its name, if any, with the definition,
/// with the schema in use, and with the values of the variables. Its answer goes under the name of
/// the argument.
pub proof fn argument_is_coerced_with_the_given_value<R1: Resolver, R2: Resolver, C: Coercion>(
    c: ContextView<R1, R2, C>,
    object_type: ObjectType,
    field: Field,
    definition: FieldDefinition,
    answers: Seq<Coerced>,
    i: int,
)
    requires
        arguments_coerced(c, object_type, field, answers),
        field_definition(object_type, field.name@) == Some(definition),
    ensures
        answers.len() == definition.arguments@.len(),
        0 <= i < answers.len() ==> {
            let schema = if c.introspecting {
                c.introspection_schema
            } else {
                c.schema.document
            };
            &&& answers[i].0 == definition.arguments@[i].name
            &&& forall|k: int|
                0 <= k < field.arguments@.len() && (#[trigger] field.arguments@[k]).0@
                    == definition.arguments@[i].name@ && (forall|l: int|
                    0 <= l < k ==> (#[trigger] field.arguments@[l]).0@
                        != definition.arguments@[i].name@) ==> call_ensures(
                    C::coerce_input_value,
                    (
                        &c.coercion,
                        Some(&field.arguments@[k].1),
                        &definition.arguments@[i],
                        &schema,
                        &c.variable_values,
                    ),
                    answers[i].1,
                )
            &&& (forall|k: int|
                0 <= k < field.arguments@.len() ==> (#[trigger] field.arguments@[k]).0@
                    != definition.arguments@[i].name@) ==> call_ensures(
                C::coerce_input_value,
                (&c.coercion, None, &definition.arguments@[i], &schema, &c.variable_values),
                answers[i].1,
            )
        },
{
    if 0 <= i < answers.len() {
        let name = definition.arguments@[i].name@;
        assert(argument_coerced(c, field, definition.arguments@[i], answers[i]));
        let n = lemma_first_named(field.arguments@, name);
        assert forall|k: int|
            0 <= k < field.arguments@.len() && (#[trigger] field.arguments@[k]).0@ == name && (
            forall|l: int| 0 <= l < k ==> (#[trigger] field.arguments@[l]).0@ != name) implies n
            == k && argument_value(field.arguments@, name) == Some(field.arguments@[k].1) by {
            assert(field.arguments@[k].called() == name);
            if n < k {
                assert(field.arguments@[n].0@ != name);
            }
        }
        if forall|k: int|
            0 <= k < field.arguments@.len() ==> (#[trigger] field.arguments@[k]).0@ != name {
            assert(argument_value(field.arguments@, name) is None) by {
                if argument_value(field.arguments@, name) is Some {
                    assert(field.arguments@[n].called() == name);
                }
            }
        }
    }
}

/// A field that the object type does not have is coerced without arguments.
pub proof fn unknown_field_has_no_arguments<R1: Resolver, R2: Resolver, C: Coercion>(
    c: ContextView<R1, R2, C>,
    object_type: ObjectType,
    field: Field,
    answers: Seq<Coerced>,
)
    requires
        arguments_coerced(c, object_type, field, answers),
        field_definition(object_type, field.name@) is None,
    ensures
        answers.len() == 0,
{
}

} // verus!
