//! What holds of the lookup of types, fields, fragments, directives and arguments by their names.
use vstd::prelude::*;

use crate::clock::taken;
use crate::clock::timed_out;
use crate::error::QueryExecutionError;
use crate::error::outcome;
use crate::named::Named;
use crate::named::first_named;
use crate::named::lemma_first_named;
use crate::query::Document;
use crate::query::Field;
use crate::query::OperationDefinition;
use crate::query::Selection;
use crate::query::active;
use crate::query::argument_value;
use crate::query::condition_holds;
use crate::query::response_key;
use crate::query::variable_definitions;
use crate::schema::Directive;
use crate::schema::ObjectType;
use crate::schema::SchemaDocument;
use crate::schema::Type;
use crate::schema::TypeDefinition;
use crate::schema::argument_definitions;
use crate::schema::field_definition;
use crate::schema::is_query_type;
use crate::schema::named_type;
use crate::schema::output_type;
use crate::schema::query_type_among;
use crate::schema::root_query_type;
use crate::value::Value;

verus! {

/// Whether `definition` defines a type called `name`, of whatever kind.
pub open spec fn defines(definition: TypeDefinition, name: Seq<char>) -> bool {
    ||| definition is Scalar && definition->Scalar_0.name@ == name
    ||| definition is Object && definition->Object_0.name@ == name
    ||| definition is Interface && definition->Interface_0.name@ == name
    ||| definition is Union && definition->Union_0.name@ == name
    ||| definition is Enum && definition->Enum_0.name@ == name
    ||| definition is InputObject && definition->InputObject_0.name@ == name
}

/// The type called `name` is the first that the schema defines under that name, of whatever kind;
/// there is none if no type is called so.
pub proof fn type_is_the_first_of_its_name(schema: SchemaDocument, name: Seq<char>, i: int)
    ensures
        0 <= i < schema.types@.len() && defines(schema.types@[i], name) && (forall|j: int|
            0 <= j < i ==> !defines(#[trigger] schema.types@[j], name)) ==> named_type(schema, name)
            == Some(schema.types@[i]),
        (forall|j: int| 0 <= j < schema.types@.len() ==> !defines(
            #[trigger] schema.types@[j],
            name,
        ))
            ==> named_type(schema, name) is None,
        named_type(schema, name) is Some ==> defines(named_type(schema, name)->0, name),
{
    let n = lemma_first_named(schema.types@, name);
    assert forall|j: int| 0 <= j < schema.types@.len() implies (
    #[trigger] schema.types@[j].called() == name) == defines(schema.types@[j], name) by {}
    if 0 <= i < schema.types@.len() && defines(schema.types@[i], name) && (forall|j: int|
        0 <= j < i ==> !defines(#[trigger] schema.types@[j], name)) {
        assert(schema.types@[i].called() == name);
        if n < i {
            assert(!defines(schema.types@[n], name));
        }
    }
    if forall|j: int| 0 <= j < schema.types@.len() ==> !defines(#[trigger] schema.types@[j], name) {
        if named_type(schema, name) is Some {
            assert(schema.types@[n].called() == name);
        }
    }
}

/// Queries start at the first object type of the schema that is called `Query`; a type of another
/// kind with that name is passed over.
pub proof fn queries_start_at_the_first_query_object(schema: SchemaDocument, i: int)
    ensures
        0 <= i < schema.types@.len() && schema.types@[i] is Object
            && schema.types@[i]->Object_0.name@ == "Query"@ && (forall|j: int|
            0 <= j < i && (#[trigger] schema.types@[j]) is Object
                ==> schema.types@[j]->Object_0.name@ != "Query"@) ==> root_query_type(schema)
            == Some(schema.types@[i]->Object_0),
        (forall|j: int|
            0 <= j < schema.types@.len() && (#[trigger] schema.types@[j]) is Object
                ==> schema.types@[j]->Object_0.name@ != "Query"@) ==> root_query_type(schema)
            is None,
        root_query_type(schema) is Some ==> root_query_type(schema)->0.name@ == "Query"@,
{
    let n = lemma_first_query_object(schema.types@);
    if 0 <= i < schema.types@.len() && schema.types@[i] is Object
        && schema.types@[i]->Object_0.name@ == "Query"@ && (forall|j: int|
        0 <= j < i && (#[trigger] schema.types@[j]) is Object
            ==> schema.types@[j]->Object_0.name@ != "Query"@) {
        if n < i {
            assert(schema.types@[n] is Object);
        }
    }
}

/// Where the first object type called `Query` stands.
proof fn lemma_first_query_object(types: Seq<TypeDefinition>) -> (i: int)
    ensures
        match query_type_among(types) {
            Some(t) => 0 <= i < types.len() && types[i] == TypeDefinition::Object(t) && t.name@
                == "Query"@ && forall|j: int|
                0 <= j < i && (#[trigger] types[j]) is Object ==> types[j]->Object_0.name@
                    != "Query"@,
            None => i == types.len() && forall|j: int|
                0 <= j < types.len() && (#[trigger] types[j]) is Object
                    ==> types[j]->Object_0.name@ != "Query"@,
        },
    decreases types.len(),
{
    if types.len() == 0 {
        0
    } else if is_query_type(types[0]) {
        0
    } else {
        let rest = types.drop_first();
        let i = lemma_first_query_object(rest);
        assert forall|j: int| 0 <= j < i + 1 && (#[trigger] types[j]) is Object implies
            types[j]->Object_0.name@ != "Query"@ by {
            if j > 0 {
                assert(rest[j - 1] == types[j]);
            }
        }
        i + 1
    }
}

/// The definition of a field, and those of its arguments, are those of the first field of that name
/// of the object type; there is none, and there are no arguments, if no field is called so.
pub proof fn field_is_the_first_of_its_name(object_type: ObjectType, name: Seq<char>, i: int)
    ensures
        0 <= i < object_type.fields@.len() && object_type.fields@[i].name@ == name && (forall|
            j: int,
        |
            0 <= j < i ==> (#[trigger] object_type.fields@[j]).name@ != name) ==> field_definition(
            object_type,
            name,
        ) == Some(object_type.fields@[i]) && argument_definitions(object_type, name)
            == object_type.fields@[i].arguments@,
        (forall|j: int|
            0 <= j < object_type.fields@.len() ==> (#[trigger] object_type.fields@[j]).name@
                != name) ==> field_definition(object_type, name) is None && argument_definitions(
            object_type,
            name,
        ).len() == 0,
        field_definition(object_type, name) is Some ==> field_definition(object_type, name)->0.name@
            == name,
{
    let n = lemma_first_named(object_type.fields@, name);
    if 0 <= i < object_type.fields@.len() && object_type.fields@[i].name@ == name && (forall|
        j: int,
    |
        0 <= j < i ==> (#[trigger] object_type.fields@[j]).name@ != name) {
        assert(object_type.fields@[i].called() == name);
        if n < i {
            assert(object_type.fields@[n].name@ != name);
        }
    }
    if forall|j: int|
        0 <= j < object_type.fields@.len() ==> (#[trigger] object_type.fields@[j]).name@ != name {
        if field_definition(object_type, name) is Some {
            assert(object_type.fields@[n].called() == name);
        }
    }
}

/// The fragment called `name` is the first of that name in the document, if there is one.
pub proof fn fragment_is_the_first_of_its_name(document: Document, name: Seq<char>, i: int)
    ensures
        0 <= i < document.fragments@.len() && document.fragments@[i].name@ == name && (forall|
            j: int,
        |
            0 <= j < i ==> (#[trigger] document.fragments@[j]).name@ != name) ==> first_named(
            document.fragments@,
            name,
        ) == Some(document.fragments@[i]),
        (forall|j: int|
            0 <= j < document.fragments@.len() ==> (#[trigger] document.fragments@[j]).name@
                != name) ==> first_named(document.fragments@, name) is None,
{
    let n = lemma_first_named(document.fragments@, name);
    if 0 <= i < document.fragments@.len() && document.fragments@[i].name@ == name && (forall|
        j: int,
    |
        0 <= j < i ==> (#[trigger] document.fragments@[j]).name@ != name) {
        assert(document.fragments@[i].called() == name);
        if n < i {
            assert(document.fragments@[n].name@ != name);
        }
    }
    if forall|j: int|
        0 <= j < document.fragments@.len() ==> (#[trigger] document.fragments@[j]).name@ != name {
        if first_named(document.fragments@, name) is Some {
            assert(document.fragments@[n].called() == name);
        }
    }
}

/// The value of an argument is the first that is given under its name, if there is one.
pub proof fn argument_is_the_first_of_its_name(
    arguments: Seq<(String, Value)>,
    name: Seq<char>,
    i: int,
)
    ensures
        0 <= i < arguments.len() && arguments[i].0@ == name && (forall|j: int|
            0 <= j < i ==> (#[trigger] arguments[j]).0@ != name) ==> argument_value(
            arguments,
            name,
        ) == Some(arguments[i].1),
        (forall|j: int| 0 <= j < arguments.len() ==> (#[trigger] arguments[j]).0@ != name)
            ==> argument_value(arguments, name) is None,
{
    let n = lemma_first_named(arguments, name);
    if 0 <= i < arguments.len() && arguments[i].0@ == name && (forall|j: int|
        0 <= j < i ==> (#[trigger] arguments[j]).0@ != name) {
        assert(arguments[i].called() == name);
        if n < i {
            assert(arguments[n].0@ != name);
        }
    }
    if forall|j: int| 0 <= j < arguments.len() ==> (#[trigger] arguments[j]).0@ != name {
        if argument_value(arguments, name) is Some {
            assert(arguments[n].called() == name);
        }
    }
}

/// Whether `value` is `true`, or a variable whose value is `true`.
pub open spec fn stands_for_true(value: Value, variables: Map<Seq<char>, Value>) -> bool {
    ||| value is Boolean && value->Boolean_0
    ||| value is Variable && variables.contains_key(value->Variable_0@)
        && variables[value->Variable_0@] is Boolean && variables[value->Variable_0@]->Boolean_0
}

/// Whether a directive says yes: it has no argument `if`, or the first of its arguments `if` stands
/// for `true`.
pub open spec fn says_yes(directive: Directive, variables: Map<Seq<char>, Value>) -> bool {
    ||| forall|i: int|
        0 <= i < directive.arguments@.len() ==> (#[trigger] directive.arguments@[i]).0@ != "if"@
    ||| exists|i: int|
        0 <= i < directive.arguments@.len() && (#[trigger] directive.arguments@[i]).0@ == "if"@ && (
        forall|j: int|
            0 <= j < i ==> (#[trigger] directive.arguments@[j]).0@ != "if"@) && stands_for_true(
            directive.arguments@[i].1,
            variables,
        )
}

/// The directives with which a selection is written.
pub open spec fn written_directives(selection: Selection) -> Seq<Directive> {
    match selection {
        Selection::Field(field) => field.directives@,
        Selection::FragmentSpread(spread) => spread.directives@,
        Selection::InlineFragment(inline) => inline.directives@,
    }
}

/// Whether the first of `directives` called `name` says yes, if there is one.
pub open spec fn first_says_yes(
    directives: Seq<Directive>,
    name: Seq<char>,
    variables: Map<Seq<char>, Value>,
) -> bool {
    exists|i: int|
        0 <= i < directives.len() && (#[trigger] directives[i]).name@ == name && (forall|j: int|
            0 <= j < i ==> (#[trigger] directives[j]).name@ != name) && says_yes(
            directives[i],
            variables,
        )
}

/// The condition of a directive holds if the directive says yes.
proof fn lemma_condition(directive: Directive, variables: Map<Seq<char>, Value>)
    ensures
        condition_holds(directive, variables) == says_yes(directive, variables),
{
    let arguments = directive.arguments@;
    let n = lemma_first_named(arguments, "if"@);
    match first_named(arguments, "if"@) {
        Some(argument) => {
            assert(arguments[n].0@ == "if"@);
            assert forall|j: int| 0 <= j < n implies (#[trigger] arguments[j]).0@ != "if"@ by {
                assert(arguments[j].called() != "if"@);
            }
            if says_yes(directive, variables) {
                let i = choose|i: int|
                    0 <= i < arguments.len() && (#[trigger] arguments[i]).0@ == "if"@ && (forall|
                        j: int,
                    |
                        0 <= j < i ==> (#[trigger] arguments[j]).0@ != "if"@) && stands_for_true(
                        arguments[i].1,
                        variables,
                    );
                assert(i == n) by {
                    if n < i {
                        assert(arguments[n].0@ != "if"@);
                    }
                    if i < n {
                        assert(arguments[i].0@ != "if"@);
                    }
                }
            }
        },
        None => {
            assert forall|j: int| 0 <= j < arguments.len() implies (#[trigger] arguments[j]).0@
                != "if"@ by {
                assert(arguments[j].called() != "if"@);
            }
        },
    }
}

/// The first directive of a name, and whether its condition holds.
proof fn lemma_first_directive(
    directives: Seq<Directive>,
    name: Seq<char>,
    variables: Map<Seq<char>, Value>,
)
    ensures
        first_says_yes(directives, name, variables) == match first_named(directives, name) {
            Some(directive) => condition_holds(directive, variables),
            None => false,
        },
{
    let n = lemma_first_named(directives, name);
    match first_named(directives, name) {
        Some(directive) => {
            lemma_condition(directive, variables);
            assert(directives[n].name@ == name);
            assert forall|j: int| 0 <= j < n implies (#[trigger] directives[j]).name@ != name by {
                assert(directives[j].called() != name);
            }
            if first_says_yes(directives, name, variables) {
                let i = choose|i: int|
                    0 <= i < directives.len() && (#[trigger] directives[i]).name@ == name && (
                    forall|j: int| 0 <= j < i ==> (#[trigger] directives[j]).name@ != name)
                        && says_yes(directives[i], variables);
                assert(i == n) by {
                    if n < i {
                        assert(directives[n].name@ != name);
                    }
                    if i < n {
                        assert(directives[i].name@ != name);
                    }
                }
            }
        },
        None => {
            assert forall|j: int| 0 <= j < directives.len() implies (#[trigger] directives[j]).name@
                != name by {
                assert(directives[j].called() != name);
            }
        },
    }
}

/// A selection, of whatever kind, takes part in the execution unless its first `@skip` says yes, or
/// it has an `@include` and the first of them does not say yes.
pub proof fn directives_decide_what_is_active(
    selection: Selection,
    variables: Map<Seq<char>, Value>,
)
    ensures
        active(selection, variables) <==> {
            &&& !first_says_yes(written_directives(selection), "skip"@, variables)
            &&& first_says_yes(written_directives(selection), "include"@, variables) || forall|
                i: int,
            |
                0 <= i < written_directives(selection).len() ==> (
                #[trigger] written_directives(selection)[i]).name@ != "include"@
        },
{
    let directives = written_directives(selection);
    lemma_first_directive(directives, "skip"@, variables);
    lemma_first_directive(directives, "include"@, variables);
    let n = lemma_first_named(directives, "include"@);
    if first_named(directives, "include"@) is Some {
        assert(directives[n].name@ == "include"@);
    } else {
        assert forall|i: int| 0 <= i < directives.len() implies (#[trigger] directives[i]).name@
            != "include"@ by {
            assert(directives[i].called() != "include"@);
        }
    }
}

/// A field with an alias is returned under the alias, whatever its name is, and one without under
/// its name.
pub proof fn alias_goes_before_the_name(field: Field)
    ensures
        field.alias is Some ==> response_key(field)@ == field.alias->0@,
        field.alias is None ==> response_key(field)@ == field.name@,
{
}

/// A query that is written as its selection set alone declares no variables, and every other
/// operation those that are written with it.
pub proof fn operations_declare_their_variables(operation: OperationDefinition)
    ensures
        operation is SelectionSet ==> variable_definitions(operation).len() == 0,
        operation is Query ==> variable_definitions(operation)
            == operation->Query_0.variable_definitions@,
        operation is Mutation ==> variable_definitions(operation)
            == operation->Mutation_0.variable_definitions@,
        operation is Subscription ==> variable_definitions(operation)
            == operation->Subscription_0.variable_definitions@,
{
}

/// Values of a type can be resolved unless it is an input object, or a list of input objects; the
/// marks that exclude null do not matter, and lists of lists are not looked into.
pub proof fn output_types_are_not_input_objects(
    schema: SchemaDocument,
    name: String,
    inner: Type,
    item: Type,
)
    ensures
        output_type(schema, Type::NamedType(name)) == !(named_type(schema, name@) is Some
            && named_type(schema, name@)->0 is InputObject),
        output_type(schema, Type::NonNullType(Box::new(inner))) == output_type(schema, inner),
        output_type(schema, Type::ListType(Box::new(Type::NamedType(name)))) == output_type(
            schema,
            Type::NamedType(name),
        ),
        output_type(schema, Type::ListType(Box::new(Type::NonNullType(Box::new(item)))))
            == output_type(schema, Type::ListType(Box::new(item))),
        output_type(schema, Type::ListType(Box::new(Type::ListType(Box::new(item))))),
{
    reveal_with_fuel(crate::schema::resolved_name, 3);
    reveal_with_fuel(crate::schema::item_name, 3);
}

/// Without a deadline nothing is ever late, and with one it is late as soon as the deadline has
/// passed by any time at all.
pub proof fn deadline_decides_what_is_late(deadline: Option<std::time::Instant>, overdue: u128)
    ensures
        deadline is None ==> !timed_out(deadline, overdue),
        deadline is Some ==> timed_out(deadline, overdue) == (overdue != 0),
{
}

/// A reading that is taken counts once, and one that is not taken not at all.
pub proof fn reading_counts_once(now: std::time::Instant)
    ensures
        taken(Some(now)).len() == 1,
        taken(Some(now))[0] == now,
        taken(None).len() == 0,
{
}

/// The outcome of a result is its value, or its errors in their order.
pub proof fn outcome_keeps_value_and_errors<T>(result: Result<T, Vec<QueryExecutionError>>)
    ensures
        outcome(result) is Ok <==> result is Ok,
        result is Ok ==> outcome(result)->Ok_0 == result->Ok_0,
        result is Err ==> outcome(result)->Err_0 == result->Err_0@,
{
}

} // verus!
