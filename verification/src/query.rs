//! Queries: selections, fragments and operations, and how they are looked up.
use vstd::prelude::*;

use std::sync::Arc;

use crate::name_map::NameMap;
use crate::named::Named;
use crate::named::find_named;
use crate::named::first_named;
use crate::schema::Directive;
use crate::schema::Type;
use crate::value::Pos;
use crate::value::Value;

verus! {

/// The selections between a pair of braces.
#[derive(Debug, PartialEq, Eq)]
pub struct SelectionSet {
    /// Where the braces stand.
    pub span: (Pos, Pos),
    pub items: Vec<Selection>,
}

/// One selection of a selection set. Its node is shared by the sets that it is taken into.
#[derive(Debug, PartialEq, Eq)]
pub enum Selection {
    Field(Arc<Field>),
    FragmentSpread(Arc<FragmentSpread>),
    InlineFragment(Arc<InlineFragment>),
}

/// A field that a query selects.
#[derive(Debug, PartialEq, Eq)]
pub struct Field {
    pub position: Pos,
    pub alias: Option<String>,
    pub name: String,
    pub arguments: Vec<(String, Value)>,
    pub directives: Vec<Directive>,
    pub selection_set: SelectionSet,
}

/// A fragment that is taken in by its name.
#[derive(Debug, PartialEq, Eq)]
pub struct FragmentSpread {
    pub position: Pos,
    pub fragment_name: String,
    pub directives: Vec<Directive>,
}

/// A fragment that is written where it is used.
#[derive(Debug, PartialEq, Eq)]
pub struct InlineFragment {
    pub position: Pos,
    pub type_condition: Option<TypeCondition>,
    pub directives: Vec<Directive>,
    pub selection_set: SelectionSet,
}

/// The type that a fragment is for.
#[derive(Debug, PartialEq, Eq)]
pub enum TypeCondition {
    On(String),
}

/// A fragment that spreads can take in.
#[derive(Debug, PartialEq, Eq)]
pub struct FragmentDefinition {
    pub position: Pos,
    pub name: String,
    pub type_condition: TypeCondition,
    pub directives: Vec<Directive>,
    pub selection_set: SelectionSet,
}

/// The fragments of a query document, in the order of the document.
#[derive(Debug, PartialEq, Eq)]
pub struct Document {
    pub fragments: Vec<FragmentDefinition>,
}

/// A variable that an operation declares.
#[derive(Debug, PartialEq, Eq)]
pub struct VariableDefinition {
    pub position: Pos,
    pub name: String,
    pub var_type: Type,
    pub default_value: Option<Value>,
}

/// An operation that is written with its kind.
#[derive(Debug, PartialEq, Eq)]
pub struct Operation {
    pub position: Pos,
    pub name: Option<String>,
    pub variable_definitions: Vec<VariableDefinition>,
    pub directives: Vec<Directive>,
    pub selection_set: SelectionSet,
}

/// An operation of a query document.
#[derive(Debug, PartialEq, Eq)]
pub enum OperationDefinition {
    /// A query that is written as its selection set alone.
    SelectionSet(SelectionSet),
    Query(Operation),
    Mutation(Operation),
    Subscription(Operation),
}

/// Another pointer to what `shared` points to, by `Arc::clone`: it points to the same value.
#[verifier::external_body]
pub(crate) fn share<T>(shared: &Arc<T>) -> (copy: Arc<T>)
    ensures
        copy == *shared,
{
    shared.clone()
}

/// Further pointers to what `shared` points to, one by one.
pub(crate) fn share_all<T>(shared: &Vec<Arc<T>>) -> (copies: Vec<Arc<T>>)
    ensures
        copies@ == shared@,
{
    let mut copies: Vec<Arc<T>> = Vec::new();
    let mut i: usize = 0;
    while i < shared.len()
        invariant
            i <= shared@.len(),
            copies@ == shared@.take(i as int),
        decreases shared@.len() - i,
    {
        copies.push(share(&shared[i]));
        i += 1;
        assert(copies@ =~= shared@.take(i as int));
    }
    assert(copies@ =~= shared@);
    copies
}

impl Clone for Selection {
    fn clone(&self) -> (copy: Selection)
        ensures
            copy == *self,
    {
        match self {
            Selection::Field(field) => Selection::Field(share(field)),
            Selection::FragmentSpread(spread) => Selection::FragmentSpread(share(spread)),
            Selection::InlineFragment(inline) => Selection::InlineFragment(share(inline)),
        }
    }
}

impl Named for FragmentDefinition {
    open spec fn called(&self) -> Seq<char> {
        self.name@
    }

    fn name(&self) -> &String {
        &self.name
    }
}

impl Selection {
    /// The directives of the selection.
    pub open spec fn directives(self) -> Seq<Directive> {
        match self {
            Selection::Field(field) => field.directives@,
            Selection::FragmentSpread(spread) => spread.directives@,
            Selection::InlineFragment(inline) => inline.directives@,
        }
    }
}

/// Looks up the directive `name` of a selection.
pub fn get_directive<'a>(selection: &'a Selection, name: &String) -> (directive: Option<
    &'a Directive,
>)
    ensures
        match directive {
            Some(d) => first_named(selection.directives(), name@) == Some(*d),
            None => first_named(selection.directives(), name@) is None,
        },
{
    match selection {
        Selection::Field(field) => find_named(&field.directives, name),
        Selection::FragmentSpread(spread) => find_named(&spread.directives, name),
        Selection::InlineFragment(inline) => find_named(&inline.directives, name),
    }
}

/// The value of the argument `name`, if it is given.
pub open spec fn argument_value(arguments: Seq<(String, Value)>, name: Seq<char>) -> Option<
    Value,
> {
    match first_named(arguments, name) {
        Some(argument) => Some(argument.1),
        None => None,
    }
}

/// Looks up the value of an argument.
pub fn get_argument_value<'a>(arguments: &'a Vec<(String, Value)>, name: &String) -> (value: Option<
    &'a Value,
>)
    ensures
        match value {
            Some(v) => argument_value(arguments@, name@) == Some(*v),
            None => argument_value(arguments@, name@) is None,
        },
{
    match find_named(arguments, name) {
        Some(argument) => Some(&argument.1),
        None => None,
    }
}

/// Whether `value` is true: literally, or as the value of a variable.
pub open spec fn is_true(value: Value, variables: Map<Seq<char>, Value>) -> bool {
    match value {
        Value::Boolean(b) => b,
        Value::Variable(name) => variables.contains_key(name@) && variables[name@]
            == Value::Boolean(true),
        _ => false,
    }
}

/// Whether the condition of `directive` holds: its argument `if`, where it has one.
pub open spec fn condition_holds(
    directive: Directive,
    variables: Map<Seq<char>, Value>,
) -> bool {
    match argument_value(directive.arguments@, "if"@) {
        Some(value) => is_true(value, variables),
        None => true,
    }
}

/// Whether the condition of a directive holds.
fn check_condition(directive: &Directive, variables: &NameMap<Value>) -> (holds: bool)
    ensures
        holds == condition_holds(*directive, variables@),
{
    let name = "if".to_owned();
    match get_argument_value(&directive.arguments, &name) {
        Some(Value::Boolean(b)) => *b,
        Some(Value::Variable(variable)) => match variables.get(variable) {
            Some(Value::Boolean(b)) => *b,
            _ => false,
        },
        Some(_) => false,
        None => true,
    }
}

/// Whether `@skip` takes the selection out.
pub open spec fn skipped(selection: Selection, variables: Map<Seq<char>, Value>) -> bool {
    match first_named(selection.directives(), "skip"@) {
        Some(directive) => condition_holds(directive, variables),
        None => false,
    }
}

/// Whether `@include` lets the selection stay.
pub open spec fn included(selection: Selection, variables: Map<Seq<char>, Value>) -> bool {
    match first_named(selection.directives(), "include"@) {
        Some(directive) => condition_holds(directive, variables),
        None => true,
    }
}

/// Whether a selection takes part in the execution.
pub open spec fn active(selection: Selection, variables: Map<Seq<char>, Value>) -> bool {
    !skipped(selection, variables) && included(selection, variables)
}

/// Whether a selection should be skipped, by its `@skip` directive.
pub fn skip_selection(selection: &Selection, variables: &NameMap<Value>) -> (skip: bool)
    ensures
        skip == skipped(*selection, variables@),
{
    let name = "skip".to_owned();
    match get_directive(selection, &name) {
        Some(directive) => check_condition(directive, variables),
        None => false,
    }
}

/// Whether a selection should be included, by its `@include` directive.
pub fn include_selection(selection: &Selection, variables: &NameMap<Value>) -> (include_it: bool)
    ensures
        include_it == included(*selection, variables@),
{
    let name = "include".to_owned();
    match get_directive(selection, &name) {
        Some(directive) => check_condition(directive, variables),
        None => true,
    }
}

/// The key under which the result of a field is returned: its alias, or else its name.
pub open spec fn response_key(field: Field) -> String {
    match field.alias {
        Some(alias) => alias,
        None => field.name,
    }
}

/// The key under which the result of a field is returned.
pub fn get_response_key(field: &Field) -> (key: &String)
    ensures
        *key == response_key(*field),
{
    match &field.alias {
        Some(alias) => alias,
        None => &field.name,
    }
}

/// Looks up the fragment called `name`.
pub fn get_fragment<'a>(document: &'a Document, name: &String) -> (fragment: Option<
    &'a FragmentDefinition,
>)
    ensures
        match fragment {
            Some(f) => first_named(document.fragments@, name@) == Some(*f),
            None => first_named(document.fragments@, name@) is None,
        },
{
    find_named(&document.fragments, name)
}

/// The variables that an operation declares.
pub open spec fn variable_definitions(operation: OperationDefinition) -> Seq<VariableDefinition> {
    match operation {
        OperationDefinition::SelectionSet(_) => Seq::empty(),
        OperationDefinition::Query(o) => o.variable_definitions@,
        OperationDefinition::Mutation(o) => o.variable_definitions@,
        OperationDefinition::Subscription(o) => o.variable_definitions@,
    }
}

/// Looks up the variables that an operation declares.
pub fn get_variable_definitions(operation: &OperationDefinition) -> (definitions: Option<
    &Vec<VariableDefinition>,
>)
    ensures
        match definitions {
            Some(d) => !(operation is SelectionSet) && d@ == variable_definitions(*operation),
            None => operation is SelectionSet,
        },
{
    match operation {
        OperationDefinition::SelectionSet(_) => None,
        OperationDefinition::Query(o) => Some(&o.variable_definitions),
        OperationDefinition::Mutation(o) => Some(&o.variable_definitions),
        OperationDefinition::Subscription(o) => Some(&o.variable_definitions),
    }
}

} // verus!
