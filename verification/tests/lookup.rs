//! Lookups in queries and schemas, and merged selection sets.
use std::sync::Arc;

use graphql_execution::merge::merge_selection_sets;
use graphql_execution::name_map::NameMap;
use graphql_execution::query::Document;
use graphql_execution::query::Field;
use graphql_execution::query::FragmentDefinition;
use graphql_execution::query::FragmentSpread;
use graphql_execution::query::InlineFragment;
use graphql_execution::query::Operation;
use graphql_execution::query::OperationDefinition;
use graphql_execution::query::Selection;
use graphql_execution::query::SelectionSet;
use graphql_execution::query::TypeCondition;
use graphql_execution::query::VariableDefinition;
use graphql_execution::query::get_argument_value;
use graphql_execution::query::get_directive;
use graphql_execution::query::get_fragment;
use graphql_execution::query::get_response_key;
use graphql_execution::query::get_variable_definitions;
use graphql_execution::query::include_selection;
use graphql_execution::query::skip_selection;
use graphql_execution::schema::Directive;
use graphql_execution::schema::EnumType;
use graphql_execution::schema::FieldDefinition;
use graphql_execution::schema::InputObjectType;
use graphql_execution::schema::InputValue;
use graphql_execution::schema::InterfaceType;
use graphql_execution::schema::ObjectType;
use graphql_execution::schema::ScalarType;
use graphql_execution::schema::SchemaDocument;
use graphql_execution::schema::Type;
use graphql_execution::schema::TypeDefinition;
use graphql_execution::schema::UnionType;
use graphql_execution::schema::get_argument_definitions;
use graphql_execution::schema::get_named_type;
use graphql_execution::schema::get_root_query_type;
use graphql_execution::schema::get_type_name;
use graphql_execution::schema::is_input_type;
use graphql_execution::schema::is_non_null_type;
use graphql_execution::schema::is_output_type;
use graphql_execution::value::Pos;
use graphql_execution::value::Value;

fn s(text: &str) -> String {
    text.to_string()
}

fn pos(line: usize, column: usize) -> Pos {
    Pos { line, column }
}

fn at() -> Pos {
    pos(1, 1)
}

fn named(name: &str) -> Type {
    Type::NamedType(s(name))
}

fn list(inner: Type) -> Type {
    Type::ListType(Box::new(inner))
}

fn non_null(inner: Type) -> Type {
    Type::NonNullType(Box::new(inner))
}

fn values(entries: Vec<(&str, Value)>) -> NameMap<Value> {
    let mut map: NameMap<Value> = NameMap::new();
    for (name, value) in entries {
        map.insert(s(name), value);
    }
    map
}

fn definition(name: &str, field_type: Type) -> FieldDefinition {
    FieldDefinition {
        position: at(),
        description: None,
        name: s(name),
        arguments: vec![],
        field_type,
        directives: vec![],
    }
}

fn object_type(name: &str, interfaces: Vec<&str>, fields: Vec<FieldDefinition>) -> ObjectType {
    ObjectType {
        position: at(),
        description: None,
        name: s(name),
        implements_interfaces: interfaces.into_iter().map(s).collect(),
        directives: vec![],
        fields,
    }
}

fn scalar(name: &str) -> TypeDefinition {
    TypeDefinition::Scalar(ScalarType {
        position: at(),
        description: None,
        name: s(name),
        directives: vec![],
    })
}

fn enumeration(name: &str) -> TypeDefinition {
    TypeDefinition::Enum(EnumType {
        position: at(),
        description: None,
        name: s(name),
        directives: vec![],
        values: vec![],
    })
}

fn interface(name: &str) -> TypeDefinition {
    TypeDefinition::Interface(InterfaceType {
        position: at(),
        description: None,
        name: s(name),
        directives: vec![],
        fields: vec![],
    })
}

fn union(name: &str, types: Vec<&str>) -> TypeDefinition {
    TypeDefinition::Union(UnionType {
        position: at(),
        description: None,
        name: s(name),
        directives: vec![],
        types: types.into_iter().map(s).collect(),
    })
}

fn input_object(name: &str) -> TypeDefinition {
    TypeDefinition::InputObject(InputObjectType {
        position: at(),
        description: None,
        name: s(name),
        directives: vec![],
        fields: vec![],
    })
}

fn set(items: Vec<Selection>) -> SelectionSet {
    SelectionSet { span: (at(), at()), items }
}

fn node(name: &str, items: Vec<Selection>) -> Field {
    Field {
        position: at(),
        alias: None,
        name: s(name),
        arguments: vec![],
        directives: vec![],
        selection_set: set(items),
    }
}

fn leaf(name: &str) -> Selection {
    branch(name, vec![])
}

fn branch(name: &str, items: Vec<Selection>) -> Selection {
    Selection::Field(Arc::new(node(name, items)))
}

fn spread(name: &str) -> Selection {
    Selection::FragmentSpread(Arc::new(FragmentSpread {
        position: at(),
        fragment_name: s(name),
        directives: vec![],
    }))
}

fn fragment(name: &str, on: &str, items: Vec<Selection>) -> FragmentDefinition {
    FragmentDefinition {
        position: at(),
        name: s(name),
        type_condition: TypeCondition::On(s(on)),
        directives: vec![],
        selection_set: set(items),
    }
}

fn directive(name: &str, condition: Option<Value>) -> Directive {
    let arguments = match condition {
        Some(value) => vec![(s("if"), value)],
        None => vec![],
    };
    Directive { position: at(), name: s(name), arguments }
}

fn directed(directives: Vec<Directive>) -> Selection {
    let mut field = node("a", vec![]);
    field.directives = directives;
    Selection::Field(Arc::new(field))
}

#[test]
fn selection_is_skipped_by_its_condition() {
    let variables = values(vec![("yes", Value::Boolean(true)), ("no", Value::Boolean(false))]);
    let skips = |value: Value| {
        skip_selection(&directed(vec![directive("skip", Some(value))]), &variables)
    };
    assert!(skips(Value::Boolean(true)));
    assert!(!skips(Value::Boolean(false)));
    assert!(skips(Value::Variable(s("yes"))));
    assert!(!skips(Value::Variable(s("no"))));
    assert!(!skips(Value::Variable(s("unknown"))));
    assert!(!skips(Value::Int(1)));
    assert!(skip_selection(&directed(vec![directive("skip", None)]), &variables));
    assert!(!skip_selection(&directed(vec![]), &variables));
}

#[test]
fn selection_is_included_by_its_condition() {
    let variables = values(vec![("yes", Value::Boolean(true)), ("no", Value::Boolean(false))]);
    let includes = |value: Value| {
        include_selection(&directed(vec![directive("include", Some(value))]), &variables)
    };
    assert!(includes(Value::Boolean(true)));
    assert!(!includes(Value::Boolean(false)));
    assert!(includes(Value::Variable(s("yes"))));
    assert!(!includes(Value::Variable(s("no"))));
    assert!(include_selection(&directed(vec![directive("include", None)]), &variables));
    assert!(include_selection(&directed(vec![]), &variables));
}

#[test]
fn directives_of_spreads_and_inline_fragments_count() {
    let variables = values(vec![]);
    let taken_out = Selection::FragmentSpread(Arc::new(FragmentSpread {
        position: at(),
        fragment_name: s("F"),
        directives: vec![directive("skip", Some(Value::Boolean(true)))],
    }));
    let inline = Selection::InlineFragment(Arc::new(InlineFragment {
        position: at(),
        type_condition: None,
        directives: vec![directive("include", Some(Value::Boolean(false)))],
        selection_set: set(vec![]),
    }));
    assert!(skip_selection(&taken_out, &variables));
    assert!(!include_selection(&inline, &variables));
    assert!(get_directive(&inline, &s("include")).is_some());
    assert!(get_directive(&inline, &s("skip")).is_none());
}

#[test]
fn response_key_is_the_alias_or_the_name() {
    let mut field = node("name", vec![]);
    assert_eq!(get_response_key(&field), "name");
    field.alias = Some(s("alias"));
    assert_eq!(get_response_key(&field), "alias");
}

#[test]
fn first_of_several_with_a_name_is_found() {
    let arguments = vec![(s("a"), Value::Int(1)), (s("b"), Value::Int(2)), (s("a"), Value::Int(3))];
    assert_eq!(get_argument_value(&arguments, &s("a")), Some(&Value::Int(1)));
    assert_eq!(get_argument_value(&arguments, &s("b")), Some(&Value::Int(2)));
    assert_eq!(get_argument_value(&arguments, &s("c")), None);

    let document = Document {
        fragments: vec![fragment("F", "A", vec![]), fragment("G", "B", vec![]), fragment("F", "C", vec![])],
    };
    let found = get_fragment(&document, &s("F")).unwrap();
    assert_eq!(found.type_condition, TypeCondition::On(s("A")));
    assert!(get_fragment(&document, &s("H")).is_none());
}

#[test]
fn operations_have_their_variables() {
    let plain = OperationDefinition::SelectionSet(set(vec![]));
    assert!(get_variable_definitions(&plain).is_none());
    let operation = || Operation {
        position: at(),
        name: None,
        variable_definitions: vec![VariableDefinition {
            position: at(),
            name: s("v"),
            var_type: named("Int"),
            default_value: None,
        }],
        directives: vec![],
        selection_set: set(vec![]),
    };
    for definition in vec![
        OperationDefinition::Query(operation()),
        OperationDefinition::Mutation(operation()),
        OperationDefinition::Subscription(operation()),
    ] {
        assert_eq!(get_variable_definitions(&definition).unwrap()[0].name, "v");
    }
}

#[test]
fn queries_start_at_the_object_type_called_query() {
    let mut document = SchemaDocument { types: vec![scalar("Query"), interface("Query")] };
    assert!(get_root_query_type(&document).is_none());
    document.types.push(TypeDefinition::Object(object_type("Other", vec![], vec![])));
    document.types.push(TypeDefinition::Object(object_type(
        "Query",
        vec![],
        vec![definition("first", named("Int"))],
    )));
    document.types.push(TypeDefinition::Object(object_type("Query", vec![], vec![])));
    assert_eq!(get_root_query_type(&document).unwrap().fields.len(), 1);
    assert_eq!(get_named_type(&document, &s("Query")).unwrap(), &scalar("Query"));
    assert!(get_named_type(&document, &s("Nothing")).is_none());
}

#[test]
fn every_type_has_a_name() {
    let types = vec![
        (scalar("A"), "A"),
        (enumeration("B"), "B"),
        (interface("C"), "C"),
        (union("D", vec![]), "D"),
        (input_object("E"), "E"),
        (TypeDefinition::Object(object_type("F", vec![], vec![])), "F"),
    ];
    for (definition, name) in types {
        assert_eq!(get_type_name(&definition), name);
    }
}

#[test]
fn scalars_enums_and_input_objects_can_be_given() {
    let document = SchemaDocument {
        types: vec![
            scalar("Scalar"),
            enumeration("Enum"),
            input_object("Input"),
            interface("Interface"),
            union("Union", vec![]),
            TypeDefinition::Object(object_type("Object", vec![], vec![])),
        ],
    };
    for name in vec!["Scalar", "Enum", "Input"] {
        assert!(is_input_type(&document, &named(name)));
        assert!(is_input_type(&document, &non_null(list(non_null(named(name))))));
    }
    for name in vec!["Interface", "Union", "Object", "Unknown"] {
        assert!(!is_input_type(&document, &named(name)));
        assert!(!is_input_type(&document, &list(named(name))));
    }
    assert!(is_non_null_type(&non_null(named("Scalar"))));
    assert!(!is_non_null_type(&list(non_null(named("Scalar")))));
    assert!(!is_non_null_type(&named("Scalar")));
}

#[test]
fn input_objects_are_never_resolved() {
    let document = SchemaDocument { types: vec![input_object("Filter"), scalar("Int")] };
    for ty in vec![
        named("Filter"),
        non_null(named("Filter")),
        list(named("Filter")),
        non_null(list(non_null(named("Filter")))),
    ] {
        assert!(!is_output_type(&document, &ty));
    }
    // Nested lists are refused before their items come up
    assert!(is_output_type(&document, &list(list(named("Filter")))));
    assert!(is_output_type(&document, &list(named("Int"))));
    assert!(is_output_type(&document, &named("Unknown")));
}

#[test]
fn arguments_are_those_of_the_field() {
    let mut field = definition("a", named("Int"));
    field.arguments = vec![InputValue {
        position: at(),
        description: None,
        name: s("x"),
        value_type: named("Int"),
        default_value: None,
        directives: vec![],
    }];
    let ty = object_type("T", vec![], vec![field]);
    assert_eq!(get_argument_definitions(&ty, &s("a")).unwrap()[0].name, "x");
    assert!(get_argument_definitions(&ty, &s("b")).is_none());
}

fn spanning(span: (Pos, Pos), items: Vec<Selection>) -> Arc<Field> {
    let mut field = node("f", items);
    field.selection_set.span = span;
    Arc::new(field)
}

#[test]
fn merged_sets_hold_all_selections_in_order() {
    let merged = merge_selection_sets(&vec![
        spanning((pos(2, 5), pos(3, 1)), vec![leaf("a"), leaf("b")]),
        spanning((pos(2, 4), pos(2, 9)), vec![]),
        spanning((pos(5, 1), pos(6, 2)), vec![leaf("a"), leaf("c")]),
    ]);
    assert_eq!(merged.span, (pos(2, 4), pos(6, 2)));
    assert_eq!(merged.items, vec![leaf("a"), leaf("b"), leaf("a"), leaf("c")]);
}

#[test]
fn merging_one_set_changes_nothing() {
    let field = spanning((pos(2, 5), pos(3, 1)), vec![leaf("a"), spread("F")]);
    let merged = merge_selection_sets(&vec![field.clone()]);
    assert_eq!(merged, field.selection_set);
}

#[test]
fn merging_in_parts_is_merging_at_once() {
    let a = spanning((pos(1, 1), pos(1, 2)), vec![leaf("a")]);
    let b = spanning((pos(2, 1), pos(2, 2)), vec![leaf("b")]);
    let c = spanning((pos(3, 1), pos(3, 2)), vec![leaf("c")]);
    let part = merge_selection_sets(&vec![a.clone(), b.clone()]);
    let mut middle = node("f", vec![]);
    middle.selection_set = part;
    assert_eq!(
        merge_selection_sets(&vec![Arc::new(middle), c.clone()]),
        merge_selection_sets(&vec![a, b, c])
    );
}
