//! Which fields of a selection set are executed.
use indexmap::IndexMap;
use std::sync::Arc;

use graphql_execution::collect::collect_fields;
use graphql_execution::collect::does_fragment_type_apply;
use graphql_execution::context::ExecutionContext;
use graphql_execution::error::QueryExecutionError;
use graphql_execution::execute::resolve_abstract_type;
use graphql_execution::name_map::NameMap;
use graphql_execution::name_set::NameSet;
use graphql_execution::query::Document;
use graphql_execution::query::Field;
use graphql_execution::query::FragmentDefinition;
use graphql_execution::query::FragmentSpread;
use graphql_execution::query::InlineFragment;
use graphql_execution::query::Selection;
use graphql_execution::query::SelectionSet;
use graphql_execution::query::TypeCondition;
use graphql_execution::resolver::Coercion;
use graphql_execution::resolver::Resolver;
use graphql_execution::schema::Directive;
use graphql_execution::schema::EnumType;
use graphql_execution::schema::FieldDefinition;
use graphql_execution::schema::InputObjectType;
use graphql_execution::schema::InputValue;
use graphql_execution::schema::InterfaceType;
use graphql_execution::schema::ObjectOrInterface;
use graphql_execution::schema::ObjectType;
use graphql_execution::schema::ScalarType;
use graphql_execution::schema::Schema;
use graphql_execution::schema::SchemaDocument;
use graphql_execution::schema::Type;
use graphql_execution::schema::TypeDefinition;
use graphql_execution::schema::UnionType;
use graphql_execution::schema::get_named_type;
use graphql_execution::value::Pos;
use graphql_execution::value::Value;

fn s(text: &str) -> String {
    text.to_string()
}

fn pos(line: usize, column: usize) -> Pos {
    Pos { line, column }
}

fn at() -> Pos {
    pos(1, 1)
}

fn named(name: &str) -> Type {
    Type::NamedType(s(name))
}

fn list(inner: Type) -> Type {
    Type::ListType(Box::new(inner))
}

fn non_null(inner: Type) -> Type {
    Type::NonNullType(Box::new(inner))
}

fn object(entries: Vec<(&str, Value)>) -> Value {
    Value::Object(values(entries))
}

fn values(entries: Vec<(&str, Value)>) -> NameMap<Value> {
    let mut map: NameMap<Value> = NameMap::new();
    for (name, value) in entries {
        map.insert(s(name), value);
    }
    map
}

fn definition(name: &str, field_type: Type) -> FieldDefinition {
    FieldDefinition {
        position: at(),
        description: None,
        name: s(name),
        arguments: vec![],
        field_type,
        directives: vec![],
    }
}

fn object_type(name: &str, interfaces: Vec<&str>, fields: Vec<FieldDefinition>) -> ObjectType {
    ObjectType {
        position: at(),
        description: None,
        name: s(name),
        implements_interfaces: interfaces.into_iter().map(s).collect(),
        directives: vec![],
        fields,
    }
}

fn scalar(name: &str) -> TypeDefinition {
    TypeDefinition::Scalar(ScalarType {
        position: at(),
        description: None,
        name: s(name),
        directives: vec![],
    })
}

fn enumeration(name: &str) -> TypeDefinition {
    TypeDefinition::Enum(EnumType {
        position: at(),
        description: None,
        name: s(name),
        directives: vec![],
        values: vec![],
    })
}

fn interface(name: &str) -> TypeDefinition {
    TypeDefinition::Interface(InterfaceType {
        position: at(),
        description: None,
        name: s(name),
        directives: vec![],
        fields: vec![],
    })
}

fn union(name: &str, types: Vec<&str>) -> TypeDefinition {
    TypeDefinition::Union(UnionType {
        position: at(),
        description: None,
        name: s(name),
        directives: vec![],
        types: types.into_iter().map(s).collect(),
    })
}

fn input_object(name: &str) -> TypeDefinition {
    TypeDefinition::InputObject(InputObjectType {
        position: at(),
        description: None,
        name: s(name),
        directives: vec![],
        fields: vec![],
    })
}

fn set(items: Vec<Selection>) -> SelectionSet {
    SelectionSet { span: (at(), at()), items }
}

fn node(name: &str, items: Vec<Selection>) -> Field {
    Field {
        position: at(),
        alias: None,
        name: s(name),
        arguments: vec![],
        directives: vec![],
        selection_set: set(items),
    }
}

fn leaf(name: &str) -> Selection {
    branch(name, vec![])
}

fn branch(name: &str, items: Vec<Selection>) -> Selection {
    Selection::Field(Arc::new(node(name, items)))
}

fn aliased(alias: &str, name: &str) -> Selection {
    let mut field = node(name, vec![]);
    field.alias = Some(s(alias));
    Selection::Field(Arc::new(field))
}

fn spread(name: &str) -> Selection {
    Selection::FragmentSpread(Arc::new(FragmentSpread {
        position: at(),
        fragment_name: s(name),
        directives: vec![],
    }))
}

fn fragment(name: &str, on: &str, items: Vec<Selection>) -> FragmentDefinition {
    FragmentDefinition {
        position: at(),
        name: s(name),
        type_condition: TypeCondition::On(s(on)),
        directives: vec![],
        selection_set: set(items),
    }
}

/// Answers out of the parent object, or out of `root` where there is none.
struct Store {
    root: NameMap<Value>,
}

impl Store {
    fn look_up(&self, parent: &Option<Value>, name: &String) -> Result<Value, QueryExecutionError> {
        let found = match parent {
            Some(Value::Object(object)) => object.get(name),
            _ => self.root.get(name),
        };
        match found {
            Some(Value::Enum(message)) if message == "FAIL" => {
                Err(QueryExecutionError::ResolverError(name.clone()))
            }
            Some(value) => Ok(value.clone()),
            None => Ok(Value::Null),
        }
    }
}

impl Resolver for Store {
    fn resolve_object(
        &self,
        parent: &Option<Value>,
        field: &Field,
        _field_definition: &FieldDefinition,
        object_type: ObjectOrInterface<'_>,
        arguments: &NameMap<Value>,
        types_for_interface: &NameMap<Vec<ObjectType>>,
    ) -> Result<Value, QueryExecutionError> {
        if field.name == "probe" {
            let kind = match object_type {
                ObjectOrInterface::Object(t) => t.name.clone(),
                ObjectOrInterface::Interface(t) => t.name.clone(),
            };
            let id = match arguments.get(&s("id")) {
                Some(value) => value.clone(),
                None => Value::Null,
            };
            return Ok(object(vec![
                ("interfaces", Value::Int(types_for_interface.len() as i64)),
                ("kind", Value::String(kind)),
                ("id", id),
            ]));
        }
        self.look_up(parent, &field.name)
    }

    fn resolve_objects(
        &self,
        parent: &Option<Value>,
        field: &String,
        _field_definition: &FieldDefinition,
        _object_type: ObjectOrInterface<'_>,
        _arguments: &NameMap<Value>,
        types_for_interface: &NameMap<Vec<ObjectType>>,
    ) -> Result<Value, QueryExecutionError> {
        if field == "probes" {
            return Ok(Value::List(vec![object(vec![(
                "interfaces",
                Value::Int(types_for_interface.len() as i64),
            )])]));
        }
        self.look_up(parent, field)
    }

    fn resolve_enum_value(
        &self,
        _field: &Field,
        enum_type: &EnumType,
        value: Option<&Value>,
    ) -> Result<Value, QueryExecutionError> {
        match value {
            Some(Value::String(name)) => Ok(Value::Enum(name.clone())),
            Some(_) => Err(QueryExecutionError::ResolverError(enum_type.name.clone())),
            None => Ok(Value::Null),
        }
    }

    fn resolve_enum_values(
        &self,
        _field: &Field,
        enum_type: &EnumType,
        value: Option<&Value>,
    ) -> Result<Value, Vec<QueryExecutionError>> {
        match value {
            Some(Value::List(items)) => Ok(Value::List(items.clone())),
            Some(_) => Err(vec![
                QueryExecutionError::ResolverError(enum_type.name.clone()),
                QueryExecutionError::ResolverError(s("no list")),
            ]),
            None => Ok(Value::Null),
        }
    }

    fn resolve_scalar_value(
        &self,
        _parent_object_type: &ObjectType,
        _parent: &NameMap<Value>,
        field: &Field,
        _scalar_type: &ScalarType,
        value: Option<&Value>,
    ) -> Result<Value, QueryExecutionError> {
        match value {
            Some(Value::Enum(message)) if message == "FAIL" => {
                Err(QueryExecutionError::ResolverError(field.name.clone()))
            }
            Some(value) => Ok(value.clone()),
            None => Ok(Value::Null),
        }
    }

    fn resolve_scalar_values(
        &self,
        _field: &Field,
        _scalar_type: &ScalarType,
        value: Option<&Value>,
    ) -> Result<Value, Vec<QueryExecutionError>> {
        match value {
            Some(Value::Enum(_)) => Err(vec![]),
            Some(value) => Ok(value.clone()),
            None => Ok(Value::Null),
        }
    }

    fn resolve_abstract_type<'a>(
        &self,
        schema: &'a SchemaDocument,
        _abstract_type: &TypeDefinition,
        object_value: &Value,
    ) -> Option<&'a ObjectType> {
        let name = match object_value {
            Value::Object(object) => match object.get(&s("kind")) {
                Some(Value::String(name)) => name.clone(),
                _ => return None,
            },
            _ => return None,
        };
        match get_named_type(schema, &name) {
            Some(TypeDefinition::Object(t)) => Some(t),
            _ => None,
        }
    }
}

/// Takes variables at their values; an argument called `limit` must be an integer, and one called
/// `id` must be given.
struct Plain;

impl Coercion for Plain {
    fn coerce_input_value(
        &self,
        value: Option<&Value>,
        definition: &InputValue,
        _schema: &SchemaDocument,
        variable_values: &NameMap<Value>,
    ) -> Result<Option<Value>, QueryExecutionError> {
        let value = match value {
            Some(Value::Variable(name)) => variable_values.get(name),
            other => other,
        };
        match value {
            None if definition.name == "id" => Err(QueryExecutionError::MissingArgumentError(
                definition.position,
                definition.name.clone(),
            )),
            None => Ok(None),
            Some(Value::Int(n)) => Ok(Some(Value::Int(*n))),
            Some(other) if definition.name == "limit" => {
                Err(QueryExecutionError::InvalidArgumentError(
                    definition.position,
                    definition.name.clone(),
                    other.clone(),
                ))
            }
            Some(other) => Ok(Some(other.clone())),
        }
    }

    fn coerce_value(
        &self,
        value: &Value,
        ty: &Type,
        _schema: &SchemaDocument,
        variable_values: &NameMap<Value>,
    ) -> Option<Value> {
        match (ty, value) {
            (Type::NamedType(name), Value::String(_)) if name == "Int" => None,
            (_, Value::Variable(name)) => match variable_values.get(name) {
                Some(value) => Some(value.clone()),
                None => None,
            },
            _ => Some(value.clone()),
        }
    }
}

fn argument(name: &str, column: usize) -> InputValue {
    InputValue {
        position: pos(7, column),
        description: None,
        name: s(name),
        value_type: named("Int"),
        default_value: None,
        directives: vec![],
    }
}

fn with_arguments(mut field: FieldDefinition, arguments: Vec<InputValue>) -> FieldDefinition {
    field.arguments = arguments;
    field
}

/// Users with names, ages and friends; animals; and fields of many types.
fn schema() -> Schema {
    let dog = object_type("Dog", vec!["Animal"], vec![definition("name", named("String"))]);
    let mut types_for_interface: NameMap<Vec<ObjectType>> = NameMap::new();
    types_for_interface.insert(
        s("Animal"),
        vec![object_type("Dog", vec!["Animal"], vec![definition("name", named("String"))])],
    );
    Schema {
        document: SchemaDocument {
            types: vec![
                scalar("String"),
                scalar("Int"),
                enumeration("Color"),
                interface("Animal"),
                union("Pet", vec!["Dog", "Cat"]),
                input_object("Filter"),
                TypeDefinition::Object(dog),
                TypeDefinition::Object(object_type(
                    "Cat",
                    vec![],
                    vec![definition("lives", named("Int"))],
                )),
                TypeDefinition::Object(object_type(
                    "Probe",
                    vec![],
                    vec![
                        definition("interfaces", named("Int")),
                        definition("kind", named("String")),
                        definition("id", named("Int")),
                    ],
                )),
                TypeDefinition::Object(object_type(
                    "User",
                    vec![],
                    vec![
                        definition("name", named("String")),
                        definition("age", non_null(named("Int"))),
                        definition("tags", list(named("String"))),
                        definition("color", named("Color")),
                        definition("colors", list(non_null(named("Color")))),
                        definition("friend", named("User")),
                        definition("friends", list(non_null(named("User")))),
                        definition("pet", named("Animal")),
                        definition("pets", non_null(list(named("Animal")))),
                        definition("either", named("Pet")),
                        definition("eithers", list(named("Pet"))),
                        definition("matrix", list(list(named("Int")))),
                        definition("ghost", named("Ghost")),
                        definition("ghosts", list(named("Ghost"))),
                    ],
                )),
                TypeDefinition::Object(object_type(
                    "Query",
                    vec![],
                    vec![
                        definition("user", named("User")),
                        definition("users", list(named("User"))),
                        definition("required", non_null(named("User"))),
                        definition("version", named("String")),
                        with_arguments(
                            definition("probe", named("Probe")),
                            vec![argument("id", 3), argument("limit", 9)],
                        ),
                        definition("probes", list(named("Probe"))),
                    ],
                )),
            ],
        },
        types_for_interface,
    }
}

/// Introspection starts at `__schema` and `__probe`.
fn introspection_schema() -> SchemaDocument {
    SchemaDocument {
        types: vec![
            scalar("String"),
            scalar("Int"),
            interface("Shape"),
            TypeDefinition::Object(object_type(
                "__Schema",
                vec![],
                vec![
                    definition("title", named("String")),
                    definition("inner", named("__Schema")),
                    definition("shape", named("Shape")),
                ],
            )),
            TypeDefinition::Object(object_type(
                "Probe",
                vec![],
                vec![definition("interfaces", named("Int"))],
            )),
            TypeDefinition::Object(object_type(
                "Query",
                vec![],
                vec![
                    definition("__schema", named("__Schema")),
                    definition("__probes", list(named("Probe"))),
                ],
            )),
        ],
    }
}

struct World {
    schema: Schema,
    introspection_schema: SchemaDocument,
    document: Document,
}

fn world(fragments: Vec<FragmentDefinition>) -> World {
    World {
        schema: schema(),
        introspection_schema: introspection_schema(),
        document: Document { fragments },
    }
}

fn context<'a>(
    world: &'a World,
    data: Vec<(&str, Value)>,
    introspection: Vec<(&str, Value)>,
) -> ExecutionContext<'a, Store, Store, Plain> {
    ExecutionContext {
        schema: &world.schema,
        introspection_schema: &world.introspection_schema,
        document: &world.document,
        resolver: Arc::new(Store { root: values(data) }),
        introspection_resolver: Arc::new(Store { root: values(introspection) }),
        coercion: Arc::new(Plain),
        fields: vec![],
        introspecting: false,
        variable_values: Arc::new(NameMap::new()),
        deadline: None,
    }
}

fn type_called<'a>(world: &'a World, name: &str) -> &'a ObjectType {
    match get_named_type(&world.schema.document, &s(name)) {
        Some(TypeDefinition::Object(t)) => t,
        _ => panic!("no such object type"),
    }
}

fn keys(groups: IndexMap<String, Vec<Arc<Field>>>) -> Vec<(String, Vec<String>)> {
    groups
        .into_iter()
        .map(|(key, fields)| (key, fields.iter().map(|field| field.name.clone()).collect()))
        .collect()
}

fn group(key: &str, names: Vec<&str>) -> (String, Vec<String>) {
    (s(key), names.into_iter().map(s).collect())
}

fn collected(world: &World, on: &str, items: Vec<Selection>) -> Vec<(String, Vec<String>)> {
    let ctx = context(world, vec![], vec![]);
    keys(collect_fields(ctx, type_called(world, on), &set(items), None))
}

fn skipped(selection: Selection) -> Selection {
    let skip = Directive {
        position: at(),
        name: s("skip"),
        arguments: vec![(s("if"), Value::Boolean(true))],
    };
    match selection {
        Selection::Field(field) => {
            let mut copy = node(&field.name, vec![]);
            copy.directives = vec![skip];
            Selection::Field(Arc::new(copy))
        }
        Selection::FragmentSpread(spread) => Selection::FragmentSpread(Arc::new(FragmentSpread {
            position: at(),
            fragment_name: spread.fragment_name.clone(),
            directives: vec![skip],
        })),
        other => other,
    }
}

#[test]
fn fields_are_grouped_by_response_key() {
    let world = world(vec![]);
    assert_eq!(
        collected(
            &world,
            "User",
            vec![leaf("name"), leaf("age"), aliased("name", "age"), aliased("age", "name"), leaf("tags")]
        ),
        vec![
            group("name", vec!["name", "age"]),
            group("age", vec!["age", "name"]),
            group("tags", vec!["tags"]),
        ]
    );
}

#[test]
fn nothing_selected_makes_no_group() {
    let world = world(vec![]);
    assert_eq!(collected(&world, "User", vec![]), vec![]);
}

#[test]
fn skipped_selections_are_left_out() {
    let world = world(vec![fragment("F", "User", vec![leaf("tags")])]);
    assert_eq!(
        collected(&world, "User", vec![skipped(leaf("name")), leaf("age"), skipped(spread("F"))]),
        vec![group("age", vec!["age"])]
    );
}

#[test]
fn skipped_spread_leaves_the_fragment_to_others() {
    let world = world(vec![fragment("F", "User", vec![leaf("tags")])]);
    assert_eq!(
        collected(&world, "User", vec![skipped(spread("F")), spread("F")]),
        vec![group("tags", vec!["tags"])]
    );
}

#[test]
fn fragments_put_their_fields_into_the_groups() {
    let world = world(vec![fragment("F", "User", vec![aliased("name", "color"), leaf("tags")])]);
    assert_eq!(
        collected(&world, "User", vec![leaf("name"), spread("F"), aliased("tags", "age")]),
        vec![group("name", vec!["name", "color"]), group("tags", vec!["tags", "age"])]
    );
}

#[test]
fn second_spread_of_a_fragment_adds_nothing() {
    let world = world(vec![fragment("F", "User", vec![leaf("tags")])]);
    let once = collected(&world, "User", vec![spread("F"), leaf("name")]);
    assert_eq!(collected(&world, "User", vec![spread("F"), leaf("name"), spread("F")]), once);
    assert_eq!(once, vec![group("tags", vec!["tags"]), group("name", vec!["name"])]);
}

#[test]
fn visited_fragments_add_nothing() {
    let world = world(vec![fragment("F", "User", vec![leaf("tags")])]);
    let mut visited = NameSet::new();
    visited.insert(s("F"));
    let groups = collect_fields(
        context(&world, vec![], vec![]),
        type_called(&world, "User"),
        &set(vec![spread("F"), leaf("name")]),
        Some(visited),
    );
    assert_eq!(keys(groups), vec![group("name", vec!["name"])]);
}

#[test]
fn fragments_that_spread_each_other_end() {
    let world = world(vec![
        fragment("F", "User", vec![leaf("name"), spread("G")]),
        fragment("G", "User", vec![leaf("age"), spread("F"), spread("G")]),
    ]);
    assert_eq!(
        collected(&world, "User", vec![spread("F")]),
        vec![group("name", vec!["name"]), group("age", vec!["age"])]
    );
}

#[test]
fn fragment_visited_within_another_can_be_spread_again() {
    // What a fragment visits stays within it: the second spread of `G` counts.
    let world = world(vec![
        fragment("F", "User", vec![spread("G")]),
        fragment("G", "User", vec![leaf("age")]),
    ]);
    assert_eq!(
        collected(&world, "User", vec![spread("F"), spread("G")]),
        vec![group("age", vec!["age", "age"])]
    );
}

#[test]
fn unknown_fragments_and_inline_fragments_add_nothing() {
    let world = world(vec![]);
    let inline = Selection::InlineFragment(Arc::new(InlineFragment {
        position: at(),
        type_condition: None,
        directives: vec![],
        selection_set: set(vec![leaf("age")]),
    }));
    assert_eq!(
        collected(&world, "User", vec![spread("Nothing"), inline, leaf("name")]),
        vec![group("name", vec!["name"])]
    );
}

#[test]
fn fragments_for_other_types_add_nothing() {
    let world = world(vec![fragment("F", "Cat", vec![leaf("lives")])]);
    assert_eq!(
        collected(&world, "User", vec![spread("F"), leaf("name"), spread("F")]),
        vec![group("name", vec!["name"])]
    );
    assert_eq!(collected(&world, "Cat", vec![spread("F")]), vec![group("lives", vec!["lives"])]);
}

#[test]
fn fragments_apply_by_object_interface_and_union() {
    let world = world(vec![]);
    let applies = |on: &str, condition: &str| {
        does_fragment_type_apply(
            context(&world, vec![], vec![]),
            type_called(&world, on),
            &TypeCondition::On(s(condition)),
        )
    };
    assert!(applies("Dog", "Dog"));
    assert!(!applies("Dog", "Cat"));
    assert!(applies("Dog", "Animal"));
    assert!(!applies("Cat", "Animal"));
    assert!(applies("Dog", "Pet"));
    assert!(applies("Cat", "Pet"));
    assert!(!applies("User", "Pet"));
    assert!(!applies("User", "String"));
    assert!(!applies("User", "Color"));
    assert!(!applies("User", "Filter"));
    assert!(!applies("User", "Unknown"));
}

#[test]
fn object_type_of_the_same_name_but_other_fields_is_another() {
    let world = world(vec![]);
    let other = object_type("Dog", vec!["Animal"], vec![]);
    assert!(!does_fragment_type_apply(
        context(&world, vec![], vec![]),
        &other,
        &TypeCondition::On(s("Dog")),
    ));
}

#[test]
fn object_types_are_compared_with_floats_as_numbers() {
    let with_default = |number: f64| {
        let mut field = definition("a", named("Int"));
        field.arguments = vec![InputValue {
            position: at(),
            description: None,
            name: s("x"),
            value_type: named("Float"),
            default_value: Some(Value::Float(number.to_bits())),
            directives: vec![],
        }];
        object_type("T", vec![], vec![field])
    };
    let applies = |on: f64, defined: f64| {
        let mut world = world(vec![]);
        world.schema.document.types.push(TypeDefinition::Object(with_default(defined)));
        let ctx = context(&world, vec![], vec![]);
        does_fragment_type_apply(ctx, &with_default(on), &TypeCondition::On(s("T")))
    };
    assert!(applies(1.5, 1.5));
    assert!(!applies(1.5, 2.5));
    assert!(applies(0.0, -0.0));
    assert!(!applies(f64::NAN, f64::NAN));
}

#[test]
fn fragments_apply_by_the_schema_in_use() {
    let world = world(vec![]);
    let ty = object_type("X", vec!["Shape"], vec![]);
    let mut ctx = context(&world, vec![], vec![]);
    assert!(!does_fragment_type_apply(ctx.clone(), &ty, &TypeCondition::On(s("Shape"))));
    ctx.introspecting = true;
    assert!(does_fragment_type_apply(ctx, &ty, &TypeCondition::On(s("Shape"))));
}
