//! The execution of queries.
use std::sync::Arc;
use std::time::Duration;
use std::time::Instant;

use graphql_execution::clock::is_timed_out;
use graphql_execution::context::ExecutionContext;
use graphql_execution::error::QueryExecutionError;
use graphql_execution::execute::combine_results;
use graphql_execution::execute::complete_value;
use graphql_execution::execute::execute_field;
use graphql_execution::execute::execute_root_selection_set;
use graphql_execution::execute::execute_selection_set;
use graphql_execution::execute::execute_selection_set_to_map;
use graphql_execution::execute::found_or_error;
use graphql_execution::execute::get_field_type;
use graphql_execution::execute::resolve_abstract_type;
use graphql_execution::name_map::NameMap;
use graphql_execution::query::Document;
use graphql_execution::query::Field;
use graphql_execution::query::FragmentDefinition;
use graphql_execution::query::FragmentSpread;
use graphql_execution::query::Selection;
use graphql_execution::query::SelectionSet;
use graphql_execution::query::TypeCondition;
use graphql_execution::resolve::resolve_field_value;
use graphql_execution::resolver::Coercion;
use graphql_execution::resolver::Resolver;
use graphql_execution::schema::EnumType;
use graphql_execution::schema::FieldDefinition;
use graphql_execution::schema::InputObjectType;
use graphql_execution::schema::InputValue;
use graphql_execution::schema::InterfaceType;
use graphql_execution::schema::ObjectOrInterface;
use graphql_execution::schema::ObjectType;
use graphql_execution::schema::ScalarType;
use graphql_execution::schema::Schema;
use graphql_execution::schema::SchemaDocument;
use graphql_execution::schema::Type;
use graphql_execution::schema::TypeDefinition;
use graphql_execution::schema::UnionType;
use graphql_execution::schema::get_named_type;
use graphql_execution::schema::get_type_name;
use graphql_execution::value::Pos;
use graphql_execution::value::Value;

fn s(text: &str) -> String {
    text.to_string()
}

fn pos(line: usize, column: usize) -> Pos {
    Pos { line, column }
}

fn at() -> Pos {
    pos(1, 1)
}

fn named(name: &str) -> Type {
    Type::NamedType(s(name))
}

fn list(inner: Type) -> Type {
    Type::ListType(Box::new(inner))
}

fn non_null(inner: Type) -> Type {
    Type::NonNullType(Box::new(inner))
}

fn object(entries: Vec<(&str, Value)>) -> Value {
    Value::Object(values(entries))
}

fn values(entries: Vec<(&str, Value)>) -> NameMap<Value> {
    let mut map: NameMap<Value> = NameMap::new();
    for (name, value) in entries {
        map.insert(s(name), value);
    }
    map
}

fn definition(name: &str, field_type: Type) -> FieldDefinition {
    FieldDefinition {
        position: at(),
        description: None,
        name: s(name),
        arguments: vec![],
        field_type,
        directives: vec![],
    }
}

fn object_type(name: &str, interfaces: Vec<&str>, fields: Vec<FieldDefinition>) -> ObjectType {
    ObjectType {
        position: at(),
        description: None,
        name: s(name),
        implements_interfaces: interfaces.into_iter().map(s).collect(),
        directives: vec![],
        fields,
    }
}

fn scalar(name: &str) -> TypeDefinition {
    TypeDefinition::Scalar(ScalarType {
        position: at(),
        description: None,
        name: s(name),
        directives: vec![],
    })
}

fn enumeration(name: &str) -> TypeDefinition {
    TypeDefinition::Enum(EnumType {
        position: at(),
        description: None,
        name: s(name),
        directives: vec![],
        values: vec![],
    })
}

fn interface(name: &str) -> TypeDefinition {
    TypeDefinition::Interface(InterfaceType {
        position: at(),
        description: None,
        name: s(name),
        directives: vec![],
        fields: vec![],
    })
}

fn union(name: &str, types: Vec<&str>) -> TypeDefinition {
    TypeDefinition::Union(UnionType {
        position: at(),
        description: None,
        name: s(name),
        directives: vec![],
        types: types.into_iter().map(s).collect(),
    })
}

fn input_object(name: &str) -> TypeDefinition {
    TypeDefinition::InputObject(InputObjectType {
        position: at(),
        description: None,
        name: s(name),
        directives: vec![],
        fields: vec![],
    })
}

fn set(items: Vec<Selection>) -> SelectionSet {
    SelectionSet { span: (at(), at()), items }
}

fn node(name: &str, items: Vec<Selection>) -> Field {
    Field {
        position: at(),
        alias: None,
        name: s(name),
        arguments: vec![],
        directives: vec![],
        selection_set: set(items),
    }
}

fn leaf(name: &str) -> Selection {
    branch(name, vec![])
}

fn branch(name: &str, items: Vec<Selection>) -> Selection {
    Selection::Field(Arc::new(node(name, items)))
}

fn aliased(alias: &str, name: &str) -> Selection {
    let mut field = node(name, vec![]);
    field.alias = Some(s(alias));
    Selection::Field(Arc::new(field))
}

fn spread(name: &str) -> Selection {
    Selection::FragmentSpread(Arc::new(FragmentSpread {
        position: at(),
        fragment_name: s(name),
        directives: vec![],
    }))
}

fn fragment(name: &str, on: &str, items: Vec<Selection>) -> FragmentDefinition {
    FragmentDefinition {
        position: at(),
        name: s(name),
        type_condition: TypeCondition::On(s(on)),
        directives: vec![],
        selection_set: set(items),
    }
}

/// Answers out of the parent object, or out of `root` where there is none.
struct Store {
    root: NameMap<Value>,
}

impl Store {
    fn look_up(&self, parent: &Option<Value>, name: &String) -> Result<Value, QueryExecutionError> {
        let found = match parent {
            Some(Value::Object(object)) => object.get(name),
            _ => self.root.get(name),
        };
        match found {
            Some(Value::Enum(message)) if message == "FAIL" => {
                Err(QueryExecutionError::ResolverError(name.clone()))
            }
            Some(value) => Ok(value.clone()),
            None => Ok(Value::Null),
        }
    }
}

impl Resolver for Store {
    fn resolve_object(
        &self,
        parent: &Option<Value>,
        field: &Field,
        _field_definition: &FieldDefinition,
        object_type: ObjectOrInterface<'_>,
        arguments: &NameMap<Value>,
        types_for_interface: &NameMap<Vec<ObjectType>>,
    ) -> Result<Value, QueryExecutionError> {
        if field.name == "probe" {
            let kind = match object_type {
                ObjectOrInterface::Object(t) => t.name.clone(),
                ObjectOrInterface::Interface(t) => t.name.clone(),
            };
            let id = match arguments.get(&s("id")) {
                Some(value) => value.clone(),
                None => Value::Null,
            };
            return Ok(object(vec![
                ("interfaces", Value::Int(types_for_interface.len() as i64)),
                ("kind", Value::String(kind)),
                ("id", id),
            ]));
        }
        self.look_up(parent, &field.name)
    }

    fn resolve_objects(
        &self,
        parent: &Option<Value>,
        field: &String,
        _field_definition: &FieldDefinition,
        _object_type: ObjectOrInterface<'_>,
        _arguments: &NameMap<Value>,
        types_for_interface: &NameMap<Vec<ObjectType>>,
    ) -> Result<Value, QueryExecutionError> {
        if field == "probes" {
            return Ok(Value::List(vec![object(vec![(
                "interfaces",
                Value::Int(types_for_interface.len() as i64),
            )])]));
        }
        self.look_up(parent, field)
    }

    fn resolve_enum_value(
        &self,
        _field: &Field,
        enum_type: &EnumType,
        value: Option<&Value>,
    ) -> Result<Value, QueryExecutionError> {
        match value {
            Some(Value::String(name)) => Ok(Value::Enum(name.clone())),
            Some(_) => Err(QueryExecutionError::ResolverError(enum_type.name.clone())),
            None => Ok(Value::Null),
        }
    }

    fn resolve_enum_values(
        &self,
        _field: &Field,
        enum_type: &EnumType,
        value: Option<&Value>,
    ) -> Result<Value, Vec<QueryExecutionError>> {
        match value {
            Some(Value::List(items)) => Ok(Value::List(items.clone())),
            Some(_) => Err(vec![
                QueryExecutionError::ResolverError(enum_type.name.clone()),
                QueryExecutionError::ResolverError(s("no list")),
            ]),
            None => Ok(Value::Null),
        }
    }

    fn resolve_scalar_value(
        &self,
        _parent_object_type: &ObjectType,
        _parent: &NameMap<Value>,
        field: &Field,
        _scalar_type: &ScalarType,
        value: Option<&Value>,
    ) -> Result<Value, QueryExecutionError> {
        match value {
            Some(Value::Enum(message)) if message == "FAIL" => {
                Err(QueryExecutionError::ResolverError(field.name.clone()))
            }
            Some(value) => Ok(value.clone()),
            None => Ok(Value::Null),
        }
    }

    fn resolve_scalar_values(
        &self,
        _field: &Field,
        _scalar_type: &ScalarType,
        value: Option<&Value>,
    ) -> Result<Value, Vec<QueryExecutionError>> {
        match value {
            Some(Value::Enum(_)) => Err(vec![]),
            Some(value) => Ok(value.clone()),
            None => Ok(Value::Null),
        }
    }

    fn resolve_abstract_type<'a>(
        &self,
        schema: &'a SchemaDocument,
        _abstract_type: &TypeDefinition,
        object_value: &Value,
    ) -> Option<&'a ObjectType> {
        let name = match object_value {
            Value::Object(object) => match object.get(&s("kind")) {
                Some(Value::String(name)) => name.clone(),
                _ => return None,
            },
            _ => return None,
        };
        match get_named_type(schema, &name) {
            Some(TypeDefinition::Object(t)) => Some(t),
            _ => None,
        }
    }
}

/// Takes variables at their values; an argument called `limit` must be an integer, and one called
/// `id` must be given.
struct Plain;

impl Coercion for Plain {
    fn coerce_input_value(
        &self,
        value: Option<&Value>,
        definition: &InputValue,
        _schema: &SchemaDocument,
        variable_values: &NameMap<Value>,
    ) -> Result<Option<Value>, QueryExecutionError> {
        let value = match value {
            Some(Value::Variable(name)) => variable_values.get(name),
            other => other,
        };
        match value {
            None if definition.name == "id" => Err(QueryExecutionError::MissingArgumentError(
                definition.position,
                definition.name.clone(),
            )),
            None => Ok(None),
            Some(Value::Int(n)) => Ok(Some(Value::Int(*n))),
            Some(other) if definition.name == "limit" => {
                Err(QueryExecutionError::InvalidArgumentError(
                    definition.position,
                    definition.name.clone(),
                    other.clone(),
                ))
            }
            Some(other) => Ok(Some(other.clone())),
        }
    }

    fn coerce_value(
        &self,
        value: &Value,
        ty: &Type,
        _schema: &SchemaDocument,
        variable_values: &NameMap<Value>,
    ) -> Option<Value> {
        match (ty, value) {
            (Type::NamedType(name), Value::String(_)) if name == "Int" => None,
            (_, Value::Variable(name)) => match variable_values.get(name) {
                Some(value) => Some(value.clone()),
                None => None,
            },
            _ => Some(value.clone()),
        }
    }
}

fn argument(name: &str, column: usize) -> InputValue {
    InputValue {
        position: pos(7, column),
        description: None,
        name: s(name),
        value_type: named("Int"),
        default_value: None,
        directives: vec![],
    }
}

fn with_arguments(mut field: FieldDefinition, arguments: Vec<InputValue>) -> FieldDefinition {
    field.arguments = arguments;
    field
}

/// Users with names, ages and friends; animals; and fields of many types.
fn schema() -> Schema {
    let dog = object_type("Dog", vec!["Animal"], vec![definition("name", named("String"))]);
    let mut types_for_interface: NameMap<Vec<ObjectType>> = NameMap::new();
    types_for_interface.insert(
        s("Animal"),
        vec![object_type("Dog", vec!["Animal"], vec![definition("name", named("String"))])],
    );
    Schema {
        document: SchemaDocument {
            types: vec![
                scalar("String"),
                scalar("Int"),
                enumeration("Color"),
                interface("Animal"),
                union("Pet", vec!["Dog", "Cat"]),
                input_object("Filter"),
                TypeDefinition::Object(dog),
                TypeDefinition::Object(object_type(
                    "Cat",
                    vec![],
                    vec![definition("lives", named("Int"))],
                )),
                TypeDefinition::Object(object_type(
                    "Probe",
                    vec![],
                    vec![
                        definition("interfaces", named("Int")),
                        definition("kind", named("String")),
                        definition("id", named("Int")),
                    ],
                )),
                TypeDefinition::Object(object_type(
                    "User",
                    vec![],
                    vec![
                        definition("name", named("String")),
                        definition("age", non_null(named("Int"))),
                        definition("tags", list(named("String"))),
                        definition("color", named("Color")),
                        definition("colors", list(non_null(named("Color")))),
                        definition("friend", named("User")),
                        definition("friends", list(non_null(named("User")))),
                        definition("pet", named("Animal")),
                        definition("pets", non_null(list(named("Animal")))),
                        definition("either", named("Pet")),
                        definition("eithers", list(named("Pet"))),
                        definition("matrix", list(list(named("Int")))),
                        definition("ghost", named("Ghost")),
                        definition("ghosts", list(named("Ghost"))),
                    ],
                )),
                TypeDefinition::Object(object_type(
                    "Query",
                    vec![],
                    vec![
                        definition("user", named("User")),
                        definition("users", list(named("User"))),
                        definition("required", non_null(named("User"))),
                        definition("version", named("String")),
                        with_arguments(
                            definition("probe", named("Probe")),
                            vec![argument("id", 3), argument("limit", 9)],
                        ),
                        definition("probes", list(named("Probe"))),
                    ],
                )),
            ],
        },
        types_for_interface,
    }
}

/// Introspection starts at `__schema` and `__probe`.
fn introspection_schema() -> SchemaDocument {
    SchemaDocument {
        types: vec![
            scalar("String"),
            scalar("Int"),
            interface("Shape"),
            TypeDefinition::Object(object_type(
                "__Schema",
                vec![],
                vec![
                    definition("title", named("String")),
                    definition("inner", named("__Schema")),
                    definition("shape", named("Shape")),
                ],
            )),
            TypeDefinition::Object(object_type(
                "Probe",
                vec![],
                vec![definition("interfaces", named("Int"))],
            )),
            TypeDefinition::Object(object_type(
                "Query",
                vec![],
                vec![
                    definition("__schema", named("__Schema")),
                    definition("__probes", list(named("Probe"))),
                ],
            )),
        ],
    }
}

struct World {
    schema: Schema,
    introspection_schema: SchemaDocument,
    document: Document,
}

fn world(fragments: Vec<FragmentDefinition>) -> World {
    World {
        schema: schema(),
        introspection_schema: introspection_schema(),
        document: Document { fragments },
    }
}

fn context<'a>(
    world: &'a World,
    data: Vec<(&str, Value)>,
    introspection: Vec<(&str, Value)>,
) -> ExecutionContext<'a, Store, Store, Plain> {
    ExecutionContext {
        schema: &world.schema,
        introspection_schema: &world.introspection_schema,
        document: &world.document,
        resolver: Arc::new(Store { root: values(data) }),
        introspection_resolver: Arc::new(Store { root: values(introspection) }),
        coercion: Arc::new(Plain),
        fields: vec![],
        introspecting: false,
        variable_values: Arc::new(NameMap::new()),
        deadline: None,
    }
}

fn type_called<'a>(world: &'a World, name: &str) -> &'a ObjectType {
    match get_named_type(&world.schema.document, &s(name)) {
        Some(TypeDefinition::Object(t)) => t,
        _ => panic!("no such object type"),
    }
}

fn user(entries: Vec<(&str, Value)>) -> Vec<(&'static str, Value)> {
    vec![("user", object(entries))]
}

fn run(data: Vec<(&str, Value)>, items: Vec<Selection>) -> Result<Value, Vec<QueryExecutionError>> {
    let world = world(vec![]);
    execute_root_selection_set(context(&world, data, vec![]), &set(items), &None)
}

/// Executes selections of the user.
fn of_user(
    entries: Vec<(&str, Value)>,
    items: Vec<Selection>,
) -> Result<Value, Vec<QueryExecutionError>> {
    match run(user(entries), vec![branch("user", items)])? {
        Value::Object(response) => match response.get(&s("user")) {
            Some(value) => Ok(value.clone()),
            None => panic!("no user"),
        },
        _ => panic!("no object"),
    }
}

fn text(value: &str) -> Value {
    Value::String(s(value))
}

fn error(message: &str) -> QueryExecutionError {
    QueryExecutionError::ResolverError(s(message))
}

#[test]
fn response_has_the_selected_fields_under_their_keys() {
    assert_eq!(
        of_user(
            vec![("name", text("Ann")), ("age", Value::Int(30)), ("tags", Value::Null)],
            vec![leaf("name"), aliased("years", "age")]
        ),
        Ok(object(vec![("name", text("Ann")), ("years", Value::Int(30))]))
    );
}

#[test]
fn fields_of_a_key_are_executed_together() {
    let friend = object(vec![("name", text("Bob")), ("age", Value::Int(31))]);
    assert_eq!(
        of_user(
            vec![("friend", friend)],
            vec![branch("friend", vec![leaf("name")]), branch("friend", vec![leaf("age")])]
        ),
        Ok(object(vec![(
            "friend",
            object(vec![("name", text("Bob")), ("age", Value::Int(31))])
        )]))
    );
}

#[test]
fn values_without_a_value_are_null() {
    assert_eq!(
        of_user(
            vec![],
            vec![leaf("name"), leaf("color"), leaf("tags"), leaf("colors"), branch("friend", vec![leaf("name")])]
        ),
        Ok(object(vec![
            ("name", Value::Null),
            ("color", Value::Null),
            ("tags", Value::Null),
            ("colors", Value::Null),
            ("friend", Value::Null),
        ]))
    );
}

#[test]
fn scalars_and_enums_are_null_without_a_parent_object() {
    assert_eq!(
        run(vec![("version", text("1"))], vec![leaf("version")]),
        Ok(object(vec![("version", Value::Null)]))
    );
    let world = world(vec![]);
    let initial = Some(object(vec![("version", text("1"))]));
    let ctx = context(&world, vec![], vec![]);
    assert_eq!(
        execute_root_selection_set(ctx, &set(vec![leaf("version")]), &initial),
        Ok(object(vec![("version", text("1"))]))
    );
}

#[test]
fn lists_are_completed_item_by_item() {
    let friends = Value::List(vec![
        object(vec![("name", text("Bob"))]),
        object(vec![("name", text("Cid"))]),
    ]);
    assert_eq!(
        of_user(
            vec![
                ("friends", friends),
                ("tags", Value::List(vec![text("a"), Value::Null])),
                ("colors", Value::List(vec![Value::Enum(s("RED"))])),
            ],
            vec![branch("friends", vec![leaf("name")]), leaf("tags"), leaf("colors")]
        ),
        Ok(object(vec![
            (
                "friends",
                Value::List(vec![
                    object(vec![("name", text("Bob"))]),
                    object(vec![("name", text("Cid"))]),
                ])
            ),
            ("tags", Value::List(vec![text("a"), Value::Null])),
            ("colors", Value::List(vec![Value::Enum(s("RED"))])),
        ]))
    );
}

#[test]
fn first_failing_item_ends_a_list() {
    let friends = Value::List(vec![
        object(vec![("name", text("Bob"))]),
        object(vec![("name", Value::Enum(s("FAIL"))), ("color", Value::Int(1))]),
        object(vec![("name", Value::Enum(s("FAIL")))]),
    ]);
    assert_eq!(
        of_user(
            vec![("friends", friends)],
            vec![branch("friends", vec![leaf("name"), leaf("color")])]
        ),
        Err(vec![error("name"), error("Color")])
    );
}

#[test]
fn enums_are_resolved_from_the_parent() {
    assert_eq!(
        of_user(vec![("color", text("RED"))], vec![leaf("color")]),
        Ok(object(vec![("color", Value::Enum(s("RED")))]))
    );
}

#[test]
fn value_that_is_no_list_is_an_error() {
    assert_eq!(
        of_user(vec![("tags", text("a"))], vec![leaf("tags")]),
        Err(vec![QueryExecutionError::ListValueError(at(), s("tags"))])
    );
}

#[test]
fn null_is_an_error_where_the_type_excludes_it() {
    assert_eq!(
        of_user(vec![("age", Value::Null)], vec![leaf("age")]),
        Err(vec![QueryExecutionError::NonNullError(at(), s("age"))])
    );
    assert_eq!(
        of_user(
            vec![("colors", Value::List(vec![Value::Enum(s("RED")), Value::Null]))],
            vec![leaf("colors")]
        ),
        Err(vec![QueryExecutionError::NonNullError(at(), s("colors"))])
    );
    assert_eq!(
        run(vec![], vec![branch("required", vec![leaf("name")])]),
        Err(vec![QueryExecutionError::NonNullError(at(), s("required"))])
    );
}

#[test]
fn all_errors_of_all_fields_are_reported_in_order() {
    assert_eq!(
        of_user(
            vec![
                ("name", Value::Enum(s("FAIL"))),
                ("colors", Value::Int(1)),
                ("age", Value::Int(3)),
            ],
            vec![leaf("unknown"), leaf("age"), leaf("colors"), leaf("name"), leaf("tags")]
        ),
        Err(vec![
            QueryExecutionError::UnknownField(at(), s("User"), s("unknown")),
            error("Color"),
            error("no list"),
            error("name"),
        ])
    );
}

#[test]
fn resolver_errors_are_passed_on() {
    assert_eq!(
        run(vec![("user", Value::Enum(s("FAIL")))], vec![branch("user", vec![leaf("name")])]),
        Err(vec![error("user")])
    );
    assert_eq!(
        run(vec![("users", Value::Enum(s("FAIL")))], vec![branch("users", vec![leaf("name")])]),
        Err(vec![error("users")])
    );
}

#[test]
fn failure_without_an_error_leaves_the_key_out() {
    assert_eq!(
        of_user(
            vec![("tags", Value::Enum(s("FAIL"))), ("name", text("Ann"))],
            vec![leaf("tags"), leaf("name")]
        ),
        Ok(object(vec![("name", text("Ann"))]))
    );
    assert_eq!(
        of_user(vec![("tags", Value::Enum(s("FAIL")))], vec![leaf("tags")]),
        Err(vec![QueryExecutionError::EmptySelectionSet(s("User"))])
    );
}

#[test]
fn selecting_nothing_of_an_object_is_an_error() {
    assert_eq!(
        of_user(vec![], vec![]),
        Err(vec![QueryExecutionError::EmptySelectionSet(s("User"))])
    );
    assert_eq!(
        run(vec![], vec![]),
        Err(vec![QueryExecutionError::EmptySelectionSet(s("Query"))])
    );
}

#[test]
fn unknown_types_are_errors() {
    let unknown = || Err(vec![QueryExecutionError::NamedTypeError(s("Ghost"))]);
    assert_eq!(of_user(vec![], vec![leaf("ghost")]), unknown());
    assert_eq!(of_user(vec![], vec![leaf("ghosts")]), unknown());
}

#[test]
fn unions_and_nested_lists_are_not_supported() {
    let unsupported = |what: &str| Err(vec![QueryExecutionError::Unimplemented(s(what))]);
    assert_eq!(of_user(vec![], vec![leaf("either")]), unsupported("unions"));
    assert_eq!(of_user(vec![], vec![leaf("eithers")]), unsupported("unions"));
    assert_eq!(of_user(vec![], vec![leaf("matrix")]), unsupported("nested list types"));
}

#[test]
fn interfaces_are_completed_by_the_object_type_that_is_found() {
    let dog = || object(vec![("kind", text("Dog")), ("name", text("Rex"))]);
    assert_eq!(
        of_user(
            vec![("pet", dog()), ("pets", Value::List(vec![dog(), Value::Null]))],
            vec![branch("pet", vec![leaf("name")]), branch("pets", vec![leaf("name")])]
        ),
        Ok(object(vec![
            ("pet", object(vec![("name", text("Rex"))])),
            ("pets", Value::List(vec![object(vec![("name", text("Rex"))]), Value::Null])),
        ]))
    );
}

#[test]
fn interface_without_an_object_type_is_an_error() {
    assert_eq!(
        of_user(vec![("pet", object(vec![("kind", text("Fish"))]))], vec![branch("pet", vec![leaf("name")])]),
        Err(vec![QueryExecutionError::AbstractTypeError(s("Animal"))])
    );
}

#[test]
fn union_is_completed_by_the_object_type_that_is_found() {
    let world = world(vec![]);
    let field = node("either", vec![leaf("lives")]);
    let complete = |value: Value| {
        complete_value(
            context(&world, vec![], vec![]),
            &field,
            &named("Pet"),
            vec![Arc::new(node("either", vec![leaf("lives")]))],
            value,
        )
    };
    assert_eq!(
        complete(object(vec![("kind", text("Cat")), ("lives", Value::Int(9))])),
        Ok(object(vec![("lives", Value::Int(9))]))
    );
    assert_eq!(
        complete(Value::Int(1)),
        Err(vec![QueryExecutionError::AbstractTypeError(s("Pet"))])
    );
    assert_eq!(complete(Value::Null), Ok(Value::Null));
}

#[test]
fn fragments_of_a_query_are_executed() {
    let world = world(vec![
        fragment("Root", "Query", vec![branch("user", vec![spread("Person")])]),
        fragment("Person", "User", vec![leaf("name"), branch("friend", vec![spread("Person")])]),
    ]);
    let ctx = context(
        &world,
        user(vec![("name", text("Ann")), ("friend", object(vec![("name", text("Bob"))]))]),
        vec![],
    );
    assert_eq!(
        execute_root_selection_set(ctx, &set(vec![spread("Root")]), &None),
        Ok(object(vec![(
            "user",
            object(vec![
                ("name", text("Ann")),
                ("friend", object(vec![("name", text("Bob")), ("friend", Value::Null)])),
            ])
        )]))
    );
}

#[test]
fn unknown_fields_of_the_root_end_the_query_before_it_starts() {
    assert_eq!(
        run(
            vec![("user", Value::Enum(s("FAIL")))],
            vec![leaf("first"), branch("user", vec![leaf("name")]), leaf("second")]
        ),
        Err(vec![
            QueryExecutionError::UnknownField(at(), s("Query"), s("first")),
            QueryExecutionError::UnknownField(at(), s("Query"), s("second")),
        ])
    );
}

#[test]
fn schema_without_a_query_type_is_an_error() {
    let mut world = world(vec![]);
    world.schema.document.types.retain(|t| get_type_name(t) != "Query");
    let ctx = context(&world, vec![], vec![]);
    assert_eq!(
        execute_root_selection_set(ctx, &set(vec![leaf("version")]), &None),
        Err(vec![QueryExecutionError::NoRootQueryObjectType])
    );
}

fn both(
    data: Vec<(&str, Value)>,
    introspection: Vec<(&str, Value)>,
    items: Vec<Selection>,
) -> Result<Value, Vec<QueryExecutionError>> {
    let world = world(vec![]);
    execute_root_selection_set(context(&world, data, introspection), &set(items), &None)
}

#[test]
fn data_and_introspection_are_answered_together() {
    let title = || vec![("__schema", object(vec![("title", text("T"))]))];
    let items = || {
        vec![
            branch("__schema", vec![leaf("title")]),
            branch("user", vec![leaf("name")]),
            branch("__schema", vec![aliased("again", "title")]),
        ]
    };
    assert_eq!(
        both(user(vec![("name", text("Ann"))]), title(), items()),
        Ok(object(vec![
            ("user", object(vec![("name", text("Ann"))])),
            ("__schema", object(vec![("title", text("T")), ("again", text("T"))])),
        ]))
    );
    assert_eq!(
        both(vec![], title(), vec![branch("__schema", vec![leaf("title")])]),
        Ok(object(vec![("__schema", object(vec![("title", text("T"))]))]))
    );
}

#[test]
fn query_of_one_part_is_executed_as_its_selection_set() {
    let world = world(vec![]);
    let ctx = context(
        &world,
        user(vec![("name", text("Ann"))]),
        vec![("__schema", object(vec![("title", text("T"))]))],
    );
    let query = type_called(&world, "Query");
    for items in vec![
        set(vec![branch("user", vec![leaf("name")]), leaf("version")]),
        set(vec![branch("__schema", vec![leaf("title")])]),
        set(vec![]),
    ] {
        assert_eq!(
            execute_root_selection_set(ctx.clone(), &items, &None),
            execute_selection_set(ctx.clone(), &items, query, &None)
        );
    }
}

#[test]
fn errors_of_the_data_come_before_those_of_introspection() {
    let items = || {
        vec![branch("__schema", vec![leaf("title")]), branch("user", vec![leaf("name")])]
    };
    let fail = || Value::Enum(s("FAIL"));
    assert_eq!(
        both(vec![("user", fail())], vec![("__schema", fail())], items()),
        Err(vec![error("user")])
    );
    assert_eq!(
        both(user(vec![("name", text("Ann"))]), vec![("__schema", fail())], items()),
        Err(vec![error("__schema")])
    );
}

#[test]
fn introspection_goes_on_within_introspection() {
    let inner = object(vec![("title", text("inner"))]);
    assert_eq!(
        both(
            vec![],
            vec![("__schema", object(vec![("inner", inner)]))],
            vec![branch("__schema", vec![branch("inner", vec![leaf("title")])])]
        ),
        Ok(object(vec![(
            "__schema",
            object(vec![("inner", object(vec![("title", text("inner"))]))])
        )]))
    );
}

#[test]
fn data_resolver_finds_object_types_of_the_introspection_schema() {
    let shape = object(vec![("kind", text("__Schema")), ("title", text("found"))]);
    assert_eq!(
        both(
            vec![],
            vec![("__schema", object(vec![("shape", shape)]))],
            vec![branch("__schema", vec![branch("shape", vec![leaf("title")])])]
        ),
        Ok(object(vec![(
            "__schema",
            object(vec![("shape", object(vec![("title", text("found"))]))])
        )]))
    );
}

#[test]
fn introspection_fields_can_be_selected_everywhere() {
    let world = world(vec![]);
    let ctx = context(&world, vec![], vec![]);
    let users = type_called(&world, "User");
    let (found, introspecting) = get_field_type(ctx.clone(), users, &s("__schema")).unwrap();
    assert_eq!(found.field_type, named("__Schema"));
    assert!(introspecting);
    let (found, introspecting) = get_field_type(ctx.clone(), users, &s("name")).unwrap();
    assert_eq!(found.field_type, named("String"));
    assert!(!introspecting);
    assert!(get_field_type(ctx.clone(), users, &s("nothing")).is_none());
    let mut inner = ctx;
    inner.introspecting = true;
    let (_, introspecting) = get_field_type(inner, users, &s("name")).unwrap();
    assert!(introspecting);
}

#[test]
fn interfaces_are_known_to_the_data_resolver_alone() {
    let count = |n: i64| Value::List(vec![object(vec![("interfaces", Value::Int(n))])]);
    let world = world(vec![]);
    let ctx = context(&world, vec![], vec![]);
    assert_eq!(
        execute_root_selection_set(
            ctx.clone(),
            &set(vec![branch("probes", vec![leaf("interfaces")])]),
            &None
        ),
        Ok(object(vec![("probes", count(1))]))
    );
    let probe = definition("probes", list(named("Probe")));
    let query = type_called(&world, "Query");
    let mut inner = ctx;
    inner.introspecting = true;
    assert_eq!(
        execute_field(
            inner,
            query,
            &None,
            &node("probes", vec![]),
            &probe,
            vec![Arc::new(node("probes", vec![leaf("interfaces")]))]
        ),
        Ok(count(0))
    );
}

#[test]
fn resolver_gets_the_object_type_and_the_arguments() {
    let mut field = node("probe", vec![leaf("kind"), leaf("id"), leaf("interfaces")]);
    field.arguments = vec![(s("id"), Value::Int(8))];
    assert_eq!(
        run(vec![], vec![Selection::Field(Arc::new(field))]),
        Ok(object(vec![(
            "probe",
            object(vec![
                ("kind", text("Probe")),
                ("id", Value::Int(8)),
                ("interfaces", Value::Int(1)),
            ])
        )]))
    );
}

#[test]
fn errors_of_arguments_end_a_field() {
    assert_eq!(
        run(vec![], vec![branch("probe", vec![leaf("kind")])]),
        Err(vec![QueryExecutionError::MissingArgumentError(pos(7, 3), s("id"))])
    );
}

fn by_deadline(
    deadline: Option<Instant>,
    items: Vec<Selection>,
) -> Result<Value, Vec<QueryExecutionError>> {
    let world = world(vec![]);
    let mut ctx = context(&world, user(vec![("name", text("Ann"))]), vec![]);
    ctx.deadline = deadline;
    execute_root_selection_set(ctx, &set(items), &None)
}

#[test]
fn passed_deadline_ends_the_query() {
    let deadline = Instant::now();
    while deadline.elapsed() == Duration::from_nanos(0) {}
    assert_eq!(
        by_deadline(Some(deadline), vec![branch("user", vec![leaf("name")]), leaf("version")]),
        Err(vec![QueryExecutionError::Timeout])
    );
}

#[test]
fn deadline_to_come_changes_nothing() {
    let items = || vec![branch("user", vec![leaf("name")])];
    let later = Instant::now() + Duration::from_secs(3600);
    assert_eq!(by_deadline(Some(later), items()), by_deadline(None, items()));
    assert_eq!(
        by_deadline(None, items()),
        Ok(object(vec![("user", object(vec![("name", text("Ann"))]))]))
    );
}

#[test]
fn deadline_passes_by_the_answer_of_the_clock() {
    let deadline = Some(Instant::now());
    assert!(!is_timed_out(&deadline, 0));
    assert!(is_timed_out(&deadline, 1));
    assert!(!is_timed_out(&None, 1));
}

#[test]
fn results_are_combined_into_an_object_or_its_errors() {
    let ty = object_type("T", vec![], vec![]);
    assert_eq!(
        combine_results(&ty, vec![(s("b"), Ok(Value::Int(1))), (s("a"), Ok(Value::Null))]),
        Ok(values(vec![("a", Value::Null), ("b", Value::Int(1))]))
    );
    assert_eq!(
        combine_results(
            &ty,
            vec![
                (s("a"), Err(vec![error("x"), error("y")])),
                (s("b"), Ok(Value::Int(1))),
                (s("c"), Err(vec![error("z")])),
            ]
        ),
        Err(vec![error("x"), error("y"), error("z")])
    );
    assert_eq!(
        combine_results(&ty, vec![]),
        Err(vec![QueryExecutionError::EmptySelectionSet(s("T"))])
    );
}

#[test]
fn answer_for_an_abstract_type_is_taken_or_an_error() {
    let ty = object_type("T", vec![], vec![]);
    assert_eq!(found_or_error(&interface("I"), Some(&ty)), Ok(&ty));
    assert_eq!(
        found_or_error(&interface("I"), None),
        Err(vec![QueryExecutionError::AbstractTypeError(s("I"))])
    );
}

#[test]
fn derived_context_has_the_field_on_top() {
    let world = world(vec![]);
    let mut ctx = context(&world, vec![], vec![]);
    let first = Arc::new(node("user", vec![]));
    let second = Arc::new(node("friend", vec![]));
    let mut derived = ctx.for_field(&first);
    let inner = derived.for_field(&second);
    assert_eq!(ctx.fields, vec![]);
    assert_eq!(derived.fields, vec![first.clone()]);
    assert_eq!(inner.fields, vec![first, second]);
}

#[test]
fn selection_set_is_executed_on_any_object() {
    let world = world(vec![]);
    let ctx = context(&world, vec![], vec![]);
    let parent = Some(object(vec![("name", text("Ann"))]));
    let ty = type_called(&world, "User");
    let items = set(vec![leaf("name")]);
    assert_eq!(
        execute_selection_set(ctx.clone(), &items, ty, &parent),
        Ok(object(vec![("name", text("Ann"))]))
    );
    assert_eq!(
        execute_selection_set_to_map(ctx, &items, ty, &parent),
        Ok(values(vec![("name", text("Ann"))]))
    );
}

#[test]
fn non_null_marks_do_not_matter_to_the_resolution() {
    let world = world(vec![]);
    let ctx = context(&world, vec![], vec![]);
    let ty = type_called(&world, "User");
    let parent = Some(object(vec![("name", text("Ann"))]));
    let field = node("name", vec![]);
    let resolve = |field_type: Type| {
        resolve_field_value(
            ctx.clone(),
            ty,
            &parent,
            &field,
            &definition("name", named("String")),
            &field_type,
            &values(vec![]),
        )
    };
    assert_eq!(resolve(named("String")), Ok(text("Ann")));
    assert_eq!(resolve(non_null(named("String"))), Ok(text("Ann")));
    assert_eq!(resolve(non_null(list(non_null(named("String"))))), Ok(text("Ann")));
}
