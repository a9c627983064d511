//! Values of arguments and variables.
use std::sync::Arc;

use graphql_execution::coerce::coerce_argument_values;
use graphql_execution::coerce::coerce_variable_value;
use graphql_execution::coerce::coerce_variable_values;
use graphql_execution::coerce::coerced_or_invalid;
use graphql_execution::coerce::combine_arguments;
use graphql_execution::context::ExecutionContext;
use graphql_execution::error::QueryExecutionError;
use graphql_execution::execute::resolve_abstract_type;
use graphql_execution::name_map::NameMap;
use graphql_execution::query::Document;
use graphql_execution::query::Field;
use graphql_execution::query::FragmentDefinition;
use graphql_execution::query::Operation;
use graphql_execution::query::OperationDefinition;
use graphql_execution::query::Selection;
use graphql_execution::query::SelectionSet;
use graphql_execution::query::VariableDefinition;
use graphql_execution::resolver::Coercion;
use graphql_execution::resolver::Resolver;
use graphql_execution::schema::EnumType;
use graphql_execution::schema::FieldDefinition;
use graphql_execution::schema::InputObjectType;
use graphql_execution::schema::InputValue;
use graphql_execution::schema::InterfaceType;
use graphql_execution::schema::ObjectOrInterface;
use graphql_execution::schema::ObjectType;
use graphql_execution::schema::ScalarType;
use graphql_execution::schema::Schema;
use graphql_execution::schema::SchemaDocument;
use graphql_execution::schema::Type;
use graphql_execution::schema::TypeDefinition;
use graphql_execution::schema::UnionType;
use graphql_execution::schema::get_named_type;
use graphql_execution::value::Pos;
use graphql_execution::value::Value;

fn s(text: &str) -> String {
    text.to_string()
}

fn pos(line: usize, column: usize) -> Pos {
    Pos { line, column }
}

fn at() -> Pos {
    pos(1, 1)
}

fn named(name: &str) -> Type {
    Type::NamedType(s(name))
}

fn list(inner: Type) -> Type {
    Type::ListType(Box::new(inner))
}

fn non_null(inner: Type) -> Type {
    Type::NonNullType(Box::new(inner))
}

fn object(entries: Vec<(&str, Value)>) -> Value {
    Value::Object(values(entries))
}

fn values(entries: Vec<(&str, Value)>) -> NameMap<Value> {
    let mut map: NameMap<Value> = NameMap::new();
    for (name, value) in entries {
        map.insert(s(name), value);
    }
    map
}

fn definition(name: &str, field_type: Type) -> FieldDefinition {
    FieldDefinition {
        position: at(),
        description: None,
        name: s(name),
        arguments: vec![],
        field_type,
        directives: vec![],
    }
}

fn object_type(name: &str, interfaces: Vec<&str>, fields: Vec<FieldDefinition>) -> ObjectType {
    ObjectType {
        position: at(),
        description: None,
        name: s(name),
        implements_interfaces: interfaces.into_iter().map(s).collect(),
        directives: vec![],
        fields,
    }
}

fn scalar(name: &str) -> TypeDefinition {
    TypeDefinition::Scalar(ScalarType {
        position: at(),
        description: None,
        name: s(name),
        directives: vec![],
    })
}

fn enumeration(name: &str) -> TypeDefinition {
    TypeDefinition::Enum(EnumType {
        position: at(),
        description: None,
        name: s(name),
        directives: vec![],
        values: vec![],
    })
}

fn interface(name: &str) -> TypeDefinition {
    TypeDefinition::Interface(InterfaceType {
        position: at(),
        description: None,
        name: s(name),
        directives: vec![],
        fields: vec![],
    })
}

fn union(name: &str, types: Vec<&str>) -> TypeDefinition {
    TypeDefinition::Union(UnionType {
        position: at(),
        description: None,
        name: s(name),
        directives: vec![],
        types: types.into_iter().map(s).collect(),
    })
}

fn input_object(name: &str) -> TypeDefinition {
    TypeDefinition::InputObject(InputObjectType {
        position: at(),
        description: None,
        name: s(name),
        directives: vec![],
        fields: vec![],
    })
}

fn set(items: Vec<Selection>) -> SelectionSet {
    SelectionSet { span: (at(), at()), items }
}

fn node(name: &str, items: Vec<Selection>) -> Field {
    Field {
        position: at(),
        alias: None,
        name: s(name),
        arguments: vec![],
        directives: vec![],
        selection_set: set(items),
    }
}

/// Answers out of the parent object, or out of `root` where there is none.
struct Store {
    root: NameMap<Value>,
}

impl Store {
    fn look_up(&self, parent: &Option<Value>, name: &String) -> Result<Value, QueryExecutionError> {
        let found = match parent {
            Some(Value::Object(object)) => object.get(name),
            _ => self.root.get(name),
        };
        match found {
            Some(Value::Enum(message)) if message == "FAIL" => {
                Err(QueryExecutionError::ResolverError(name.clone()))
            }
            Some(value) => Ok(value.clone()),
            None => Ok(Value::Null),
        }
    }
}

impl Resolver for Store {
    fn resolve_object(
        &self,
        parent: &Option<Value>,
        field: &Field,
        _field_definition: &FieldDefinition,
        object_type: ObjectOrInterface<'_>,
        arguments: &NameMap<Value>,
        types_for_interface: &NameMap<Vec<ObjectType>>,
    ) -> Result<Value, QueryExecutionError> {
        if field.name == "probe" {
            let kind = match object_type {
                ObjectOrInterface::Object(t) => t.name.clone(),
                ObjectOrInterface::Interface(t) => t.name.clone(),
            };
            let id = match arguments.get(&s("id")) {
                Some(value) => value.clone(),
                None => Value::Null,
            };
            return Ok(object(vec![
                ("interfaces", Value::Int(types_for_interface.len() as i64)),
                ("kind", Value::String(kind)),
                ("id", id),
            ]));
        }
        self.look_up(parent, &field.name)
    }

    fn resolve_objects(
        &self,
        parent: &Option<Value>,
        field: &String,
        _field_definition: &FieldDefinition,
        _object_type: ObjectOrInterface<'_>,
        _arguments: &NameMap<Value>,
        types_for_interface: &NameMap<Vec<ObjectType>>,
    ) -> Result<Value, QueryExecutionError> {
        if field == "probes" {
            return Ok(Value::List(vec![object(vec![(
                "interfaces",
                Value::Int(types_for_interface.len() as i64),
            )])]));
        }
        self.look_up(parent, field)
    }

    fn resolve_enum_value(
        &self,
        _field: &Field,
        enum_type: &EnumType,
        value: Option<&Value>,
    ) -> Result<Value, QueryExecutionError> {
        match value {
            Some(Value::String(name)) => Ok(Value::Enum(name.clone())),
            Some(_) => Err(QueryExecutionError::ResolverError(enum_type.name.clone())),
            None => Ok(Value::Null),
        }
    }

    fn resolve_enum_values(
        &self,
        _field: &Field,
        enum_type: &EnumType,
        value: Option<&Value>,
    ) -> Result<Value, Vec<QueryExecutionError>> {
        match value {
            Some(Value::List(items)) => Ok(Value::List(items.clone())),
            Some(_) => Err(vec![
                QueryExecutionError::ResolverError(enum_type.name.clone()),
                QueryExecutionError::ResolverError(s("no list")),
            ]),
            None => Ok(Value::Null),
        }
    }

    fn resolve_scalar_value(
        &self,
        _parent_object_type: &ObjectType,
        _parent: &NameMap<Value>,
        field: &Field,
        _scalar_type: &ScalarType,
        value: Option<&Value>,
    ) -> Result<Value, QueryExecutionError> {
        match value {
            Some(Value::Enum(message)) if message == "FAIL" => {
                Err(QueryExecutionError::ResolverError(field.name.clone()))
            }
            Some(value) => Ok(value.clone()),
            None => Ok(Value::Null),
        }
    }

    fn resolve_scalar_values(
        &self,
        _field: &Field,
        _scalar_type: &ScalarType,
        value: Option<&Value>,
    ) -> Result<Value, Vec<QueryExecutionError>> {
        match value {
            Some(Value::Enum(_)) => Err(vec![]),
            Some(value) => Ok(value.clone()),
            None => Ok(Value::Null),
        }
    }

    fn resolve_abstract_type<'a>(
        &self,
        schema: &'a SchemaDocument,
        _abstract_type: &TypeDefinition,
        object_value: &Value,
    ) -> Option<&'a ObjectType> {
        let name = match object_value {
            Value::Object(object) => match object.get(&s("kind")) {
                Some(Value::String(name)) => name.clone(),
                _ => return None,
            },
            _ => return None,
        };
        match get_named_type(schema, &name) {
            Some(TypeDefinition::Object(t)) => Some(t),
            _ => None,
        }
    }
}

/// Takes variables at their values; an argument called `limit` must be an integer, and one called
/// `id` must be given.
struct Plain;

impl Coercion for Plain {
    fn coerce_input_value(
        &self,
        value: Option<&Value>,
        definition: &InputValue,
        _schema: &SchemaDocument,
        variable_values: &NameMap<Value>,
    ) -> Result<Option<Value>, QueryExecutionError> {
        let value = match value {
            Some(Value::Variable(name)) => variable_values.get(name),
            other => other,
        };
        match value {
            None if definition.name == "id" => Err(QueryExecutionError::MissingArgumentError(
                definition.position,
                definition.name.clone(),
            )),
            None => Ok(None),
            Some(Value::Int(n)) => Ok(Some(Value::Int(*n))),
            Some(other) if definition.name == "limit" => {
                Err(QueryExecutionError::InvalidArgumentError(
                    definition.position,
                    definition.name.clone(),
                    other.clone(),
                ))
            }
            Some(other) => Ok(Some(other.clone())),
        }
    }

    fn coerce_value(
        &self,
        value: &Value,
        ty: &Type,
        _schema: &SchemaDocument,
        variable_values: &NameMap<Value>,
    ) -> Option<Value> {
        match (ty, value) {
            (Type::NamedType(name), Value::String(_)) if name == "Int" => None,
            (_, Value::Variable(name)) => match variable_values.get(name) {
                Some(value) => Some(value.clone()),
                None => None,
            },
            _ => Some(value.clone()),
        }
    }
}

fn argument(name: &str, column: usize) -> InputValue {
    InputValue {
        position: pos(7, column),
        description: None,
        name: s(name),
        value_type: named("Int"),
        default_value: None,
        directives: vec![],
    }
}

fn with_arguments(mut field: FieldDefinition, arguments: Vec<InputValue>) -> FieldDefinition {
    field.arguments = arguments;
    field
}

/// Users with names, ages and friends; animals; and fields of many types.
fn schema() -> Schema {
    let dog = object_type("Dog", vec!["Animal"], vec![definition("name", named("String"))]);
    let mut types_for_interface: NameMap<Vec<ObjectType>> = NameMap::new();
    types_for_interface.insert(
        s("Animal"),
        vec![object_type("Dog", vec!["Animal"], vec![definition("name", named("String"))])],
    );
    Schema {
        document: SchemaDocument {
            types: vec![
                scalar("String"),
                scalar("Int"),
                enumeration("Color"),
                interface("Animal"),
                union("Pet", vec!["Dog", "Cat"]),
                input_object("Filter"),
                TypeDefinition::Object(dog),
                TypeDefinition::Object(object_type(
                    "Cat",
                    vec![],
                    vec![definition("lives", named("Int"))],
                )),
                TypeDefinition::Object(object_type(
                    "Probe",
                    vec![],
                    vec![
                        definition("interfaces", named("Int")),
                        definition("kind", named("String")),
                        definition("id", named("Int")),
                    ],
                )),
                TypeDefinition::Object(object_type(
                    "User",
                    vec![],
                    vec![
                        definition("name", named("String")),
                        definition("age", non_null(named("Int"))),
                        definition("tags", list(named("String"))),
                        definition("color", named("Color")),
                        definition("colors", list(non_null(named("Color")))),
                        definition("friend", named("User")),
                        definition("friends", list(non_null(named("User")))),
                        definition("pet", named("Animal")),
                        definition("pets", non_null(list(named("Animal")))),
                        definition("either", named("Pet")),
                        definition("eithers", list(named("Pet"))),
                        definition("matrix", list(list(named("Int")))),
                        definition("ghost", named("Ghost")),
                        definition("ghosts", list(named("Ghost"))),
                    ],
                )),
                TypeDefinition::Object(object_type(
                    "Query",
                    vec![],
                    vec![
                        definition("user", named("User")),
                        definition("users", list(named("User"))),
                        definition("required", non_null(named("User"))),
                        definition("version", named("String")),
                        with_arguments(
                            definition("probe", named("Probe")),
                            vec![argument("id", 3), argument("limit", 9)],
                        ),
                        definition("probes", list(named("Probe"))),
                    ],
                )),
            ],
        },
        types_for_interface,
    }
}

/// Introspection starts at `__schema` and `__probe`.
fn introspection_schema() -> SchemaDocument {
    SchemaDocument {
        types: vec![
            scalar("String"),
            scalar("Int"),
            interface("Shape"),
            TypeDefinition::Object(object_type(
                "__Schema",
                vec![],
                vec![
                    definition("title", named("String")),
                    definition("inner", named("__Schema")),
                    definition("shape", named("Shape")),
                ],
            )),
            TypeDefinition::Object(object_type(
                "Probe",
                vec![],
                vec![definition("interfaces", named("Int"))],
            )),
            TypeDefinition::Object(object_type(
                "Query",
                vec![],
                vec![
                    definition("__schema", named("__Schema")),
                    definition("__probes", list(named("Probe"))),
                ],
            )),
        ],
    }
}

struct World {
    schema: Schema,
    introspection_schema: SchemaDocument,
    document: Document,
}

fn world(fragments: Vec<FragmentDefinition>) -> World {
    World {
        schema: schema(),
        introspection_schema: introspection_schema(),
        document: Document { fragments },
    }
}

fn context<'a>(
    world: &'a World,
    data: Vec<(&str, Value)>,
    introspection: Vec<(&str, Value)>,
) -> ExecutionContext<'a, Store, Store, Plain> {
    ExecutionContext {
        schema: &world.schema,
        introspection_schema: &world.introspection_schema,
        document: &world.document,
        resolver: Arc::new(Store { root: values(data) }),
        introspection_resolver: Arc::new(Store { root: values(introspection) }),
        coercion: Arc::new(Plain),
        fields: vec![],
        introspecting: false,
        variable_values: Arc::new(NameMap::new()),
        deadline: None,
    }
}

fn type_called<'a>(world: &'a World, name: &str) -> &'a ObjectType {
    match get_named_type(&world.schema.document, &s(name)) {
        Some(TypeDefinition::Object(t)) => t,
        _ => panic!("no such object type"),
    }
}

fn with_given(name: &str, arguments: Vec<(&str, Value)>) -> Field {
    let mut field = node(name, vec![]);
    field.arguments = arguments.into_iter().map(|(name, value)| (s(name), value)).collect();
    field
}

fn coerced(
    world: &World,
    arguments: Vec<(&str, Value)>,
) -> Result<NameMap<Value>, Vec<QueryExecutionError>> {
    let mut ctx = context(world, vec![], vec![]);
    ctx.variable_values = Arc::new(values(vec![("seven", Value::Int(7))]));
    coerce_argument_values(&ctx, type_called(world, "Query"), &with_given("probe", arguments))
}

#[test]
fn arguments_are_coerced_by_name() {
    let world = world(vec![]);
    assert_eq!(
        coerced(&world, vec![("limit", Value::Int(5)), ("id", Value::Int(1)), ("other", Value::Null)]),
        Ok(values(vec![("id", Value::Int(1)), ("limit", Value::Int(5))]))
    );
}

#[test]
fn arguments_take_the_values_of_variables() {
    let world = world(vec![]);
    assert_eq!(
        coerced(&world, vec![("id", Value::Variable(s("seven")))]),
        Ok(values(vec![("id", Value::Int(7))]))
    );
}

#[test]
fn all_errors_of_arguments_are_reported() {
    let world = world(vec![]);
    assert_eq!(
        coerced(&world, vec![("limit", Value::Boolean(true))]),
        Err(vec![
            QueryExecutionError::MissingArgumentError(pos(7, 3), s("id")),
            QueryExecutionError::InvalidArgumentError(pos(7, 9), s("limit"), Value::Boolean(true)),
        ])
    );
}

#[test]
fn field_without_arguments_has_none() {
    let world = world(vec![]);
    let ctx = context(&world, vec![], vec![]);
    let query = type_called(&world, "Query");
    for name in vec!["version", "nothing"] {
        assert_eq!(
            coerce_argument_values(&ctx, query, &with_given(name, vec![("id", Value::Int(1))])),
            Ok(values(vec![]))
        );
    }
}

#[test]
fn arguments_that_are_not_defined_are_ignored() {
    let world = world(vec![]);
    assert_eq!(
        coerced(&world, vec![("other", Value::Boolean(true)), ("id", Value::Int(1))]),
        coerced(&world, vec![("id", Value::Int(1))])
    );
}

#[test]
fn answers_for_arguments_are_combined() {
    let missing = || QueryExecutionError::MissingArgumentError(at(), s("b"));
    assert_eq!(
        combine_arguments(vec![
            (s("a"), Ok(Some(Value::Int(1)))),
            (s("b"), Ok(None)),
            (s("c"), Ok(Some(Value::Null))),
        ]),
        Ok(values(vec![("a", Value::Int(1)), ("c", Value::Null)]))
    );
    assert_eq!(
        combine_arguments(vec![(s("a"), Ok(Some(Value::Int(1)))), (s("b"), Err(missing()))]),
        Err(vec![missing()])
    );
    assert_eq!(combine_arguments(vec![]), Ok(values(vec![])));
}

fn variable(name: &str, line: usize, var_type: Type, default_value: Option<Value>) -> VariableDefinition {
    VariableDefinition { position: pos(line, 1), name: s(name), var_type, default_value }
}

fn query(variable_definitions: Vec<VariableDefinition>) -> OperationDefinition {
    OperationDefinition::Query(Operation {
        position: at(),
        name: None,
        variable_definitions,
        directives: vec![],
        selection_set: set(vec![]),
    })
}

#[test]
fn variables_take_given_values_or_defaults() {
    let operation = query(vec![
        variable("given", 1, named("Int"), Some(Value::Int(1))),
        variable("default", 2, non_null(named("Int")), Some(Value::Int(2))),
        variable("absent", 3, named("Int"), None),
        variable("null", 4, named("Int"), Some(Value::Int(4))),
    ]);
    let given = values(vec![
        ("given", Value::Int(10)),
        ("null", Value::Null),
        ("undeclared", Value::Int(5)),
    ]);
    assert_eq!(
        coerce_variable_values(&Plain, &schema(), &operation, &Some(given)),
        Ok(values(vec![
            ("default", Value::Int(2)),
            ("given", Value::Int(10)),
            ("null", Value::Null),
        ]))
    );
}

#[test]
fn variables_take_defaults_where_none_are_given() {
    let operation = query(vec![variable("a", 1, named("Int"), Some(Value::Int(1)))]);
    assert_eq!(
        coerce_variable_values(&Plain, &schema(), &operation, &None),
        Ok(values(vec![("a", Value::Int(1))]))
    );
}

#[test]
fn operation_without_variables_has_none() {
    let operation = OperationDefinition::SelectionSet(set(vec![]));
    let given = values(vec![("a", Value::Int(1))]);
    assert_eq!(
        coerce_variable_values(&Plain, &schema(), &operation, &Some(given)),
        Ok(values(vec![]))
    );
}

#[test]
fn variables_of_invalid_types_and_missing_ones_are_all_reported() {
    let operation = query(vec![
        variable("a", 1, named("User"), Some(Value::Int(1))),
        variable("b", 2, non_null(named("Int")), None),
        variable("c", 3, named("Unknown"), None),
        variable("d", 4, named("Filter"), None),
        variable("e", 5, list(non_null(named("Int"))), None),
    ]);
    assert_eq!(
        coerce_variable_values(&Plain, &schema(), &operation, &None),
        Err(vec![
            QueryExecutionError::InvalidVariableTypeError(pos(1, 1), s("a")),
            QueryExecutionError::MissingVariableError(pos(2, 1), s("b")),
            QueryExecutionError::InvalidVariableTypeError(pos(3, 1), s("c")),
        ])
    );
}

#[test]
fn value_that_does_not_fit_is_the_only_error() {
    let operation = query(vec![
        variable("a", 1, named("User"), None),
        variable("b", 2, named("Int"), None),
        variable("c", 3, non_null(named("Int")), None),
    ]);
    let given = values(vec![("b", Value::String(s("x")))]);
    assert_eq!(
        coerce_variable_values(&Plain, &schema(), &operation, &Some(given)),
        Err(vec![QueryExecutionError::InvalidArgumentError(
            pos(2, 1),
            s("b"),
            Value::String(s("x"))
        )])
    );
}

#[test]
fn no_variable_has_a_value_while_variables_are_coerced() {
    let operation = query(vec![
        variable("a", 1, named("Int"), Some(Value::Int(1))),
        variable("b", 2, named("Int"), Some(Value::Variable(s("a")))),
    ]);
    assert_eq!(
        coerce_variable_values(&Plain, &schema(), &operation, &None),
        Err(vec![QueryExecutionError::InvalidArgumentError(
            pos(2, 1),
            s("b"),
            Value::Variable(s("a"))
        )])
    );
}

#[test]
fn answer_for_a_variable_is_taken_or_refused() {
    let definition = variable("a", 3, named("Int"), None);
    let value = Value::String(s("x"));
    assert_eq!(coerced_or_invalid(&definition, &value, Some(Value::Int(1))), Ok(Value::Int(1)));
    let refused = Err(vec![QueryExecutionError::InvalidArgumentError(
        pos(3, 1),
        s("a"),
        Value::String(s("x")),
    )]);
    assert_eq!(coerced_or_invalid(&definition, &value, None), refused);
    assert_eq!(coerce_variable_value(&Plain, &schema(), &definition, &value), refused);
    assert_eq!(
        coerce_variable_value(&Plain, &schema(), &definition, &Value::Int(2)),
        Ok(Value::Int(2))
    );
}
