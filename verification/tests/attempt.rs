//! Execution where it is not known whether a query can be answered.
use std::sync::Arc;

use graphql_execution::clock::Clock;
use graphql_execution::context::ExecutionContext;
use graphql_execution::error::QueryExecutionError;
use graphql_execution::execute::complete_value;
use graphql_execution::execute::execute_field;
use graphql_execution::execute::execute_root_selection_set;
use graphql_execution::execute::resolve_abstract_type;
use graphql_execution::execute::try_execute_root_selection_set;
use graphql_execution::name_map::NameMap;
use graphql_execution::query::Document;
use graphql_execution::query::Field;
use graphql_execution::query::FragmentDefinition;
use graphql_execution::query::Selection;
use graphql_execution::query::SelectionSet;
use graphql_execution::resolver::Coercion;
use graphql_execution::resolver::Resolver;
use graphql_execution::schema::EnumType;
use graphql_execution::schema::FieldDefinition;
use graphql_execution::schema::InputObjectType;
use graphql_execution::schema::InputValue;
use graphql_execution::schema::InterfaceType;
use graphql_execution::schema::ObjectOrInterface;
use graphql_execution::schema::ObjectType;
use graphql_execution::schema::ScalarType;
use graphql_execution::schema::Schema;
use graphql_execution::schema::SchemaDocument;
use graphql_execution::schema::Type;
use graphql_execution::schema::TypeDefinition;
use graphql_execution::schema::UnionType;
use graphql_execution::schema::get_named_type;
use graphql_execution::value::Pos;
use graphql_execution::value::Value;

fn s(text: &str) -> String {
    text.to_string()
}

fn pos(line: usize, column: usize) -> Pos {
    Pos { line, column }
}

fn at() -> Pos {
    pos(1, 1)
}

fn named(name: &str) -> Type {
    Type::NamedType(s(name))
}

fn list(inner: Type) -> Type {
    Type::ListType(Box::new(inner))
}

fn non_null(inner: Type) -> Type {
    Type::NonNullType(Box::new(inner))
}

fn object(entries: Vec<(&str, Value)>) -> Value {
    Value::Object(values(entries))
}

fn values(entries: Vec<(&str, Value)>) -> NameMap<Value> {
    let mut map: NameMap<Value> = NameMap::new();
    for (name, value) in entries {
        map.insert(s(name), value);
    }
    map
}

fn definition(name: &str, field_type: Type) -> FieldDefinition {
    FieldDefinition {
        position: at(),
        description: None,
        name: s(name),
        arguments: vec![],
        field_type,
        directives: vec![],
    }
}

fn object_type(name: &str, interfaces: Vec<&str>, fields: Vec<FieldDefinition>) -> ObjectType {
    ObjectType {
        position: at(),
        description: None,
        name: s(name),
        implements_interfaces: interfaces.into_iter().map(s).collect(),
        directives: vec![],
        fields,
    }
}

fn scalar(name: &str) -> TypeDefinition {
    TypeDefinition::Scalar(ScalarType {
        position: at(),
        description: None,
        name: s(name),
        directives: vec![],
    })
}

fn enumeration(name: &str) -> TypeDefinition {
    TypeDefinition::Enum(EnumType {
        position: at(),
        description: None,
        name: s(name),
        directives: vec![],
        values: vec![],
    })
}

fn interface(name: &str) -> TypeDefinition {
    TypeDefinition::Interface(InterfaceType {
        position: at(),
        description: None,
        name: s(name),
        directives: vec![],
        fields: vec![],
    })
}

fn union(name: &str, types: Vec<&str>) -> TypeDefinition {
    TypeDefinition::Union(UnionType {
        position: at(),
        description: None,
        name: s(name),
        directives: vec![],
        types: types.into_iter().map(s).collect(),
    })
}

fn input_object(name: &str) -> TypeDefinition {
    TypeDefinition::InputObject(InputObjectType {
        position: at(),
        description: None,
        name: s(name),
        directives: vec![],
        fields: vec![],
    })
}

fn set(items: Vec<Selection>) -> SelectionSet {
    SelectionSet { span: (at(), at()), items }
}

fn node(name: &str, items: Vec<Selection>) -> Field {
    Field {
        position: at(),
        alias: None,
        name: s(name),
        arguments: vec![],
        directives: vec![],
        selection_set: set(items),
    }
}

fn leaf(name: &str) -> Selection {
    branch(name, vec![])
}

fn branch(name: &str, items: Vec<Selection>) -> Selection {
    Selection::Field(Arc::new(node(name, items)))
}

/// Answers out of the parent object, or out of `root` where there is none.
struct Store {
    root: NameMap<Value>,
}

impl Store {
    fn look_up(&self, parent: &Option<Value>, name: &String) -> Result<Value, QueryExecutionError> {
        let found = match parent {
            Some(Value::Object(object)) => object.get(name),
            _ => self.root.get(name),
        };
        match found {
            Some(Value::Enum(message)) if message == "FAIL" => {
                Err(QueryExecutionError::ResolverError(name.clone()))
            }
            Some(value) => Ok(value.clone()),
            None => Ok(Value::Null),
        }
    }
}

impl Resolver for Store {
    fn resolve_object(
        &self,
        parent: &Option<Value>,
        field: &Field,
        _field_definition: &FieldDefinition,
        object_type: ObjectOrInterface<'_>,
        arguments: &NameMap<Value>,
        types_for_interface: &NameMap<Vec<ObjectType>>,
    ) -> Result<Value, QueryExecutionError> {
        if field.name == "probe" {
            let kind = match object_type {
                ObjectOrInterface::Object(t) => t.name.clone(),
                ObjectOrInterface::Interface(t) => t.name.clone(),
            };
            let id = match arguments.get(&s("id")) {
                Some(value) => value.clone(),
                None => Value::Null,
            };
            return Ok(object(vec![
                ("interfaces", Value::Int(types_for_interface.len() as i64)),
                ("kind", Value::String(kind)),
                ("id", id),
            ]));
        }
        self.look_up(parent, &field.name)
    }

    fn resolve_objects(
        &self,
        parent: &Option<Value>,
        field: &String,
        _field_definition: &FieldDefinition,
        _object_type: ObjectOrInterface<'_>,
        _arguments: &NameMap<Value>,
        types_for_interface: &NameMap<Vec<ObjectType>>,
    ) -> Result<Value, QueryExecutionError> {
        if field == "probes" {
            return Ok(Value::List(vec![object(vec![(
                "interfaces",
                Value::Int(types_for_interface.len() as i64),
            )])]));
        }
        self.look_up(parent, field)
    }

    fn resolve_enum_value(
        &self,
        _field: &Field,
        enum_type: &EnumType,
        value: Option<&Value>,
    ) -> Result<Value, QueryExecutionError> {
        match value {
            Some(Value::String(name)) => Ok(Value::Enum(name.clone())),
            Some(_) => Err(QueryExecutionError::ResolverError(enum_type.name.clone())),
            None => Ok(Value::Null),
        }
    }

    fn resolve_enum_values(
        &self,
        _field: &Field,
        enum_type: &EnumType,
        value: Option<&Value>,
    ) -> Result<Value, Vec<QueryExecutionError>> {
        match value {
            Some(Value::List(items)) => Ok(Value::List(items.clone())),
            Some(_) => Err(vec![
                QueryExecutionError::ResolverError(enum_type.name.clone()),
                QueryExecutionError::ResolverError(s("no list")),
            ]),
            None => Ok(Value::Null),
        }
    }

    fn resolve_scalar_value(
        &self,
        _parent_object_type: &ObjectType,
        _parent: &NameMap<Value>,
        field: &Field,
        _scalar_type: &ScalarType,
        value: Option<&Value>,
    ) -> Result<Value, QueryExecutionError> {
        match value {
            Some(Value::Enum(message)) if message == "FAIL" => {
                Err(QueryExecutionError::ResolverError(field.name.clone()))
            }
            Some(value) => Ok(value.clone()),
            None => Ok(Value::Null),
        }
    }

    fn resolve_scalar_values(
        &self,
        _field: &Field,
        _scalar_type: &ScalarType,
        value: Option<&Value>,
    ) -> Result<Value, Vec<QueryExecutionError>> {
        match value {
            Some(Value::Enum(_)) => Err(vec![]),
            Some(value) => Ok(value.clone()),
            None => Ok(Value::Null),
        }
    }

    fn resolve_abstract_type<'a>(
        &self,
        schema: &'a SchemaDocument,
        _abstract_type: &TypeDefinition,
        object_value: &Value,
    ) -> Option<&'a ObjectType> {
        let name = match object_value {
            Value::Object(object) => match object.get(&s("kind")) {
                Some(Value::String(name)) => name.clone(),
                _ => return None,
            },
            _ => return None,
        };
        match get_named_type(schema, &name) {
            Some(TypeDefinition::Object(t)) => Some(t),
            _ => None,
        }
    }
}

/// Takes variables at their values; an argument called `limit` must be an integer, and one called
/// `id` must be given.
struct Plain;

impl Coercion for Plain {
    fn coerce_input_value(
        &self,
        value: Option<&Value>,
        definition: &InputValue,
        _schema: &SchemaDocument,
        variable_values: &NameMap<Value>,
    ) -> Result<Option<Value>, QueryExecutionError> {
        let value = match value {
            Some(Value::Variable(name)) => variable_values.get(name),
            other => other,
        };
        match value {
            None if definition.name == "id" => Err(QueryExecutionError::MissingArgumentError(
                definition.position,
                definition.name.clone(),
            )),
            None => Ok(None),
            Some(Value::Int(n)) => Ok(Some(Value::Int(*n))),
            Some(other) if definition.name == "limit" => {
                Err(QueryExecutionError::InvalidArgumentError(
                    definition.position,
                    definition.name.clone(),
                    other.clone(),
                ))
            }
            Some(other) => Ok(Some(other.clone())),
        }
    }

    fn coerce_value(
        &self,
        value: &Value,
        ty: &Type,
        _schema: &SchemaDocument,
        variable_values: &NameMap<Value>,
    ) -> Option<Value> {
        match (ty, value) {
            (Type::NamedType(name), Value::String(_)) if name == "Int" => None,
            (_, Value::Variable(name)) => match variable_values.get(name) {
                Some(value) => Some(value.clone()),
                None => None,
            },
            _ => Some(value.clone()),
        }
    }
}

fn argument(name: &str, column: usize) -> InputValue {
    InputValue {
        position: pos(7, column),
        description: None,
        name: s(name),
        value_type: named("Int"),
        default_value: None,
        directives: vec![],
    }
}

fn with_arguments(mut field: FieldDefinition, arguments: Vec<InputValue>) -> FieldDefinition {
    field.arguments = arguments;
    field
}

/// Users with names, ages and friends; animals; and fields of many types.
fn schema() -> Schema {
    let dog = object_type("Dog", vec!["Animal"], vec![definition("name", named("String"))]);
    let mut types_for_interface: NameMap<Vec<ObjectType>> = NameMap::new();
    types_for_interface.insert(
        s("Animal"),
        vec![object_type("Dog", vec!["Animal"], vec![definition("name", named("String"))])],
    );
    Schema {
        document: SchemaDocument {
            types: vec![
                scalar("String"),
                scalar("Int"),
                enumeration("Color"),
                interface("Animal"),
                union("Pet", vec!["Dog", "Cat"]),
                input_object("Filter"),
                TypeDefinition::Object(dog),
                TypeDefinition::Object(object_type(
                    "Cat",
                    vec![],
                    vec![definition("lives", named("Int"))],
                )),
                TypeDefinition::Object(object_type(
                    "Probe",
                    vec![],
                    vec![
                        definition("interfaces", named("Int")),
                        definition("kind", named("String")),
                        definition("id", named("Int")),
                    ],
                )),
                TypeDefinition::Object(object_type(
                    "User",
                    vec![],
                    vec![
                        definition("name", named("String")),
                        definition("age", non_null(named("Int"))),
                        definition("tags", list(named("String"))),
                        definition("color", named("Color")),
                        definition("colors", list(non_null(named("Color")))),
                        definition("friend", named("User")),
                        definition("friends", list(non_null(named("User")))),
                        definition("pet", named("Animal")),
                        definition("pets", non_null(list(named("Animal")))),
                        definition("either", named("Pet")),
                        definition("eithers", list(named("Pet"))),
                        definition("matrix", list(list(named("Int")))),
                        definition("ghost", named("Ghost")),
                        definition("ghosts", list(named("Ghost"))),
                    ],
                )),
                TypeDefinition::Object(object_type(
                    "Query",
                    vec![],
                    vec![
                        definition("user", named("User")),
                        definition("users", list(named("User"))),
                        definition("required", non_null(named("User"))),
                        definition("version", named("String")),
                        with_arguments(
                            definition("probe", named("Probe")),
                            vec![argument("id", 3), argument("limit", 9)],
                        ),
                        definition("probes", list(named("Probe"))),
                    ],
                )),
            ],
        },
        types_for_interface,
    }
}

/// Introspection starts at `__schema` and `__probe`.
fn introspection_schema() -> SchemaDocument {
    SchemaDocument {
        types: vec![
            scalar("String"),
            scalar("Int"),
            interface("Shape"),
            TypeDefinition::Object(object_type(
                "__Schema",
                vec![],
                vec![
                    definition("title", named("String")),
                    definition("inner", named("__Schema")),
                    definition("shape", named("Shape")),
                ],
            )),
            TypeDefinition::Object(object_type(
                "Probe",
                vec![],
                vec![definition("interfaces", named("Int"))],
            )),
            TypeDefinition::Object(object_type(
                "Query",
                vec![],
                vec![
                    definition("__schema", named("__Schema")),
                    definition("__probes", list(named("Probe"))),
                ],
            )),
        ],
    }
}

struct World {
    schema: Schema,
    introspection_schema: SchemaDocument,
    document: Document,
}

fn world(fragments: Vec<FragmentDefinition>) -> World {
    World {
        schema: schema(),
        introspection_schema: introspection_schema(),
        document: Document { fragments },
    }
}

fn context<'a>(
    world: &'a World,
    data: Vec<(&str, Value)>,
    introspection: Vec<(&str, Value)>,
) -> ExecutionContext<'a, Store, Store, Plain> {
    ExecutionContext {
        schema: &world.schema,
        introspection_schema: &world.introspection_schema,
        document: &world.document,
        resolver: Arc::new(Store { root: values(data) }),
        introspection_resolver: Arc::new(Store { root: values(introspection) }),
        coercion: Arc::new(Plain),
        fields: vec![],
        introspecting: false,
        variable_values: Arc::new(NameMap::new()),
        deadline: None,
    }
}

fn world_with(extra: FieldDefinition, on: &str) -> World {
    let mut world = world(vec![]);
    for ty in world.schema.document.types.iter_mut() {
        if let TypeDefinition::Object(t) = ty {
            if t.name == on {
                t.fields.push(extra);
                break;
            }
        }
    }
    world
}

fn dog() -> Value {
    object(vec![("kind", Value::String(s("Dog"))), ("name", Value::String(s("Rex")))])
}

#[test]
fn query_that_can_be_answered_is() {
    let world = world(vec![]);
    let user = || vec![("user", object(vec![("name", Value::String(s("Ann")))]))];
    let items = set(vec![branch("user", vec![leaf("name")])]);
    let direct = execute_root_selection_set(context(&world, user(), vec![]), &items, &None);
    assert!(direct.is_ok());
    assert_eq!(
        try_execute_root_selection_set(
            context(&world, user(), vec![]),
            &items,
            &None,
            &mut Clock::new()
        ),
        Some(direct)
    );
}

#[test]
fn field_of_an_input_object_matters_only_where_it_is_selected() {
    for ty in vec![
        named("Filter"),
        non_null(named("Filter")),
        list(named("Filter")),
        non_null(list(non_null(named("Filter")))),
    ] {
        let world = world_with(definition("filter", ty), "Query");
        let attempt = |items: Vec<Selection>| {
            try_execute_root_selection_set(
                context(&world, vec![], vec![]),
                &set(items),
                &None,
                &mut Clock::new(),
            )
        };
        assert_eq!(
            attempt(vec![leaf("version")]),
            Some(Ok(object(vec![("version", Value::Null)])))
        );
        assert_eq!(attempt(vec![leaf("version"), leaf("filter")]), None);
        // Unknown fields end the query before it comes to anything
        assert!(matches!(attempt(vec![leaf("filter"), leaf("nothing")]), Some(Err(_))));
    }
}

#[test]
fn field_of_an_input_object_matters_only_where_it_is_reached() {
    let world = world_with(definition("filter", named("Filter")), "User");
    let attempt = |data: Vec<(&str, Value)>| {
        try_execute_root_selection_set(
            context(&world, data, vec![]),
            &set(vec![branch("user", vec![leaf("filter")])]),
            &None,
            &mut Clock::new(),
        )
    };
    assert_eq!(attempt(vec![]), Some(Ok(object(vec![("user", Value::Null)]))));
    assert_eq!(attempt(vec![("user", object(vec![]))]), None);
}

#[test]
fn object_type_that_is_found_may_have_a_field_of_an_input_object() {
    let world = world_with(definition("filter", named("Filter")), "Dog");
    let attempt = |selected: &str| {
        try_execute_root_selection_set(
            context(&world, vec![("user", object(vec![("pet", dog())]))], vec![]),
            &set(vec![branch("user", vec![branch("pet", vec![leaf(selected)])])]),
            &None,
            &mut Clock::new(),
        )
    };
    assert_eq!(
        attempt("name"),
        Some(Ok(object(vec![(
            "user",
            object(vec![("pet", object(vec![("name", Value::String(s("Rex")))]))])
        )])))
    );
    assert_eq!(attempt("filter"), None);
}

#[test]
fn errors_of_arguments_come_before_the_type_of_a_field() {
    let filter = with_arguments(definition("filter", named("Filter")), vec![argument("id", 3)]);
    let world = world_with(filter, "Query");
    let ctx = context(&world, vec![], vec![]);
    assert_eq!(
        try_execute_root_selection_set(ctx, &set(vec![leaf("filter")]), &None, &mut Clock::new()),
        Some(Err(vec![QueryExecutionError::MissingArgumentError(pos(7, 3), s("id"))]))
    );
}

#[test]
fn introspection_needs_a_query_type_for_any_field() {
    let mut world = world(vec![]);
    world.introspection_schema.types.clear();
    let attempt = |items: Vec<Selection>| {
        try_execute_root_selection_set(
            context(&world, vec![], vec![]),
            &set(items),
            &None,
            &mut Clock::new(),
        )
    };
    assert_eq!(attempt(vec![leaf("version")]), None);
    assert_eq!(
        attempt(vec![]),
        Some(Err(vec![QueryExecutionError::EmptySelectionSet(s("Query"))]))
    );
}

#[test]
fn schema_without_a_query_type_is_answered_with_an_error() {
    let mut world = world(vec![]);
    world.schema.document.types.clear();
    world.introspection_schema.types.clear();
    let ctx = context(&world, vec![], vec![]);
    assert_eq!(
        try_execute_root_selection_set(ctx, &set(vec![leaf("version")]), &None, &mut Clock::new()),
        Some(Err(vec![QueryExecutionError::NoRootQueryObjectType]))
    );
}

#[test]
fn clock_can_be_used_again() {
    let world = world(vec![]);
    let mut clock = Clock::new();
    let items = set(vec![leaf("version")]);
    let mut attempt = || {
        let ctx = context(&world, vec![], vec![]);
        try_execute_root_selection_set(ctx, &items, &None, &mut clock)
    };
    let first = attempt();
    assert_eq!(first, Some(Ok(object(vec![("version", Value::Null)]))));
    assert_eq!(attempt(), first);
}

#[test]
fn values_that_need_no_fields_are_completed_without() {
    let world = world(vec![]);
    let complete = |ty: Type, value: Value| {
        complete_value(
            context(&world, vec![], vec![]),
            &node("field", vec![]),
            &ty,
            vec![],
            value,
        )
    };
    assert_eq!(complete(named("User"), Value::Null), Ok(Value::Null));
    assert_eq!(complete(named("Filter"), Value::Null), Ok(Value::Null));
    assert_eq!(
        complete(non_null(named("Ghost")), Value::Null),
        Err(vec![QueryExecutionError::NonNullError(at(), s("field"))])
    );
    assert_eq!(complete(named("Int"), Value::Int(1)), Ok(Value::Int(1)));
    assert_eq!(
        complete(named("Animal"), Value::Int(1)),
        Err(vec![QueryExecutionError::AbstractTypeError(s("Animal"))])
    );
}

#[test]
fn field_whose_arguments_are_refused_is_answered() {
    let world = world(vec![]);
    let filter = with_arguments(definition("filter", named("Filter")), vec![argument("id", 3)]);
    let query = object_type("Query", vec![], vec![filter]);
    let refused = execute_field(
        context(&world, vec![], vec![]),
        &query,
        &None,
        &node("filter", vec![]),
        &definition("filter", named("Filter")),
        vec![],
    );
    assert_eq!(
        refused,
        Err(vec![QueryExecutionError::MissingArgumentError(pos(7, 3), s("id"))])
    );
}

#[test]
fn items_behind_one_that_fails_do_not_matter() {
    let world = world(vec![]);
    let complete = |items: Vec<Value>| {
        complete_value(
            context(&world, vec![], vec![]),
            &node("ghosts", vec![]),
            &list(non_null(named("Ghost"))),
            vec![Arc::new(node("ghosts", vec![]))],
            Value::List(items),
        )
    };
    // There is no type called `Ghost`, but nothing comes to it
    assert_eq!(
        complete(vec![Value::Null, Value::Int(1)]),
        Err(vec![QueryExecutionError::NonNullError(at(), s("ghosts"))])
    );
    assert_eq!(complete(vec![]), Ok(Value::List(vec![])));
}
