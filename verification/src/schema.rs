//! Schemas: the types that a query is executed against, and how they are looked up.
use vstd::prelude::*;

use crate::name_map::NameMap;
use crate::named::Named;
use crate::named::Same;
use crate::named::find_named;
use crate::named::first_named;
use crate::named::equal_lists;
use crate::named::equal_options;
use crate::named::same_list;
use crate::named::same_option;
use crate::value::Pos;
use crate::value::Value;

verus! {

/// A type as it is written in a document.
#[derive(Debug, PartialEq, Eq)]
pub enum Type {
    NamedType(String),
    ListType(Box<Type>),
    NonNullType(Box<Type>),
}

/// A directive, such as `@skip(if: true)`.
#[derive(Debug, PartialEq, Eq)]
pub struct Directive {
    pub position: Pos,
    pub name: String,
    pub arguments: Vec<(String, Value)>,
}

/// The definition of an argument of a field, or of a field of an input object.
#[derive(Debug, PartialEq, Eq)]
pub struct InputValue {
    pub position: Pos,
    pub description: Option<String>,
    pub name: String,
    pub value_type: Type,
    pub default_value: Option<Value>,
    pub directives: Vec<Directive>,
}

/// The definition of a field of an object type or an interface.
#[derive(Debug, PartialEq, Eq)]
pub struct FieldDefinition {
    pub position: Pos,
    pub description: Option<String>,
    pub name: String,
    pub arguments: Vec<InputValue>,
    pub field_type: Type,
    pub directives: Vec<Directive>,
}

#[derive(Debug, PartialEq, Eq)]
pub struct ScalarType {
    pub position: Pos,
    pub description: Option<String>,
    pub name: String,
    pub directives: Vec<Directive>,
}

#[derive(Debug, PartialEq, Eq)]
pub struct ObjectType {
    pub position: Pos,
    pub description: Option<String>,
    pub name: String,
    pub implements_interfaces: Vec<String>,
    pub directives: Vec<Directive>,
    pub fields: Vec<FieldDefinition>,
}

#[derive(Debug, PartialEq, Eq)]
pub struct InterfaceType {
    pub position: Pos,
    pub description: Option<String>,
    pub name: String,
    pub directives: Vec<Directive>,
    pub fields: Vec<FieldDefinition>,
}

#[derive(Debug, PartialEq, Eq)]
pub struct UnionType {
    pub position: Pos,
    pub description: Option<String>,
    pub name: String,
    pub directives: Vec<Directive>,
    /// The names of the object types that belong to the union.
    pub types: Vec<String>,
}

#[derive(Debug, PartialEq, Eq)]
pub struct EnumType {
    pub position: Pos,
    pub description: Option<String>,
    pub name: String,
    pub directives: Vec<Directive>,
    pub values: Vec<EnumValue>,
}

#[derive(Debug, PartialEq, Eq)]
pub struct EnumValue {
    pub position: Pos,
    pub description: Option<String>,
    pub name: String,
    pub directives: Vec<Directive>,
}

#[derive(Debug, PartialEq, Eq)]
pub struct InputObjectType {
    pub position: Pos,
    pub description: Option<String>,
    pub name: String,
    pub directives: Vec<Directive>,
    pub fields: Vec<InputValue>,
}

#[derive(Debug, PartialEq, Eq)]
pub enum TypeDefinition {
    Scalar(ScalarType),
    Object(ObjectType),
    Interface(InterfaceType),
    Union(UnionType),
    Enum(EnumType),
    InputObject(InputObjectType),
}

/// The type definitions of a schema, in the order of the document.
#[derive(Debug, PartialEq, Eq)]
pub struct SchemaDocument {
    pub types: Vec<TypeDefinition>,
}

/// A schema together with the object types that implement each of its interfaces.
#[derive(Debug, PartialEq, Eq)]
pub struct Schema {
    pub document: SchemaDocument,
    /// The object types that implement an interface, by the interface's name.
    pub types_for_interface: NameMap<Vec<ObjectType>>,
}

/// An object type, or an interface that stands for the object types that implement it.
#[derive(Debug, Clone, Copy)]
pub enum ObjectOrInterface<'a> {
    Object(&'a ObjectType),
    Interface(&'a InterfaceType),
}

/// What a [`Type`] is.
pub enum TypeView {
    NamedType(Seq<char>),
    ListType(Box<TypeView>),
    NonNullType(Box<TypeView>),
}

/// The view of `ty`.
pub open spec fn type_view(ty: Type) -> TypeView
    decreases ty,
{
    match ty {
        Type::NamedType(name) => TypeView::NamedType(name@),
        Type::ListType(inner) => TypeView::ListType(Box::new(type_view(*inner))),
        Type::NonNullType(inner) => TypeView::NonNullType(Box::new(type_view(*inner))),
    }
}

impl View for Type {
    type V = TypeView;

    open spec fn view(&self) -> TypeView {
        type_view(*self)
    }
}

/// Whether two types are the same.
fn same_type(a: &Type, b: &Type) -> (same: bool)
    ensures
        same == (a@ == b@),
    decreases a,
{
    match (a, b) {
        (Type::NamedType(x), Type::NamedType(y)) => *x == *y,
        (Type::ListType(x), Type::ListType(y)) => same_type(x, y),
        (Type::NonNullType(x), Type::NonNullType(y)) => same_type(x, y),
        _ => false,
    }
}

impl Same for Directive {
    open spec fn equals(&self, other: &Directive) -> bool {
        &&& self.position == other.position
        &&& self.name@ == other.name@
        &&& equal_lists(self.arguments@, other.arguments@)
    }

    fn same(&self, other: &Directive) -> bool {
        self.position == other.position && self.name == other.name && same_list(
            &self.arguments,
            &other.arguments,
        )
    }
}

impl Same for InputValue {
    open spec fn equals(&self, other: &InputValue) -> bool {
        &&& self.position == other.position
        &&& equal_options(self.description, other.description)
        &&& self.name@ == other.name@
        &&& self.value_type@ == other.value_type@
        &&& equal_options(self.default_value, other.default_value)
        &&& equal_lists(self.directives@, other.directives@)
    }

    fn same(&self, other: &InputValue) -> bool {
        self.position == other.position && same_option(&self.description, &other.description)
            && self.name == other.name && same_type(&self.value_type, &other.value_type)
            && same_option(&self.default_value, &other.default_value) && same_list(
            &self.directives,
            &other.directives,
        )
    }
}

impl Same for FieldDefinition {
    open spec fn equals(&self, other: &FieldDefinition) -> bool {
        &&& self.position == other.position
        &&& equal_options(self.description, other.description)
        &&& self.name@ == other.name@
        &&& equal_lists(self.arguments@, other.arguments@)
        &&& self.field_type@ == other.field_type@
        &&& equal_lists(self.directives@, other.directives@)
    }

    fn same(&self, other: &FieldDefinition) -> bool {
        self.position == other.position && same_option(&self.description, &other.description)
            && self.name == other.name && same_list(&self.arguments, &other.arguments)
            && same_type(&self.field_type, &other.field_type) && same_list(
            &self.directives,
            &other.directives,
        )
    }
}

impl Same for ObjectType {
    open spec fn equals(&self, other: &ObjectType) -> bool {
        &&& self.position == other.position
        &&& equal_options(self.description, other.description)
        &&& self.name@ == other.name@
        &&& equal_lists(self.implements_interfaces@, other.implements_interfaces@)
        &&& equal_lists(self.directives@, other.directives@)
        &&& equal_lists(self.fields@, other.fields@)
    }

    fn same(&self, other: &ObjectType) -> bool {
        self.position == other.position && same_option(&self.description, &other.description)
            && self.name == other.name && same_list(
            &self.implements_interfaces,
            &other.implements_interfaces,
        ) && same_list(&self.directives, &other.directives) && same_list(
            &self.fields,
            &other.fields,
        )
    }
}

impl Named for FieldDefinition {
    open spec fn called(&self) -> Seq<char> {
        self.name@
    }

    fn name(&self) -> &String {
        &self.name
    }
}

impl Named for Directive {
    open spec fn called(&self) -> Seq<char> {
        self.name@
    }

    fn name(&self) -> &String {
        &self.name
    }
}

impl TypeDefinition {
    /// The name of the type.
    pub open spec fn defined_name(self) -> String {
        match self {
            TypeDefinition::Scalar(t) => t.name,
            TypeDefinition::Object(t) => t.name,
            TypeDefinition::Interface(t) => t.name,
            TypeDefinition::Union(t) => t.name,
            TypeDefinition::Enum(t) => t.name,
            TypeDefinition::InputObject(t) => t.name,
        }
    }
}

impl Named for TypeDefinition {
    open spec fn called(&self) -> Seq<char> {
        self.defined_name()@
    }

    fn name(&self) -> &String {
        get_type_name(self)
    }
}

/// The name of a type definition.
pub fn get_type_name(definition: &TypeDefinition) -> (name: &String)
    ensures
        *name == definition.defined_name(),
{
    match definition {
        TypeDefinition::Scalar(t) => &t.name,
        TypeDefinition::Object(t) => &t.name,
        TypeDefinition::Interface(t) => &t.name,
        TypeDefinition::Union(t) => &t.name,
        TypeDefinition::Enum(t) => &t.name,
        TypeDefinition::InputObject(t) => &t.name,
    }
}

/// The type that `schema` defines under `name`: the first, should there be several.
pub open spec fn named_type(schema: SchemaDocument, name: Seq<char>) -> Option<TypeDefinition> {
    first_named(schema.types@, name)
}

/// Looks up the type called `name`.
pub fn get_named_type<'a>(schema: &'a SchemaDocument, name: &String) -> (definition: Option<
    &'a TypeDefinition,
>)
    ensures
        match definition {
            Some(t) => named_type(*schema, name@) == Some(*t),
            None => named_type(*schema, name@) is None,
        },
{
    find_named(&schema.types, name)
}

/// Whether `definition` is that of an object type called `Query`.
pub open spec fn is_query_type(definition: TypeDefinition) -> bool {
    definition is Object && definition.defined_name()@ == "Query"@
}

/// The first object type called `Query`, if there is one.
pub open spec fn query_type_among(types: Seq<TypeDefinition>) -> Option<ObjectType>
    decreases types.len(),
{
    if types.len() == 0 {
        None
    } else if is_query_type(types[0]) {
        Some(types[0]->Object_0)
    } else {
        query_type_among(types.drop_first())
    }
}

/// The type at which queries against `schema` start.
pub open spec fn root_query_type(schema: SchemaDocument) -> Option<ObjectType> {
    query_type_among(schema.types@)
}

/// The root query type is one of the types of the schema.
pub proof fn lemma_query_type_among(types: Seq<TypeDefinition>) -> (i: int)
    requires
        query_type_among(types) is Some,
    ensures
        0 <= i < types.len(),
        types[i] == TypeDefinition::Object(query_type_among(types)->0),
    decreases types.len(),
{
    if is_query_type(types[0]) {
        0
    } else {
        lemma_query_type_among(types.drop_first()) + 1
    }
}

/// Looks up the type at which queries start.
pub fn get_root_query_type(schema: &SchemaDocument) -> (query_type: Option<&ObjectType>)
    ensures
        match query_type {
            Some(t) => root_query_type(*schema) == Some(*t),
            None => root_query_type(*schema) is None,
        },
{
    let query = "Query".to_owned();
    let mut i: usize = 0;
    assert(schema.types@.skip(0) =~= schema.types@);
    while i < schema.types.len()
        invariant
            i <= schema.types@.len(),
            query@ == "Query"@,
            root_query_type(*schema) == query_type_among(schema.types@.skip(i as int)),
        decreases schema.types@.len() - i,
    {
        assert(schema.types@.skip(i as int).drop_first() =~= schema.types@.skip(i + 1));
        if let TypeDefinition::Object(t) = &schema.types[i] {
            if t.name == query {
                return Some(t);
            }
        }
        i += 1;
    }
    None
}

/// The definition of the field `name` of `object_type`, if it has one.
pub open spec fn field_definition(object_type: ObjectType, name: Seq<char>) -> Option<
    FieldDefinition,
> {
    first_named(object_type.fields@, name)
}

/// Looks up a field of an object type.
pub fn get_field_type<'a>(object_type: &'a ObjectType, name: &String) -> (definition: Option<
    &'a FieldDefinition,
>)
    ensures
        match definition {
            Some(d) => field_definition(*object_type, name@) == Some(*d),
            None => field_definition(*object_type, name@) is None,
        },
{
    find_named(&object_type.fields, name)
}

/// The definitions of the arguments of the field `name` of `object_type`: none, if it has no such
/// field.
pub open spec fn argument_definitions(object_type: ObjectType, name: Seq<char>) -> Seq<
    InputValue,
> {
    match field_definition(object_type, name) {
        Some(d) => d.arguments@,
        None => Seq::empty(),
    }
}

/// Looks up the arguments of a field of an object type.
pub fn get_argument_definitions<'a>(
    object_type: &'a ObjectType,
    name: &String,
) -> (definitions: Option<&'a Vec<InputValue>>)
    ensures
        match definitions {
            Some(d) => field_definition(*object_type, name@) is Some && d@ == argument_definitions(
                *object_type,
                name@,
            ),
            None => field_definition(*object_type, name@) is None,
        },
{
    match get_field_type(object_type, name) {
        Some(definition) => Some(&definition.arguments),
        None => None,
    }
}

/// The name of the type that is left when lists and non-null marks are taken off.
pub open spec fn base_name(ty: Type) -> Seq<char>
    decreases ty,
{
    match ty {
        Type::NamedType(name) => name@,
        Type::ListType(inner) => base_name(*inner),
        Type::NonNullType(inner) => base_name(*inner),
    }
}

/// Whether values of `ty` can be given as input: scalars, enums and input objects, lists of them,
/// and their non-null forms.
pub open spec fn input_type(schema: SchemaDocument, ty: Type) -> bool {
    match named_type(schema, base_name(ty)) {
        Some(TypeDefinition::Scalar(_)) => true,
        Some(TypeDefinition::Enum(_)) => true,
        Some(TypeDefinition::InputObject(_)) => true,
        _ => false,
    }
}

/// Whether values of `ty` can be given as input.
pub fn is_input_type(schema: &SchemaDocument, ty: &Type) -> (input: bool)
    ensures
        input == input_type(*schema, *ty),
    decreases ty,
{
    match ty {
        Type::NamedType(name) => match get_named_type(schema, name) {
            Some(TypeDefinition::Scalar(_)) => true,
            Some(TypeDefinition::Enum(_)) => true,
            Some(TypeDefinition::InputObject(_)) => true,
            _ => false,
        },
        Type::ListType(inner) => is_input_type(schema, inner),
        Type::NonNullType(inner) => is_input_type(schema, inner),
    }
}

/// Whether `ty` excludes null.
pub fn is_non_null_type(ty: &Type) -> (non_null: bool)
    ensures
        non_null == (ty is NonNullType),
{
    match ty {
        Type::NonNullType(_) => true,
        _ => false,
    }
}

/// The name of the type for which values of `ty` are resolved: that of the type itself or of the
/// items of a list. Nested lists have none.
pub open spec fn resolved_name(ty: Type) -> Option<String>
    decreases ty,
{
    match ty {
        Type::NamedType(name) => Some(name),
        Type::ListType(inner) => item_name(*inner),
        Type::NonNullType(inner) => resolved_name(*inner),
    }
}

/// The name of the type of the items of a list, unless they are lists.
pub open spec fn item_name(ty: Type) -> Option<String>
    decreases ty,
{
    match ty {
        Type::NamedType(name) => Some(name),
        Type::ListType(_) => None,
        Type::NonNullType(inner) => item_name(*inner),
    }
}

/// Whether `name` is that of an input object.
pub open spec fn is_input_object(schema: SchemaDocument, name: Seq<char>) -> bool {
    named_type(schema, name) matches Some(TypeDefinition::InputObject(_))
}

/// Whether values of `ty` can be resolved: they are not input objects.
pub open spec fn output_type(schema: SchemaDocument, ty: Type) -> bool {
    resolved_name(ty) matches Some(name) ==> !is_input_object(schema, name@)
}

/// Whether values of `ty` can be resolved as items of a list.
fn is_output_item(schema: &SchemaDocument, ty: &Type) -> (output: bool)
    ensures
        output == (item_name(*ty) matches Some(name) ==> !is_input_object(*schema, name@)),
    decreases ty,
{
    match ty {
        Type::NamedType(name) => match get_named_type(schema, name) {
            Some(TypeDefinition::InputObject(_)) => false,
            _ => true,
        },
        Type::ListType(_) => true,
        Type::NonNullType(inner) => is_output_item(schema, inner),
    }
}

/// Whether values of `ty` can be resolved.
pub fn is_output_type(schema: &SchemaDocument, ty: &Type) -> (output: bool)
    ensures
        output == output_type(*schema, *ty),
    decreases ty,
{
    match ty {
        Type::NamedType(name) => match get_named_type(schema, name) {
            Some(TypeDefinition::InputObject(_)) => false,
            _ => true,
        },
        Type::ListType(inner) => is_output_item(schema, inner),
        Type::NonNullType(inner) => is_output_type(schema, inner),
    }
}

/// Whether the values of all fields of `object_type` can be resolved.
pub open spec fn yields_output(schema: SchemaDocument, object_type: ObjectType) -> bool {
    forall|i: int|
        0 <= i < object_type.fields@.len() ==> output_type(
            schema,
            (#[trigger] object_type.fields@[i]).field_type,
        )
}

} // verus!
