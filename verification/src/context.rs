//! The surroundings in which a query is executed.
use vstd::prelude::*;

use std::sync::Arc;
use std::time::Instant;

use crate::error::QueryExecutionError;
use crate::name_map::NameMap;
use crate::query::Document;
use crate::query::Field;
use crate::query::share;
use crate::query::share_all;
use crate::resolver::Coercion;
use crate::resolver::Resolver;
use crate::schema::EnumType;
use crate::schema::FieldDefinition;
use crate::schema::ObjectOrInterface;
use crate::schema::ObjectType;
use crate::schema::ScalarType;
use crate::schema::Schema;
use crate::schema::SchemaDocument;
use crate::schema::TypeDefinition;
use crate::schema::root_query_type;
use crate::schema::yields_output;
use crate::value::Value;

verus! {

/// Contextual information passed around during query execution.
pub struct ExecutionContext<'a, R1, R2, C> where R1: Resolver, R2: Resolver, C: Coercion {
    /// The schema to execute the query against.
    pub schema: &'a Schema,
    /// Introspection data that corresponds to the schema.
    pub introspection_schema: &'a SchemaDocument,
    /// The query to execute.
    pub document: &'a Document,
    /// The resolver to use.
    pub resolver: Arc<R1>,
    /// The introspection resolver to use.
    pub introspection_resolver: Arc<R2>,
    /// How given values become values of their types.
    pub coercion: Arc<C>,
    /// The current field stack (e.g. allUsers > friends > name).
    pub fields: Vec<Arc<Field>>,
    /// Whether or not we're executing an introspection query.
    pub introspecting: bool,
    /// Variable values.
    pub variable_values: Arc<NameMap<Value>>,
    /// Time at which the query times out.
    pub deadline: Option<Instant>,
}

/// What an [`ExecutionContext`] is.
pub struct ContextView<R1, R2, C> {
    pub schema: Schema,
    pub introspection_schema: SchemaDocument,
    pub document: Document,
    pub resolver: R1,
    pub introspection_resolver: R2,
    pub coercion: C,
    pub fields: Seq<Arc<Field>>,
    pub introspecting: bool,
    pub variable_values: NameMap<Value>,
    pub deadline: Option<Instant>,
}

impl<R1, R2, C> ContextView<R1, R2, C> where R1: Resolver, R2: Resolver, C: Coercion {
    /// The schema that the current field belongs to.
    pub open spec fn current_schema(self) -> SchemaDocument {
        if self.introspecting {
            self.introspection_schema
        } else {
            self.schema.document
        }
    }

    /// The context in which `field` is executed.
    pub open spec fn entering(self, field: Arc<Field>, introspecting: bool) -> Self {
        ContextView { fields: self.fields.push(field), introspecting, ..self }
    }

    /// Whether the resolver of the current schema may answer `answer` when it is asked for an
    /// object. The introspection schema has no interfaces.
    pub open spec fn object_answer(
        self,
        parent: Option<Value>,
        field: Field,
        definition: FieldDefinition,
        object_type: ObjectOrInterface<'_>,
        arguments: NameMap<Value>,
        answer: Result<Value, QueryExecutionError>,
    ) -> bool {
        if self.introspecting {
            exists|none: NameMap<Vec<ObjectType>>|
                none@ == Map::<Seq<char>, Vec<ObjectType>>::empty() && #[trigger] call_ensures(
                    R2::resolve_object,
                    (
                        &self.introspection_resolver,
                        &parent,
                        &field,
                        &definition,
                        object_type,
                        &arguments,
                        &none,
                    ),
                    answer,
                )
        } else {
            call_ensures(
                R1::resolve_object,
                (
                    &self.resolver,
                    &parent,
                    &field,
                    &definition,
                    object_type,
                    &arguments,
                    &self.schema.types_for_interface,
                ),
                answer,
            )
        }
    }

    /// Whether the resolver of the current schema may answer `answer` when it is asked for objects.
    /// The introspection schema has no interfaces.
    pub open spec fn objects_answer(
        self,
        parent: Option<Value>,
        field: String,
        definition: FieldDefinition,
        object_type: ObjectOrInterface<'_>,
        arguments: NameMap<Value>,
        answer: Result<Value, QueryExecutionError>,
    ) -> bool {
        if self.introspecting {
            exists|none: NameMap<Vec<ObjectType>>|
                none@ == Map::<Seq<char>, Vec<ObjectType>>::empty() && #[trigger] call_ensures(
                    R2::resolve_objects,
                    (
                        &self.introspection_resolver,
                        &parent,
                        &field,
                        &definition,
                        object_type,
                        &arguments,
                        &none,
                    ),
                    answer,
                )
        } else {
            call_ensures(
                R1::resolve_objects,
                (
                    &self.resolver,
                    &parent,
                    &field,
                    &definition,
                    object_type,
                    &arguments,
                    &self.schema.types_for_interface,
                ),
                answer,
            )
        }
    }

    /// Whether the resolver of the current schema may answer `answer` when it is asked for an enum
    /// value.
    pub open spec fn enum_answer(
        self,
        field: Field,
        enum_type: EnumType,
        value: Option<&Value>,
        answer: Result<Value, QueryExecutionError>,
    ) -> bool {
        if self.introspecting {
            call_ensures(
                R2::resolve_enum_value,
                (&self.introspection_resolver, &field, &enum_type, value),
                answer,
            )
        } else {
            call_ensures(
                R1::resolve_enum_value,
                (&self.resolver, &field, &enum_type, value),
                answer,
            )
        }
    }

    /// Whether the resolver of the current schema may answer `answer` when it is asked for enum
    /// values.
    pub open spec fn enums_answer(
        self,
        field: Field,
        enum_type: EnumType,
        value: Option<&Value>,
        answer: Result<Value, Vec<QueryExecutionError>>,
    ) -> bool {
        if self.introspecting {
            call_ensures(
                R2::resolve_enum_values,
                (&self.introspection_resolver, &field, &enum_type, value),
                answer,
            )
        } else {
            call_ensures(
                R1::resolve_enum_values,
                (&self.resolver, &field, &enum_type, value),
                answer,
            )
        }
    }

    /// Whether the resolver of the current schema may answer `answer` when it is asked for a scalar
    /// value.
    pub open spec fn scalar_answer(
        self,
        parent_type: ObjectType,
        parent: NameMap<Value>,
        field: Field,
        scalar_type: ScalarType,
        value: Option<&Value>,
        answer: Result<Value, QueryExecutionError>,
    ) -> bool {
        if self.introspecting {
            call_ensures(
                R2::resolve_scalar_value,
                (&self.introspection_resolver, &parent_type, &parent, &field, &scalar_type, value),
                answer,
            )
        } else {
            call_ensures(
                R1::resolve_scalar_value,
                (&self.resolver, &parent_type, &parent, &field, &scalar_type, value),
                answer,
            )
        }
    }

    /// Whether the resolver of the current schema may answer `answer` when it is asked for scalar
    /// values.
    pub open spec fn scalars_answer(
        self,
        field: Field,
        scalar_type: ScalarType,
        value: Option<&Value>,
        answer: Result<Value, Vec<QueryExecutionError>>,
    ) -> bool {
        if self.introspecting {
            call_ensures(
                R2::resolve_scalar_values,
                (&self.introspection_resolver, &field, &scalar_type, value),
                answer,
            )
        } else {
            call_ensures(
                R1::resolve_scalar_values,
                (&self.resolver, &field, &scalar_type, value),
                answer,
            )
        }
    }

    /// Whether the resolver may answer `answer` when it is asked for the object type of a value. It
    /// is the resolver of the data also where the current schema is the introspection schema.
    pub open spec fn abstract_answer(
        self,
        abstract_type: TypeDefinition,
        value: Value,
        answer: Option<&ObjectType>,
    ) -> bool {
        call_ensures(
            R1::resolve_abstract_type,
            (&self.resolver, &self.current_schema(), &abstract_type, &value),
            answer,
        )
    }

    /// Whether the schemas define what an execution relies on: introspection queries have a type
    /// at which they start, and no field of an object type has an input object as its type, be the
    /// object type one of a schema or one that the resolver finds for an interface or a union.
    pub open spec fn well_formed(self) -> bool {
        &&& root_query_type(self.introspection_schema) is Some
        &&& fields_yield_output(self.schema.document)
        &&& fields_yield_output(self.introspection_schema)
        &&& self.answers_yield_output(self.schema.document)
        &&& self.answers_yield_output(self.introspection_schema)
    }

    /// Whether no field of an object type that the resolver may find for an interface or a union of
    /// `schema` has an input object as its type.
    pub open spec fn answers_yield_output(self, schema: SchemaDocument) -> bool {
        forall|ty: TypeDefinition, value: Value, found: ObjectType| #[trigger]
            call_ensures(
                R1::resolve_abstract_type,
                (&self.resolver, &schema, &ty, &value),
                Some(&found),
            ) ==> yields_output(schema, found)
    }
}

/// Whether no field of an object type of `schema` has an input object as its type.
pub open spec fn fields_yield_output(schema: SchemaDocument) -> bool {
    forall|i: int|
        0 <= i < schema.types@.len() && schema.types@[i] is Object ==> yields_output(
            schema,
            #[trigger] schema.types@[i]->Object_0,
        )
}

impl<'a, R1, R2, C> View for ExecutionContext<'a, R1, R2, C> where
    R1: Resolver,
    R2: Resolver,
    C: Coercion,
 {
    type V = ContextView<R1, R2, C>;

    open spec fn view(&self) -> ContextView<R1, R2, C> {
        ContextView {
            schema: *self.schema,
            introspection_schema: *self.introspection_schema,
            document: *self.document,
            resolver: *self.resolver,
            introspection_resolver: *self.introspection_resolver,
            coercion: *self.coercion,
            fields: self.fields@,
            introspecting: self.introspecting,
            variable_values: *self.variable_values,
            deadline: self.deadline,
        }
    }
}

impl<'a, R1, R2, C> Clone for ExecutionContext<'a, R1, R2, C> where
    R1: Resolver,
    R2: Resolver,
    C: Coercion,
 {
    fn clone(&self) -> (copy: Self)
        ensures
            copy@ == self@,
    {
        ExecutionContext {
            schema: self.schema,
            introspection_schema: self.introspection_schema,
            document: self.document,
            resolver: share(&self.resolver),
            introspection_resolver: share(&self.introspection_resolver),
            coercion: share(&self.coercion),
            fields: share_all(&self.fields),
            introspecting: self.introspecting,
            variable_values: share(&self.variable_values),
            deadline: self.deadline,
        }
    }
}

impl<'a, R1, R2, C> ExecutionContext<'a, R1, R2, C> where
    R1: Resolver,
    R2: Resolver,
    C: Coercion,
 {
    /// Creates a derived context for a new field (added to the top of the field stack).
    pub fn for_field(&mut self, field: &Arc<Field>) -> (derived: Self)
        ensures
            derived@ == old(self)@.entering(*field, old(self).introspecting),
            *final(self) == *old(self),
    {
        let mut derived = self.clone();
        derived.fields.push(share(field));
        derived
    }

    /// The schema that the current field belongs to.
    pub fn get_schema(&self) -> (schema: &'a SchemaDocument)
        ensures
            *schema == self@.current_schema(),
    {
        if self.introspecting {
            self.introspection_schema
        } else {
            &self.schema.document
        }
    }

    /// Resolves an object by the resolver of the current schema.
    pub fn resolve_object(
        &self,
        parent: &Option<Value>,
        field: &Field,
        field_definition: &FieldDefinition,
        object_type: ObjectOrInterface<'_>,
        arguments: &NameMap<Value>,
    ) -> (answer: Result<Value, QueryExecutionError>)
        ensures
            self@.object_answer(
                *parent,
                *field,
                *field_definition,
                object_type,
                *arguments,
                answer,
            ),
    {
        if self.introspecting {
            // The introspection schema has no interfaces.
            let none: NameMap<Vec<ObjectType>> = NameMap::new();
            self.introspection_resolver.resolve_object(
                parent,
                field,
                field_definition,
                object_type,
                arguments,
                &none,
            )
        } else {
            self.resolver.resolve_object(
                parent,
                field,
                field_definition,
                object_type,
                arguments,
                &self.schema.types_for_interface,
            )
        }
    }

    /// Resolves a list of objects by the resolver of the current schema.
    pub fn resolve_objects(
        &self,
        parent: &Option<Value>,
        field: &String,
        field_definition: &FieldDefinition,
        object_type: ObjectOrInterface<'_>,
        arguments: &NameMap<Value>,
    ) -> (answer: Result<Value, QueryExecutionError>)
        ensures
            self@.objects_answer(
                *parent,
                *field,
                *field_definition,
                object_type,
                *arguments,
                answer,
            ),
    {
        if self.introspecting {
            // The introspection schema has no interfaces.
            let none: NameMap<Vec<ObjectType>> = NameMap::new();
            self.introspection_resolver.resolve_objects(
                parent,
                field,
                field_definition,
                object_type,
                arguments,
                &none,
            )
        } else {
            self.resolver.resolve_objects(
                parent,
                field,
                field_definition,
                object_type,
                arguments,
                &self.schema.types_for_interface,
            )
        }
    }

    /// Resolves an enum value by the resolver of the current schema.
    pub fn resolve_enum_value(
        &self,
        field: &Field,
        enum_type: &EnumType,
        value: Option<&Value>,
    ) -> (answer: Result<Value, QueryExecutionError>)
        ensures
            self@.enum_answer(*field, *enum_type, value, answer),
    {
        if self.introspecting {
            self.introspection_resolver.resolve_enum_value(field, enum_type, value)
        } else {
            self.resolver.resolve_enum_value(field, enum_type, value)
        }
    }

    /// Resolves a list of enum values by the resolver of the current schema.
    pub fn resolve_enum_values(
        &self,
        field: &Field,
        enum_type: &EnumType,
        value: Option<&Value>,
    ) -> (answer: Result<Value, Vec<QueryExecutionError>>)
        ensures
            self@.enums_answer(*field, *enum_type, value, answer),
    {
        if self.introspecting {
            self.introspection_resolver.resolve_enum_values(field, enum_type, value)
        } else {
            self.resolver.resolve_enum_values(field, enum_type, value)
        }
    }

    /// Resolves a scalar value by the resolver of the current schema.
    pub fn resolve_scalar_value(
        &self,
        parent_object_type: &ObjectType,
        parent: &NameMap<Value>,
        field: &Field,
        scalar_type: &ScalarType,
        value: Option<&Value>,
    ) -> (answer: Result<Value, QueryExecutionError>)
        ensures
            self@.scalar_answer(
                *parent_object_type,
                *parent,
                *field,
                *scalar_type,
                value,
                answer,
            ),
    {
        if self.introspecting {
            self.introspection_resolver.resolve_scalar_value(
                parent_object_type,
                parent,
                field,
                scalar_type,
                value,
            )
        } else {
            self.resolver.resolve_scalar_value(
                parent_object_type,
                parent,
                field,
                scalar_type,
                value,
            )
        }
    }

    /// Resolves a list of scalar values by the resolver of the current schema.
    pub fn resolve_scalar_values(
        &self,
        field: &Field,
        scalar_type: &ScalarType,
        value: Option<&Value>,
    ) -> (answer: Result<Value, Vec<QueryExecutionError>>)
        ensures
            self@.scalars_answer(*field, *scalar_type, value, answer),
    {
        if self.introspecting {
            self.introspection_resolver.resolve_scalar_values(field, scalar_type, value)
        } else {
            self.resolver.resolve_scalar_values(field, scalar_type, value)
        }
    }
}

} // verus!
