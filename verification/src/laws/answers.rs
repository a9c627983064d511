//! What the resolvers are asked, and by whom a question is answered.
use vstd::prelude::*;

use crate::context::ContextView;
use crate::error::Outcome;
use crate::error::QueryExecutionError;
use crate::error::outcome;
use crate::name_map::NameMap;
use crate::query::Field;
use crate::resolve::member;
use crate::resolve::resolves;
use crate::resolve::single;
use crate::resolver::Coercion;
use crate::resolver::Resolver;
use crate::schema::EnumType;
use crate::schema::FieldDefinition;
use crate::schema::ObjectOrInterface;
use crate::schema::ObjectType;
use crate::schema::ScalarType;
use crate::schema::SchemaDocument;
use crate::schema::Type;
use crate::schema::TypeDefinition;
use crate::schema::item_name;
use crate::schema::named_type;
use crate::value::Value;

verus! {

/// While introspecting, the data resolver does not matter to what objects and lists of objects,
/// enum values and scalar values are answered with: contexts that differ in it alone admit the same
/// answers.
pub proof fn data_resolver_does_not_answer_introspection<R1: Resolver, R2: Resolver, C: Coercion>(
    c: ContextView<R1, R2, C>,
    other: R1,
    parent: Option<Value>,
    field: Field,
    definition: FieldDefinition,
    object_type: ObjectOrInterface<'_>,
    arguments: NameMap<Value>,
    enum_type: EnumType,
    scalar_type: ScalarType,
    parent_type: ObjectType,
    parent_object: NameMap<Value>,
    value: Option<&Value>,
    answer: Result<Value, QueryExecutionError>,
    answers: Result<Value, Vec<QueryExecutionError>>,
)
    requires
        c.introspecting,
    ensures
        ({
            let d = ContextView { resolver: other, ..c };
            &&& c.object_answer(parent, field, definition, object_type, arguments, answer)
                <==> d.object_answer(parent, field, definition, object_type, arguments, answer)
            &&& c.objects_answer(parent, field.name, definition, object_type, arguments, answer)
                <==> d.objects_answer(
                    parent,
                    field.name,
                    definition,
                    object_type,
                    arguments,
                    answer,
                )
            &&& c.enum_answer(field, enum_type, value, answer) <==> d.enum_answer(
                field,
                enum_type,
                value,
                answer,
            )
            &&& c.enums_answer(field, enum_type, value, answers) <==> d.enums_answer(
                field,
                enum_type,
                value,
                answers,
            )
            &&& c.scalar_answer(parent_type, parent_object, field, scalar_type, value, answer)
                <==> d.scalar_answer(
                    parent_type,
                    parent_object,
                    field,
                    scalar_type,
                    value,
                    answer,
                )
            &&& c.scalars_answer(field, scalar_type, value, answers) <==> d.scalars_answer(
                field,
                scalar_type,
                value,
                answers,
            )
        }),
{
}

/// A context that answers as `c` does resolves what `c` resolves.
proof fn lemma_same_answers<R1: Resolver, R2: Resolver, C: Coercion>(
    c: ContextView<R1, R2, C>,
    d: ContextView<R1, R2, C>,
    object_type: ObjectType,
    object_value: Option<Value>,
    field: Field,
    definition: FieldDefinition,
    ty: Type,
    arguments: NameMap<Value>,
    result: Outcome<Value>,
)
    requires
        resolves(c, object_type, object_value, field, definition, ty, arguments, result),
        c.introspecting == d.introspecting,
        c.current_schema() == d.current_schema(),
        c.introspecting ==> c.introspection_resolver == d.introspection_resolver,
        !c.introspecting ==> c.resolver == d.resolver && c.schema == d.schema,
    ensures
        resolves(d, object_type, object_value, field, definition, ty, arguments, result),
    decreases ty,
{
    match ty {
        Type::NonNullType(inner) => lemma_same_answers(
            c,
            d,
            object_type,
            object_value,
            field,
            definition,
            *inner,
            arguments,
            result,
        ),
        Type::NamedType(name) => match named_type(c.current_schema(), name@) {
            Some(TypeDefinition::Object(t)) => {
                let answer = choose|answer: Result<Value, QueryExecutionError>| #[trigger]
                    c.object_answer(
                        object_value,
                        field,
                        definition,
                        ObjectOrInterface::Object(&t),
                        arguments,
                        answer,
                    ) && result == single(answer);
                assert(d.object_answer(
                    object_value,
                    field,
                    definition,
                    ObjectOrInterface::Object(&t),
                    arguments,
                    answer,
                ));
            },
            Some(TypeDefinition::Interface(t)) => {
                let answer = choose|answer: Result<Value, QueryExecutionError>| #[trigger]
                    c.object_answer(
                        object_value,
                        field,
                        definition,
                        ObjectOrInterface::Interface(&t),
                        arguments,
                        answer,
                    ) && result == single(answer);
                assert(d.object_answer(
                    object_value,
                    field,
                    definition,
                    ObjectOrInterface::Interface(&t),
                    arguments,
                    answer,
                ));
            },
            Some(TypeDefinition::Enum(t)) => {
                if let Some(Value::Object(object)) = object_value {
                    let answer = choose|answer: Result<Value, QueryExecutionError>| #[trigger]
                        c.enum_answer(field, t, member(object, field.name@), answer)
                            && result == single(answer);
                    assert(d.enum_answer(field, t, member(object, field.name@), answer));
                }
            },
            Some(TypeDefinition::Scalar(t)) => {
                if let Some(Value::Object(object)) = object_value {
                    let answer = choose|answer: Result<Value, QueryExecutionError>| #[trigger]
                        c.scalar_answer(
                            object_type,
                            object,
                            field,
                            t,
                            member(object, field.name@),
                            answer,
                        ) && result == single(answer);
                    assert(d.scalar_answer(
                        object_type,
                        object,
                        field,
                        t,
                        member(object, field.name@),
                        answer,
                    ));
                }
            },
            _ => {},
        },
        Type::ListType(inner) => if let Some(name) = item_name(*inner) {
            match named_type(c.current_schema(), name@) {
                Some(TypeDefinition::Object(t)) => {
                    let answer = choose|answer: Result<Value, QueryExecutionError>| #[trigger]
                        c.objects_answer(
                            object_value,
                            field.name,
                            definition,
                            ObjectOrInterface::Object(&t),
                            arguments,
                            answer,
                        ) && result == single(answer);
                    assert(d.objects_answer(
                        object_value,
                        field.name,
                        definition,
                        ObjectOrInterface::Object(&t),
                        arguments,
                        answer,
                    ));
                },
                Some(TypeDefinition::Interface(t)) => {
                    let answer = choose|answer: Result<Value, QueryExecutionError>| #[trigger]
                        c.objects_answer(
                            object_value,
                            field.name,
                            definition,
                            ObjectOrInterface::Interface(&t),
                            arguments,
                            answer,
                        ) && result == single(answer);
                    assert(d.objects_answer(
                        object_value,
                        field.name,
                        definition,
                        ObjectOrInterface::Interface(&t),
                        arguments,
                        answer,
                    ));
                },
                Some(TypeDefinition::Enum(t)) => {
                    if let Some(Value::Object(object)) = object_value {
                        let given = member(object, field.name@);
                        let answer = choose|answer: Result<Value, Vec<QueryExecutionError>>|
                            #[trigger] c.enums_answer(field, t, given, answer)
                                && result == outcome(answer);
                        assert(d.enums_answer(field, t, given, answer));
                    }
                },
                Some(TypeDefinition::Scalar(t)) => {
                    if let Some(Value::Object(object)) = object_value {
                        let given = member(object, field.name@);
                        let answer = choose|answer: Result<Value, Vec<QueryExecutionError>>|
                            #[trigger] c.scalars_answer(field, t, given, answer)
                                && result == outcome(answer);
                        assert(d.scalars_answer(field, t, given, answer));
                    }
                },
                _ => {},
            }
        },
    }
}

/// While introspecting, the data resolver does not matter to what a field, of whatever type, is
/// resolved into: contexts that differ in it alone admit the same results.
pub proof fn introspection_is_resolved_without_the_data_resolver<
    R1: Resolver,
    R2: Resolver,
    C: Coercion,
>(
    c: ContextView<R1, R2, C>,
    other: R1,
    object_type: ObjectType,
    object_value: Option<Value>,
    field: Field,
    definition: FieldDefinition,
    ty: Type,
    arguments: NameMap<Value>,
    result: Outcome<Value>,
)
    requires
        c.introspecting,
    ensures
        ({
            let d = ContextView { resolver: other, ..c };
            resolves(c, object_type, object_value, field, definition, ty, arguments, result)
                == resolves(d, object_type, object_value, field, definition, ty, arguments, result)
        }),
{
    let d = ContextView { resolver: other, ..c };
    if resolves(c, object_type, object_value, field, definition, ty, arguments, result) {
        lemma_same_answers(
            c,
            d,
            object_type,
            object_value,
            field,
            definition,
            ty,
            arguments,
            result,
        );
    }
    if resolves(d, object_type, object_value, field, definition, ty, arguments, result) {
        lemma_same_answers(
            d,
            c,
            object_type,
            object_value,
            field,
            definition,
            ty,
            arguments,
            result,
        );
    }
}

/// Outside of introspection, the introspection resolver and its schema do not matter to what a
/// field, of whatever type, is resolved into: contexts that differ in them alone admit the same
/// results.
pub proof fn data_is_resolved_without_the_introspection_resolver<
    R1: Resolver,
    R2: Resolver,
    C: Coercion,
>(
    c: ContextView<R1, R2, C>,
    other: R2,
    other_schema: SchemaDocument,
    object_type: ObjectType,
    object_value: Option<Value>,
    field: Field,
    definition: FieldDefinition,
    ty: Type,
    arguments: NameMap<Value>,
    result: Outcome<Value>,
)
    requires
        !c.introspecting,
    ensures
        ({
            let d = ContextView {
                introspection_resolver: other,
                introspection_schema: other_schema,
                ..c
            };
            resolves(c, object_type, object_value, field, definition, ty, arguments, result)
                == resolves(d, object_type, object_value, field, definition, ty, arguments, result)
        }),
{
    let d = ContextView {
        introspection_resolver: other,
        introspection_schema: other_schema,
        ..c
    };
    if resolves(c, object_type, object_value, field, definition, ty, arguments, result) {
        lemma_same_answers(
            c,
            d,
            object_type,
            object_value,
            field,
            definition,
            ty,
            arguments,
            result,
        );
    }
    if resolves(d, object_type, object_value, field, definition, ty, arguments, result) {
        lemma_same_answers(
            d,
            c,
            object_type,
            object_value,
            field,
            definition,
            ty,
            arguments,
            result,
        );
    }
}

/// Outside of introspection, the introspection resolver does not matter: contexts that differ in it
/// alone admit the same answers.
pub proof fn introspection_resolver_does_not_answer_data<R1: Resolver, R2: Resolver, C: Coercion>(
    c: ContextView<R1, R2, C>,
    other: R2,
    parent: Option<Value>,
    field: Field,
    definition: FieldDefinition,
    object_type: ObjectOrInterface<'_>,
    arguments: NameMap<Value>,
    enum_type: EnumType,
    scalar_type: ScalarType,
    parent_type: ObjectType,
    parent_object: NameMap<Value>,
    value: Option<&Value>,
    answer: Result<Value, QueryExecutionError>,
    answers: Result<Value, Vec<QueryExecutionError>>,
)
    requires
        !c.introspecting,
    ensures
        ({
            let d = ContextView { introspection_resolver: other, ..c };
            &&& c.object_answer(parent, field, definition, object_type, arguments, answer)
                <==> d.object_answer(parent, field, definition, object_type, arguments, answer)
            &&& c.objects_answer(parent, field.name, definition, object_type, arguments, answer)
                <==> d.objects_answer(
                    parent,
                    field.name,
                    definition,
                    object_type,
                    arguments,
                    answer,
                )
            &&& c.enum_answer(field, enum_type, value, answer) <==> d.enum_answer(
                field,
                enum_type,
                value,
                answer,
            )
            &&& c.enums_answer(field, enum_type, value, answers) <==> d.enums_answer(
                field,
                enum_type,
                value,
                answers,
            )
            &&& c.scalar_answer(parent_type, parent_object, field, scalar_type, value, answer)
                <==> d.scalar_answer(
                    parent_type,
                    parent_object,
                    field,
                    scalar_type,
                    value,
                    answer,
                )
            &&& c.scalars_answer(field, scalar_type, value, answers) <==> d.scalars_answer(
                field,
                scalar_type,
                value,
                answers,
            )
        }),
{
}

/// The object type of a value of an interface or a union is found by the data resolver, whether or
/// not the execution is introspecting, in the schema in use; the introspection resolver does not
/// matter to it.
pub proof fn data_resolver_finds_object_types<R1: Resolver, R2: Resolver, C: Coercion>(
    c: ContextView<R1, R2, C>,
    other: R2,
    abstract_type: TypeDefinition,
    value: Value,
    answer: Option<&ObjectType>,
)
    ensures
        ({
            let d = ContextView { introspection_resolver: other, ..c };
            c.abstract_answer(abstract_type, value, answer) <==> d.abstract_answer(
                abstract_type,
                value,
                answer,
            )
        }),
        c.introspecting ==> (c.abstract_answer(abstract_type, value, answer) <==> call_ensures(
            R1::resolve_abstract_type,
            (&c.resolver, &c.introspection_schema, &abstract_type, &value),
            answer,
        )),
        !c.introspecting ==> (c.abstract_answer(abstract_type, value, answer) <==> call_ensures(
            R1::resolve_abstract_type,
            (&c.resolver, &c.schema.document, &abstract_type, &value),
            answer,
        )),
{
}

/// The outcome of a question with one answer: the value, or the error alone.
pub open spec fn alone(answer: Result<Value, QueryExecutionError>, result: Outcome<Value>) -> bool {
    match answer {
        Ok(value) => result is Ok && result->Ok_0 == value,
        Err(error) => result is Err && result->Err_0.len() == 1 && result->Err_0[0] == error,
    }
}

/// Whether `given` is what an object has under `name`.
pub open spec fn is_member(object: NameMap<Value>, name: Seq<char>, given: Option<&Value>) -> bool {
    match given {
        Some(value) => object@.dom().contains(name) && object@[name] == *value,
        None => !object@.dom().contains(name),
    }
}

/// Whether a field is resolved does not depend on whether its type, or that of its items, excludes
/// null.
pub proof fn non_null_marks_do_not_matter_to_the_resolution<
    R1: Resolver,
    R2: Resolver,
    C: Coercion,
>(
    c: ContextView<R1, R2, C>,
    object_type: ObjectType,
    object_value: Option<Value>,
    field: Field,
    definition: FieldDefinition,
    ty: Type,
    arguments: NameMap<Value>,
    result: Outcome<Value>,
)
    ensures
        resolves(
            c,
            object_type,
            object_value,
            field,
            definition,
            Type::NonNullType(Box::new(ty)),
            arguments,
            result,
        ) <==> resolves(
            c,
            object_type,
            object_value,
            field,
            definition,
            ty,
            arguments,
            result,
        ),
        resolves(
            c,
            object_type,
            object_value,
            field,
            definition,
            Type::ListType(Box::new(Type::NonNullType(Box::new(ty)))),
            arguments,
            result,
        ) <==> resolves(
            c,
            object_type,
            object_value,
            field,
            definition,
            Type::ListType(Box::new(ty)),
            arguments,
            result,
        ),
{
    reveal_with_fuel(resolves, 3);
}

/// A field whose type is an object type is resolved by asking the resolver of the
/// schema in use for an object, with the parent, the field, that type and the arguments of the
/// field; the data resolver is told the object types of each interface, the introspection resolver
/// none.
pub proof fn object_is_asked_with_the_arguments<R1: Resolver, R2: Resolver, C: Coercion>(
    c: ContextView<R1, R2, C>,
    object_type: ObjectType,
    object_value: Option<Value>,
    field: Field,
    definition: FieldDefinition,
    name: String,
    arguments: NameMap<Value>,
    result: Outcome<Value>,
)
    requires
        resolves(
            c,
            object_type,
            object_value,
            field,
            definition,
            Type::NamedType(name),
            arguments,
            result,
        ),
        named_type(c.current_schema(), name@) is Some,
        named_type(c.current_schema(), name@)->0 is Object,
    ensures
        ({
            let t = named_type(c.current_schema(), name@)->0->Object_0;
            &&& c.introspecting ==> exists|
                asked: NameMap<Value>,
                none: NameMap<Vec<ObjectType>>,
                answer: Result<Value, QueryExecutionError>,
            |
                #![trigger call_ensures(
                    R2::resolve_object,
                    (
                        &c.introspection_resolver,
                        &object_value,
                        &field,
                        &definition,
                        ObjectOrInterface::Object(&t),
                        &asked,
                        &none,
                    ),
                    answer,
                )]
                asked@ == arguments@ && none@ == Map::<Seq<char>, Vec<ObjectType>>::empty()
                    && call_ensures(
                        R2::resolve_object,
                        (
                            &c.introspection_resolver,
                            &object_value,
                            &field,
                            &definition,
                            ObjectOrInterface::Object(&t),
                            &asked,
                            &none,
                        ),
                        answer,
                    ) && alone(answer, result)
            &&& !c.introspecting ==> exists|
                asked: NameMap<Value>,
                answer: Result<Value, QueryExecutionError>,
            |
                #![trigger call_ensures(
                    R1::resolve_object,
                    (
                        &c.resolver,
                        &object_value,
                        &field,
                        &definition,
                        ObjectOrInterface::Object(&t),
                        &asked,
                        &c.schema.types_for_interface,
                    ),
                    answer,
                )]
                asked@ == arguments@ && call_ensures(
                    R1::resolve_object,
                    (
                        &c.resolver,
                        &object_value,
                        &field,
                        &definition,
                        ObjectOrInterface::Object(&t),
                        &asked,
                        &c.schema.types_for_interface,
                    ),
                    answer,
                ) && alone(answer, result)
        }),
{
    reveal_with_fuel(resolves, 2);
    let t = named_type(c.current_schema(), name@)->0->Object_0;
    let answer = choose|answer: Result<Value, QueryExecutionError>| #[trigger]
        c.object_answer(
            object_value,
            field,
            definition,
            ObjectOrInterface::Object(&t),
            arguments,
            answer,
        ) && result == single(answer);
    assert(c.object_answer(
        object_value,
        field,
        definition,
        ObjectOrInterface::Object(&t),
        arguments,
        answer,
    ));
}

/// A field whose type is an interface is resolved by asking the resolver of the
/// schema in use for an object, with the parent, the field, that type and the arguments of the
/// field; the data resolver is told the object types of each interface, the introspection resolver
/// none.
pub proof fn interface_object_is_asked_with_the_arguments<R1: Resolver, R2: Resolver, C: Coercion>(
    c: ContextView<R1, R2, C>,
    object_type: ObjectType,
    object_value: Option<Value>,
    field: Field,
    definition: FieldDefinition,
    name: String,
    arguments: NameMap<Value>,
    result: Outcome<Value>,
)
    requires
        resolves(
            c,
            object_type,
            object_value,
            field,
            definition,
            Type::NamedType(name),
            arguments,
            result,
        ),
        named_type(c.current_schema(), name@) is Some,
        named_type(c.current_schema(), name@)->0 is Interface,
    ensures
        ({
            let t = named_type(c.current_schema(), name@)->0->Interface_0;
            &&& c.introspecting ==> exists|
                asked: NameMap<Value>,
                none: NameMap<Vec<ObjectType>>,
                answer: Result<Value, QueryExecutionError>,
            |
                #![trigger call_ensures(
                    R2::resolve_object,
                    (
                        &c.introspection_resolver,
                        &object_value,
                        &field,
                        &definition,
                        ObjectOrInterface::Interface(&t),
                        &asked,
                        &none,
                    ),
                    answer,
                )]
                asked@ == arguments@ && none@ == Map::<Seq<char>, Vec<ObjectType>>::empty()
                    && call_ensures(
                        R2::resolve_object,
                        (
                            &c.introspection_resolver,
                            &object_value,
                            &field,
                            &definition,
                            ObjectOrInterface::Interface(&t),
                            &asked,
                            &none,
                        ),
                        answer,
                    ) && alone(answer, result)
            &&& !c.introspecting ==> exists|
                asked: NameMap<Value>,
                answer: Result<Value, QueryExecutionError>,
            |
                #![trigger call_ensures(
                    R1::resolve_object,
                    (
                        &c.resolver,
                        &object_value,
                        &field,
                        &definition,
                        ObjectOrInterface::Interface(&t),
                        &asked,
                        &c.schema.types_for_interface,
                    ),
                    answer,
                )]
                asked@ == arguments@ && call_ensures(
                    R1::resolve_object,
                    (
                        &c.resolver,
                        &object_value,
                        &field,
                        &definition,
                        ObjectOrInterface::Interface(&t),
                        &asked,
                        &c.schema.types_for_interface,
                    ),
                    answer,
                ) && alone(answer, result)
        }),
{
    reveal_with_fuel(resolves, 2);
    let t = named_type(c.current_schema(), name@)->0->Interface_0;
    let answer = choose|answer: Result<Value, QueryExecutionError>| #[trigger]
        c.object_answer(
            object_value,
            field,
            definition,
            ObjectOrInterface::Interface(&t),
            arguments,
            answer,
        ) && result == single(answer);
    assert(c.object_answer(
        object_value,
        field,
        definition,
        ObjectOrInterface::Interface(&t),
        arguments,
        answer,
    ));
}

/// A field whose type is a list of an object type is resolved by asking the resolver of the
/// schema in use for objects, with the parent, the field, that type and the arguments of the
/// field; the data resolver is told the object types of each interface, the introspection resolver
/// none.
pub proof fn objects_are_asked_with_the_arguments<R1: Resolver, R2: Resolver, C: Coercion>(
    c: ContextView<R1, R2, C>,
    object_type: ObjectType,
    object_value: Option<Value>,
    field: Field,
    definition: FieldDefinition,
    name: String,
    arguments: NameMap<Value>,
    result: Outcome<Value>,
)
    requires
        resolves(
            c,
            object_type,
            object_value,
            field,
            definition,
            Type::ListType(Box::new(Type::NamedType(name))),
            arguments,
            result,
        ),
        named_type(c.current_schema(), name@) is Some,
        named_type(c.current_schema(), name@)->0 is Object,
    ensures
        ({
            let t = named_type(c.current_schema(), name@)->0->Object_0;
            &&& c.introspecting ==> exists|
                asked: NameMap<Value>,
                none: NameMap<Vec<ObjectType>>,
                answer: Result<Value, QueryExecutionError>,
            |
                #![trigger call_ensures(
                    R2::resolve_objects,
                    (
                        &c.introspection_resolver,
                        &object_value,
                        &field.name,
                        &definition,
                        ObjectOrInterface::Object(&t),
                        &asked,
                        &none,
                    ),
                    answer,
                )]
                asked@ == arguments@ && none@ == Map::<Seq<char>, Vec<ObjectType>>::empty()
                    && call_ensures(
                        R2::resolve_objects,
                        (
                            &c.introspection_resolver,
                            &object_value,
                            &field.name,
                            &definition,
                            ObjectOrInterface::Object(&t),
                            &asked,
                            &none,
                        ),
                        answer,
                    ) && alone(answer, result)
            &&& !c.introspecting ==> exists|
                asked: NameMap<Value>,
                answer: Result<Value, QueryExecutionError>,
            |
                #![trigger call_ensures(
                    R1::resolve_objects,
                    (
                        &c.resolver,
                        &object_value,
                        &field.name,
                        &definition,
                        ObjectOrInterface::Object(&t),
                        &asked,
                        &c.schema.types_for_interface,
                    ),
                    answer,
                )]
                asked@ == arguments@ && call_ensures(
                    R1::resolve_objects,
                    (
                        &c.resolver,
                        &object_value,
                        &field.name,
                        &definition,
                        ObjectOrInterface::Object(&t),
                        &asked,
                        &c.schema.types_for_interface,
                    ),
                    answer,
                ) && alone(answer, result)
        }),
{
    reveal_with_fuel(resolves, 2);
    let t = named_type(c.current_schema(), name@)->0->Object_0;
    let answer = choose|answer: Result<Value, QueryExecutionError>| #[trigger]
        c.objects_answer(
            object_value,
            field.name,
            definition,
            ObjectOrInterface::Object(&t),
            arguments,
            answer,
        ) && result == single(answer);
    assert(c.objects_answer(
        object_value,
        field.name,
        definition,
        ObjectOrInterface::Object(&t),
        arguments,
        answer,
    ));
}

/// A field whose type is a list of an interface is resolved by asking the resolver of the
/// schema in use for objects, with the parent, the field, that type and the arguments of the
/// field; the data resolver is told the object types of each interface, the introspection resolver
/// none.
pub proof fn interface_objects_are_asked_with_the_arguments<
    R1: Resolver,
    R2: Resolver,
    C: Coercion,
>(
    c: ContextView<R1, R2, C>,
    object_type: ObjectType,
    object_value: Option<Value>,
    field: Field,
    definition: FieldDefinition,
    name: String,
    arguments: NameMap<Value>,
    result: Outcome<Value>,
)
    requires
        resolves(
            c,
            object_type,
            object_value,
            field,
            definition,
            Type::ListType(Box::new(Type::NamedType(name))),
            arguments,
            result,
        ),
        named_type(c.current_schema(), name@) is Some,
        named_type(c.current_schema(), name@)->0 is Interface,
    ensures
        ({
            let t = named_type(c.current_schema(), name@)->0->Interface_0;
            &&& c.introspecting ==> exists|
                asked: NameMap<Value>,
                none: NameMap<Vec<ObjectType>>,
                answer: Result<Value, QueryExecutionError>,
            |
                #![trigger call_ensures(
                    R2::resolve_objects,
                    (
                        &c.introspection_resolver,
                        &object_value,
                        &field.name,
                        &definition,
                        ObjectOrInterface::Interface(&t),
                        &asked,
                        &none,
                    ),
                    answer,
                )]
                asked@ == arguments@ && none@ == Map::<Seq<char>, Vec<ObjectType>>::empty()
                    && call_ensures(
                        R2::resolve_objects,
                        (
                            &c.introspection_resolver,
                            &object_value,
                            &field.name,
                            &definition,
                            ObjectOrInterface::Interface(&t),
                            &asked,
                            &none,
                        ),
                        answer,
                    ) && alone(answer, result)
            &&& !c.introspecting ==> exists|
                asked: NameMap<Value>,
                answer: Result<Value, QueryExecutionError>,
            |
                #![trigger call_ensures(
                    R1::resolve_objects,
                    (
                        &c.resolver,
                        &object_value,
                        &field.name,
                        &definition,
                        ObjectOrInterface::Interface(&t),
                        &asked,
                        &c.schema.types_for_interface,
                    ),
                    answer,
                )]
                asked@ == arguments@ && call_ensures(
                    R1::resolve_objects,
                    (
                        &c.resolver,
                        &object_value,
                        &field.name,
                        &definition,
                        ObjectOrInterface::Interface(&t),
                        &asked,
                        &c.schema.types_for_interface,
                    ),
                    answer,
                ) && alone(answer, result)
        }),
{
    reveal_with_fuel(resolves, 2);
    let t = named_type(c.current_schema(), name@)->0->Interface_0;
    let answer = choose|answer: Result<Value, QueryExecutionError>| #[trigger]
        c.objects_answer(
            object_value,
            field.name,
            definition,
            ObjectOrInterface::Interface(&t),
            arguments,
            answer,
        ) && result == single(answer);
    assert(c.objects_answer(
        object_value,
        field.name,
        definition,
        ObjectOrInterface::Interface(&t),
        arguments,
        answer,
    ));
}

/// A field whose type is an enum is resolved by asking the resolver of the schema in use what the
/// parent object has under the name of the field, not under its alias, comes to. Without a parent
/// object it is null.
pub proof fn enum_is_asked_with_the_value_of_the_parent<R1: Resolver, R2: Resolver, C: Coercion>(
    c: ContextView<R1, R2, C>,
    object_type: ObjectType,
    object_value: Option<Value>,
    field: Field,
    definition: FieldDefinition,
    name: String,
    arguments: NameMap<Value>,
    result: Outcome<Value>,
)
    requires
        resolves(
            c,
            object_type,
            object_value,
            field,
            definition,
            Type::NamedType(name),
            arguments,
            result,
        ),
        named_type(c.current_schema(), name@) is Some,
        named_type(c.current_schema(), name@)->0 is Enum,
    ensures
        ({
            let t = named_type(c.current_schema(), name@)->0->Enum_0;
            match object_value {
                Some(Value::Object(object)) => {
                    &&& c.introspecting ==> exists|
                        given: Option<&Value>,
                        answer: Result<Value, QueryExecutionError>,
                    |
                    #![trigger call_ensures(
                        R2::resolve_enum_value,
                        (&c.introspection_resolver, &field, &t, given),
                        answer,
                    )]
                    is_member(object, field.name@, given)
                        && call_ensures(
                            R2::resolve_enum_value,
                            (&c.introspection_resolver, &field, &t, given),
                            answer,
                        )
                        && alone(answer, result)
                    &&& !c.introspecting ==> exists|
                        given: Option<&Value>,
                        answer: Result<Value, QueryExecutionError>,
                    |
                    #![trigger call_ensures(
                        R1::resolve_enum_value,
                        (&c.resolver, &field, &t, given),
                        answer,
                    )]
                    is_member(object, field.name@, given)
                        && call_ensures(
                            R1::resolve_enum_value,
                            (&c.resolver, &field, &t, given),
                            answer,
                        )
                        && alone(answer, result)
                },
                _ => result is Ok && result->Ok_0 is Null,
            }
        }),
{
    reveal_with_fuel(resolves, 2);
    let t = named_type(c.current_schema(), name@)->0->Enum_0;
    if let Some(Value::Object(object)) = object_value {
        let given = member(object, field.name@);
        assert(is_member(object, field.name@, given));
        let answer = choose|answer: Result<Value, QueryExecutionError>| #[trigger]
            c.enum_answer(field, t, given, answer) && result == single(answer);
        assert(c.enum_answer(field, t, given, answer));
    }
}

/// A field whose type is a scalar is resolved by asking the resolver of the schema in use what the
/// parent object has under the name of the field, not under its alias, comes to. Without a parent
/// object it is null.
pub proof fn scalar_is_asked_with_the_value_of_the_parent<R1: Resolver, R2: Resolver, C: Coercion>(
    c: ContextView<R1, R2, C>,
    object_type: ObjectType,
    object_value: Option<Value>,
    field: Field,
    definition: FieldDefinition,
    name: String,
    arguments: NameMap<Value>,
    result: Outcome<Value>,
)
    requires
        resolves(
            c,
            object_type,
            object_value,
            field,
            definition,
            Type::NamedType(name),
            arguments,
            result,
        ),
        named_type(c.current_schema(), name@) is Some,
        named_type(c.current_schema(), name@)->0 is Scalar,
    ensures
        ({
            let t = named_type(c.current_schema(), name@)->0->Scalar_0;
            match object_value {
                Some(Value::Object(object)) => {
                    &&& c.introspecting ==> exists|
                        given: Option<&Value>,
                        answer: Result<Value, QueryExecutionError>,
                    |
                    #![trigger call_ensures(
                        R2::resolve_scalar_value,
                        (&c.introspection_resolver, &object_type, &object, &field, &t, given),
                        answer,
                    )]
                    is_member(object, field.name@, given)
                        && call_ensures(
                            R2::resolve_scalar_value,
                            (&c.introspection_resolver, &object_type, &object, &field, &t, given),
                            answer,
                        )
                        && alone(answer, result)
                    &&& !c.introspecting ==> exists|
                        given: Option<&Value>,
                        answer: Result<Value, QueryExecutionError>,
                    |
                    #![trigger call_ensures(
                        R1::resolve_scalar_value,
                        (&c.resolver, &object_type, &object, &field, &t, given),
                        answer,
                    )]
                    is_member(object, field.name@, given)
                        && call_ensures(
                            R1::resolve_scalar_value,
                            (&c.resolver, &object_type, &object, &field, &t, given),
                            answer,
                        )
                        && alone(answer, result)
                },
                _ => result is Ok && result->Ok_0 is Null,
            }
        }),
{
    reveal_with_fuel(resolves, 2);
    let t = named_type(c.current_schema(), name@)->0->Scalar_0;
    if let Some(Value::Object(object)) = object_value {
        let given = member(object, field.name@);
        assert(is_member(object, field.name@, given));
        let answer = choose|answer: Result<Value, QueryExecutionError>| #[trigger]
            c.scalar_answer(object_type, object, field, t, given, answer)
                && result == single(answer);
        assert(c.scalar_answer(object_type, object, field, t, given, answer));
    }
}

/// A field whose type is a list of enums is resolved by asking the resolver of the schema in use
/// what the parent object has under the name of the field, not under its alias, comes to. Without a
/// parent object it is null.
pub proof fn enums_are_asked_with_the_value_of_the_parent<R1: Resolver, R2: Resolver, C: Coercion>(
    c: ContextView<R1, R2, C>,
    object_type: ObjectType,
    object_value: Option<Value>,
    field: Field,
    definition: FieldDefinition,
    name: String,
    arguments: NameMap<Value>,
    result: Outcome<Value>,
)
    requires
        resolves(
            c,
            object_type,
            object_value,
            field,
            definition,
            Type::ListType(Box::new(Type::NamedType(name))),
            arguments,
            result,
        ),
        named_type(c.current_schema(), name@) is Some,
        named_type(c.current_schema(), name@)->0 is Enum,
    ensures
        ({
            let t = named_type(c.current_schema(), name@)->0->Enum_0;
            match object_value {
                Some(Value::Object(object)) => {
                    &&& c.introspecting ==> exists|
                        given: Option<&Value>,
                        answer: Result<Value, Vec<QueryExecutionError>>,
                    |
                    #![trigger call_ensures(
                        R2::resolve_enum_values,
                        (&c.introspection_resolver, &field, &t, given),
                        answer,
                    )]
                    is_member(object, field.name@, given)
                        && call_ensures(
                            R2::resolve_enum_values,
                            (&c.introspection_resolver, &field, &t, given),
                            answer,
                        )
                        && (answer is Ok <==> result is Ok)
                        && (answer is Ok ==> answer->Ok_0 == result->Ok_0) && (
                    answer is Err ==> answer->Err_0@ == result->Err_0)
                    &&& !c.introspecting ==> exists|
                        given: Option<&Value>,
                        answer: Result<Value, Vec<QueryExecutionError>>,
                    |
                    #![trigger call_ensures(
                        R1::resolve_enum_values,
                        (&c.resolver, &field, &t, given),
                        answer,
                    )]
                    is_member(object, field.name@, given)
                        && call_ensures(
                            R1::resolve_enum_values,
                            (&c.resolver, &field, &t, given),
                            answer,
                        )
                        && (answer is Ok <==> result is Ok)
                        && (answer is Ok ==> answer->Ok_0 == result->Ok_0) && (
                    answer is Err ==> answer->Err_0@ == result->Err_0)
                },
                _ => result is Ok && result->Ok_0 is Null,
            }
        }),
{
    reveal_with_fuel(resolves, 2);
    let t = named_type(c.current_schema(), name@)->0->Enum_0;
    if let Some(Value::Object(object)) = object_value {
        let given = member(object, field.name@);
        assert(is_member(object, field.name@, given));
        let answer = choose|answer: Result<Value, Vec<QueryExecutionError>>| #[trigger]
            c.enums_answer(field, t, given, answer) && result == outcome(answer);
        assert(c.enums_answer(field, t, given, answer));
    }
}

/// A field whose type is a list of scalars is resolved by asking the resolver of the schema in use
/// what the parent object has under the name of the field, not under its alias, comes to. Without a
/// parent object it is null.
pub proof fn scalars_are_asked_with_the_value_of_the_parent<
    R1: Resolver,
    R2: Resolver,
    C: Coercion,
>(
    c: ContextView<R1, R2, C>,
    object_type: ObjectType,
    object_value: Option<Value>,
    field: Field,
    definition: FieldDefinition,
    name: String,
    arguments: NameMap<Value>,
    result: Outcome<Value>,
)
    requires
        resolves(
            c,
            object_type,
            object_value,
            field,
            definition,
            Type::ListType(Box::new(Type::NamedType(name))),
            arguments,
            result,
        ),
        named_type(c.current_schema(), name@) is Some,
        named_type(c.current_schema(), name@)->0 is Scalar,
    ensures
        ({
            let t = named_type(c.current_schema(), name@)->0->Scalar_0;
            match object_value {
                Some(Value::Object(object)) => {
                    &&& c.introspecting ==> exists|
                        given: Option<&Value>,
                        answer: Result<Value, Vec<QueryExecutionError>>,
                    |
                    #![trigger call_ensures(
                        R2::resolve_scalar_values,
                        (&c.introspection_resolver, &field, &t, given),
                        answer,
                    )]
                    is_member(object, field.name@, given)
                        && call_ensures(
                            R2::resolve_scalar_values,
                            (&c.introspection_resolver, &field, &t, given),
                            answer,
                        )
                        && (answer is Ok <==> result is Ok)
                        && (answer is Ok ==> answer->Ok_0 == result->Ok_0) && (
                    answer is Err ==> answer->Err_0@ == result->Err_0)
                    &&& !c.introspecting ==> exists|
                        given: Option<&Value>,
                        answer: Result<Value, Vec<QueryExecutionError>>,
                    |
                    #![trigger call_ensures(
                        R1::resolve_scalar_values,
                        (&c.resolver, &field, &t, given),
                        answer,
                    )]
                    is_member(object, field.name@, given)
                        && call_ensures(
                            R1::resolve_scalar_values,
                            (&c.resolver, &field, &t, given),
                            answer,
                        )
                        && (answer is Ok <==> result is Ok)
                        && (answer is Ok ==> answer->Ok_0 == result->Ok_0) && (
                    answer is Err ==> answer->Err_0@ == result->Err_0)
                },
                _ => result is Ok && result->Ok_0 is Null,
            }
        }),
{
    reveal_with_fuel(resolves, 2);
    let t = named_type(c.current_schema(), name@)->0->Scalar_0;
    if let Some(Value::Object(object)) = object_value {
        let given = member(object, field.name@);
        assert(is_member(object, field.name@, given));
        let answer = choose|answer: Result<Value, Vec<QueryExecutionError>>| #[trigger]
            c.scalars_answer(field, t, given, answer) && result == outcome(answer);
        assert(c.scalars_answer(field, t, given, answer));
    }
}

/// A field whose type is not defined is an error with the name of the type, as a list or not; a
/// union is not supported, as a list or not, and neither are lists of lists.
pub proof fn unsupported_types_are_refused<R1: Resolver, R2: Resolver, C: Coercion>(
    c: ContextView<R1, R2, C>,
    object_type: ObjectType,
    object_value: Option<Value>,
    field: Field,
    definition: FieldDefinition,
    name: String,
    as_list: bool,
    inner: Type,
    arguments: NameMap<Value>,
    result: Outcome<Value>,
)
    ensures
        resolves(
            c,
            object_type,
            object_value,
            field,
            definition,
            if as_list {
                Type::ListType(Box::new(Type::NamedType(name)))
            } else {
                Type::NamedType(name)
            },
            arguments,
            result,
        ) ==> {
            &&& named_type(c.current_schema(), name@) is None ==> result is Err
                && result->Err_0.len() == 1 && result->Err_0[0]
                == QueryExecutionError::NamedTypeError(name)
            &&& (named_type(c.current_schema(), name@) is Some && named_type(
                c.current_schema(),
                name@,
            )->0 is Union) ==> result is Err && result->Err_0.len() == 1
                && result->Err_0[0] is Unimplemented && result->Err_0[0]->Unimplemented_0@
                == "unions"@
            &&& named_type(c.current_schema(), name@) is Some ==> !(named_type(
                c.current_schema(),
                name@,
            )->0 is InputObject)
        },
        resolves(
            c,
            object_type,
            object_value,
            field,
            definition,
            Type::ListType(Box::new(Type::ListType(Box::new(inner)))),
            arguments,
            result,
        ) ==> result is Err && result->Err_0.len() == 1 && result->Err_0[0] is Unimplemented
            && result->Err_0[0]->Unimplemented_0@ == "nested list types"@,
{
    reveal_with_fuel(resolves, 2);
}

} // verus!
