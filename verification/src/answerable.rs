//! Where an execution can go no further, and which selections it can therefore answer.
//!
//! Input objects are never resolved, and introspection fields, which can be selected everywhere,
//! are looked up in the type at which introspection starts. What an execution asks of its caller
//! is that it never comes to a field whose type is an input object, nor to any field where
//! introspection has no such type, whatever it is answered.
use vstd::prelude::*;

use std::sync::Arc;
use std::time::Instant;

use crate::clock::clock_answer;
use crate::clock::timed_out;
use crate::coerce::Coerced;
use crate::coerce::arguments_coerced;
use crate::coerce::arguments_combined;
use crate::coerce::errors_among;
use crate::collect::collected;
use crate::context::ContextView;
use crate::error::Outcome;
use crate::field_groups::group_holds_fields_of_its_key;
use crate::merge::merged_items;
use crate::name_map::NameMap;
use crate::named::lemma_first_named;
use crate::query::Field;
use crate::query::Selection;
use crate::resolve::lemma_resolved_is_known;
use crate::resolve::resolves;
use crate::resolver::Coercion;
use crate::resolver::Resolver;
use crate::run::Completion;
use crate::run::GroupRun;
use crate::run::SetRun;
use crate::run::completes;
use crate::run::executes_group;
use crate::run::executes_set;
use crate::run::groups_of;
use crate::run::root_items;
use crate::run::selected_field;
use crate::run::set_outcome;
use crate::run::unknown_fields;
use crate::schema::FieldDefinition;
use crate::schema::ObjectType;
use crate::schema::Type;
use crate::schema::TypeDefinition;
use crate::schema::base_name;
use crate::schema::lemma_query_type_among;
use crate::schema::named_type;
use crate::schema::output_type;
use crate::schema::root_query_type;
use crate::schema::yields_output;
use crate::value::Value;

verus! {

/// A run of a selection set that can go no further.
pub struct StuckSet {
    /// The runs of the groups before.
    pub before: Seq<GroupRun>,
    /// What the clock was read as for the group at which it is stuck, if there is a deadline.
    pub reading: Option<Instant>,
    /// By how many nanoseconds the deadline had passed by that reading.
    pub overdue: u128,
    pub at: StuckGroup,
}

/// Why a run is stuck at a field group.
pub enum StuckGroup {
    /// Introspection has no type at which it starts.
    NoIntrospection,
    /// The field is stuck.
    Field(StuckField),
}

/// A run of a field that can go no further.
pub struct StuckField {
    /// What the coercion of each argument came to.
    pub answers: Seq<Coerced>,
    /// What the arguments came to together.
    pub arguments: NameMap<Value>,
    pub at: StuckResolution,
}

/// Where the run of a field is stuck.
pub enum StuckResolution {
    /// The type of the field is an input object, or a list of input objects.
    InputObject,
    /// The field was resolved into this value, whose completion is stuck.
    Value(Value, StuckValue),
}

/// A completion of a value that can go no further.
pub enum StuckValue {
    /// The type of the value is not defined, or an input object; or there are no fields to take the
    /// selections on an object from.
    Here,
    /// The completion as a value of the type without its non-null mark is stuck.
    NonNull(Box<StuckValue>),
    /// The completion of an item is stuck, behind those that were completed.
    Item(Seq<(Outcome<Value>, Completion)>, Box<StuckValue>),
    /// The execution of the selections on the object is stuck.
    Object(Box<StuckSet>),
    /// An object type was found, and there are no fields to take the selections from.
    Found(ObjectType),
    /// An object type was found, and the execution of the selections is stuck.
    Abstract(ObjectType, Box<StuckSet>),
}

/// A run of a whole query that can go no further.
pub enum StuckRoot {
    /// Introspection has no type at which it starts.
    NoIntrospection,
    /// The data fields are stuck.
    Data(StuckSet),
    /// The introspection fields are stuck, behind this run of the data fields.
    Introspection(SetRun, StuckSet),
}

/// Whether `stuck` is a run of the selections `items` on an object of type `object_type` that can
/// go no further.
pub open spec fn stuck_set<R1: Resolver, R2: Resolver, C: Coercion>(
    c: ContextView<R1, R2, C>,
    items: Seq<Selection>,
    object_type: ObjectType,
    object_value: Option<Value>,
    stuck: StuckSet,
) -> bool
    decreases stuck,
{
    let groups = groups_of(c, object_type, items);
    &&& stuck.before.len() < groups.len()
    &&& forall|i: int|
        0 <= i < stuck.before.len() ==> executes_group(
            c,
            object_type,
            object_value,
            groups[i].1,
            #[trigger] stuck.before[i],
        ) && !timed_out(c.deadline, stuck.before[i].overdue)
    &&& clock_answer(c.deadline, stuck.reading, stuck.overdue)
    &&& !timed_out(c.deadline, stuck.overdue)
    &&& stuck_group(
        c,
        object_type,
        object_value,
        groups[stuck.before.len() as int].1,
        stuck.at,
    )
}

/// Whether `stuck` is a run of the field group `fields` that can go no further.
pub open spec fn stuck_group<R1: Resolver, R2: Resolver, C: Coercion>(
    c: ContextView<R1, R2, C>,
    object_type: ObjectType,
    object_value: Option<Value>,
    fields: Seq<Arc<Field>>,
    stuck: StuckGroup,
) -> bool
    decreases stuck,
{
    match stuck {
        StuckGroup::NoIntrospection => root_query_type(c.introspection_schema) is None,
        StuckGroup::Field(field_stuck) => {
            &&& root_query_type(c.introspection_schema) is Some
            &&& match selected_field(c, object_type, fields[0].name@) {
                Some((definition, introspecting)) => stuck_field(
                    c.entering(fields[0], introspecting),
                    object_type,
                    object_value,
                    *fields[0],
                    definition,
                    fields,
                    field_stuck,
                ),
                None => false,
            }
        },
    }
}

/// Whether `stuck` is a run of the field `field` that can go no further.
pub open spec fn stuck_field<R1: Resolver, R2: Resolver, C: Coercion>(
    c: ContextView<R1, R2, C>,
    object_type: ObjectType,
    object_value: Option<Value>,
    field: Field,
    definition: FieldDefinition,
    fields: Seq<Arc<Field>>,
    stuck: StuckField,
) -> bool
    decreases stuck,
{
    &&& arguments_coerced(c, object_type, field, stuck.answers)
    &&& arguments_combined(stuck.answers, Ok(stuck.arguments))
    &&& match stuck.at {
        StuckResolution::InputObject => !output_type(c.current_schema(), definition.field_type),
        StuckResolution::Value(value, value_stuck) => {
            &&& resolves(
                c,
                object_type,
                object_value,
                field,
                definition,
                definition.field_type,
                stuck.arguments,
                Ok(value),
            )
            &&& stuck_value(c, field, definition.field_type, fields, value, value_stuck)
        },
    }
}

/// Whether `stuck` is a completion of `value` as one of type `ty` that can go no further.
pub open spec fn stuck_value<R1: Resolver, R2: Resolver, C: Coercion>(
    c: ContextView<R1, R2, C>,
    field: Field,
    ty: Type,
    fields: Seq<Arc<Field>>,
    value: Value,
    stuck: StuckValue,
) -> bool
    decreases stuck,
{
    match (ty, stuck) {
        (Type::NonNullType(inner), StuckValue::NonNull(inner_stuck)) => stuck_value(
            c,
            field,
            *inner,
            fields,
            value,
            *inner_stuck,
        ),
        (Type::ListType(inner), StuckValue::Item(before, item_stuck)) => {
            &&& value is List
            &&& before.len() < value->List_0@.len()
            &&& forall|i: int|
                0 <= i < before.len() ==> completes(
                    c,
                    field,
                    *inner,
                    fields,
                    value->List_0@[i],
                    (#[trigger] before[i]).1,
                    before[i].0,
                ) && before[i].0 is Ok
            &&& stuck_value(
                c,
                field,
                *inner,
                fields,
                value->List_0@[before.len() as int],
                *item_stuck,
            )
        },
        (Type::NamedType(name), _) => !(value is Null) && match (
            named_type(c.current_schema(), name@),
            stuck,
        ) {
            (None, StuckValue::Here) => true,
            (Some(TypeDefinition::InputObject(_)), StuckValue::Here) => true,
            (Some(TypeDefinition::Object(_)), StuckValue::Here) => fields.len() == 0,
            (Some(TypeDefinition::Object(object_type)), StuckValue::Object(set_stuck)) => {
                &&& fields.len() > 0
                &&& stuck_set(c, merged_items(fields), object_type, Some(value), *set_stuck)
            },
            (Some(abstract_type), StuckValue::Found(object_type)) => {
                &&& abstract_type is Interface || abstract_type is Union
                &&& c.abstract_answer(abstract_type, value, Some(&object_type))
                &&& fields.len() == 0
            },
            (Some(abstract_type), StuckValue::Abstract(object_type, set_stuck)) => {
                &&& abstract_type is Interface || abstract_type is Union
                &&& c.abstract_answer(abstract_type, value, Some(&object_type))
                &&& fields.len() > 0
                &&& stuck_set(c, merged_items(fields), object_type, Some(value), *set_stuck)
            },
            _ => false,
        },
        _ => false,
    }
}

/// Whether `stuck` is a run of the selections `items` of a query that can go no further, if queries
/// start at `query_type`. A query with fields that it does not have ends before it is executed.
pub open spec fn stuck_root<R1: Resolver, R2: Resolver, C: Coercion>(
    c: ContextView<R1, R2, C>,
    query_type: ObjectType,
    items: Seq<Selection>,
    initial_value: Option<Value>,
    stuck: StuckRoot,
) -> bool {
    let groups = groups_of(c, query_type, items);
    let data_items = root_items(c, query_type, groups, false);
    let introspection_items = root_items(c, query_type, groups, true);
    match stuck {
        StuckRoot::NoIntrospection => {
            &&& groups.len() > 0
            &&& root_query_type(c.introspection_schema) is None
        },
        StuckRoot::Data(set_stuck) => {
            &&& root_query_type(c.introspection_schema) is Some
            &&& unknown_fields(c, query_type, groups).len() == 0
            &&& stuck_set(c, data_items, query_type, initial_value, set_stuck)
        },
        StuckRoot::Introspection(data, set_stuck) => {
            &&& root_query_type(c.introspection_schema) is Some
            &&& unknown_fields(c, query_type, groups).len() == 0
            &&& data_items.len() > 0 ==> {
                &&& executes_set(c, data_items, query_type, initial_value, data)
                &&& set_outcome(groups_of(c, query_type, data_items), query_type, data) is Ok
            }
            &&& stuck_set(c, introspection_items, query_type, initial_value, set_stuck)
        },
    }
}

/// Whether the selections `items` on an object of type `object_type` can be answered: no run of
/// them gets stuck.
pub open spec fn set_answerable<R1: Resolver, R2: Resolver, C: Coercion>(
    c: ContextView<R1, R2, C>,
    items: Seq<Selection>,
    object_type: ObjectType,
    object_value: Option<Value>,
) -> bool {
    forall|stuck: StuckSet| !#[trigger] stuck_set(c, items, object_type, object_value, stuck)
}

/// Whether the field `field` can be answered: no run of it gets stuck.
pub open spec fn field_answerable<R1: Resolver, R2: Resolver, C: Coercion>(
    c: ContextView<R1, R2, C>,
    object_type: ObjectType,
    object_value: Option<Value>,
    field: Field,
    definition: FieldDefinition,
    fields: Seq<Arc<Field>>,
) -> bool {
    forall|stuck: StuckField|
        !#[trigger] stuck_field(c, object_type, object_value, field, definition, fields, stuck)
}

/// Whether `value` can be completed as one of type `ty`: no completion of it gets stuck.
pub open spec fn value_answerable<R1: Resolver, R2: Resolver, C: Coercion>(
    c: ContextView<R1, R2, C>,
    field: Field,
    ty: Type,
    fields: Seq<Arc<Field>>,
    value: Value,
) -> bool {
    forall|stuck: StuckValue| !#[trigger] stuck_value(c, field, ty, fields, value, stuck)
}

/// Whether the selections `items` of a query can be answered, if queries start at `query_type`: no
/// run of them gets stuck.
pub open spec fn root_answerable<R1: Resolver, R2: Resolver, C: Coercion>(
    c: ContextView<R1, R2, C>,
    query_type: ObjectType,
    items: Seq<Selection>,
    initial_value: Option<Value>,
) -> bool {
    forall|stuck: StuckRoot| !#[trigger] stuck_root(c, query_type, items, initial_value, stuck)
}

/// A query with fields that the type at which queries start does not have can be answered, whatever
/// its other fields are, if introspection has a type at which it starts.
pub proof fn query_with_unknown_fields_can_be_answered<R1: Resolver, R2: Resolver, C: Coercion>(
    c: ContextView<R1, R2, C>,
    query_type: ObjectType,
    items: Seq<Selection>,
    initial_value: Option<Value>,
)
    requires
        root_query_type(c.introspection_schema) is Some,
        unknown_fields(c, query_type, groups_of(c, query_type, items)).len() > 0,
    ensures
        root_answerable(c, query_type, items, initial_value),
{
}

/// A field whose arguments are refused can be answered, whatever its type is.
pub proof fn field_with_refused_arguments_can_be_answered<R1: Resolver, R2: Resolver, C: Coercion>(
    c: ContextView<R1, R2, C>,
    object_type: ObjectType,
    object_value: Option<Value>,
    field: Field,
    definition: FieldDefinition,
    fields: Seq<Arc<Field>>,
)
    requires
        forall|answers: Seq<Coerced>| #[trigger]
            arguments_coerced(c, object_type, field, answers) ==> errors_among(answers).len() > 0,
    ensures
        field_answerable(c, object_type, object_value, field, definition, fields),
{
}

/// A null can be completed as a value of any type.
pub proof fn null_can_be_completed<R1: Resolver, R2: Resolver, C: Coercion>(
    c: ContextView<R1, R2, C>,
    field: Field,
    ty: Type,
    fields: Seq<Arc<Field>>,
)
    ensures
        value_answerable(c, field, ty, fields, Value::Null),
    decreases ty,
{
    if let Type::NonNullType(inner) = ty {
        null_can_be_completed(c, field, *inner, fields);
        assert forall|stuck: StuckValue|
            !#[trigger] stuck_value(c, field, ty, fields, Value::Null, stuck) by {
            if let StuckValue::NonNull(inner_stuck) = stuck {
                assert(!stuck_value(c, field, *inner, fields, Value::Null, *inner_stuck));
            }
        }
    }
}

/// Where introspection has a type at which it starts, and no field of any object type has an input
/// object as its type, all selections can be answered.
pub proof fn well_formed_schemas_answer_everything<R1: Resolver, R2: Resolver, C: Coercion>(
    c: ContextView<R1, R2, C>,
    object_type: ObjectType,
    items: Seq<Selection>,
    object_value: Option<Value>,
)
    requires
        c.well_formed(),
        yields_output(c.current_schema(), object_type),
    ensures
        set_answerable(c, items, object_type, object_value),
        root_answerable(c, object_type, items, object_value),
{
    assert forall|any_items: Seq<Selection>, stuck: StuckSet|
        !#[trigger] stuck_set(c, any_items, object_type, object_value, stuck) by {
        lemma_never_stuck(c, any_items, object_type, object_value, stuck);
    }
}

/// The same of one run.
proof fn lemma_never_stuck<R1: Resolver, R2: Resolver, C: Coercion>(
    c: ContextView<R1, R2, C>,
    items: Seq<Selection>,
    object_type: ObjectType,
    object_value: Option<Value>,
    stuck: StuckSet,
)
    requires
        c.well_formed(),
        yields_output(c.current_schema(), object_type),
    ensures
        !stuck_set(c, items, object_type, object_value, stuck),
    decreases stuck,
{
    if stuck_set(c, items, object_type, object_value, stuck) {
        let i = stuck.before.len() as int;
        let fields = groups_of(c, object_type, items)[i].1;
        group_holds_fields_of_its_key(
            collected(
                c.document,
                c.current_schema(),
                c.variable_values@,
                object_type,
                items,
                Set::empty(),
            ),
            i,
        );
        lemma_selected_field_yields_output(c, object_type, fields[0]);
        let (definition, introspecting) = selected_field(c, object_type, fields[0].name@)->0;
        let inner = c.entering(fields[0], introspecting);
        let field_stuck = stuck.at->Field_0;
        if let StuckResolution::Value(value, value_stuck) = field_stuck.at {
            lemma_resolved_is_known(
                inner,
                object_type,
                object_value,
                first_of(fields),
                definition,
                definition.field_type,
                field_stuck.arguments,
                value,
            );
            lemma_value_never_stuck(
                inner,
                first_of(fields),
                definition.field_type,
                fields,
                value,
                value_stuck,
            );
        }
    }
}

/// The first of `fields`.
spec fn first_of(fields: Seq<Arc<Field>>) -> Field {
    *fields[0]
}

/// The same of the completion of a value.
proof fn lemma_value_never_stuck<R1: Resolver, R2: Resolver, C: Coercion>(
    c: ContextView<R1, R2, C>,
    field: Field,
    ty: Type,
    fields: Seq<Arc<Field>>,
    value: Value,
    stuck: StuckValue,
)
    requires
        c.well_formed(),
        fields.len() > 0,
        named_type(c.current_schema(), base_name(ty)) is Some,
        !(named_type(c.current_schema(), base_name(ty))->0 is InputObject),
    ensures
        !stuck_value(c, field, ty, fields, value, stuck),
    decreases stuck,
{
    if stuck_value(c, field, ty, fields, value, stuck) {
        match (ty, stuck) {
            (Type::NonNullType(inner), StuckValue::NonNull(inner_stuck)) => {
                lemma_value_never_stuck(c, field, *inner, fields, value, *inner_stuck);
            },
            (Type::ListType(inner), StuckValue::Item(before, item_stuck)) => {
                lemma_value_never_stuck(
                    c,
                    field,
                    *inner,
                    fields,
                    value->List_0@[before.len() as int],
                    *item_stuck,
                );
            },
            (Type::NamedType(name), StuckValue::Object(set_stuck)) => {
                let schema = c.current_schema();
                let place = lemma_first_named(schema.types@, name@);
                let object_type = schema.types@[place]->Object_0;
                lemma_never_stuck(
                    c,
                    merged_items(fields),
                    object_type,
                    Some(value),
                    *set_stuck,
                );
            },
            (Type::NamedType(_), StuckValue::Abstract(object_type, set_stuck)) => {
                lemma_never_stuck(
                    c,
                    merged_items(fields),
                    object_type,
                    Some(value),
                    *set_stuck,
                );
            },
            _ => {},
        }
    }
}

/// The type of a field that can be selected is one whose values can be resolved.
proof fn lemma_selected_field_yields_output<R1: Resolver, R2: Resolver, C: Coercion>(
    c: ContextView<R1, R2, C>,
    object_type: ObjectType,
    field: Arc<Field>,
)
    requires
        c.well_formed(),
        yields_output(c.current_schema(), object_type),
    ensures
        selected_field(c, object_type, field.name@) matches Some((definition, introspecting))
            ==> output_type(
            c.entering(field, introspecting).current_schema(),
            definition.field_type,
        ),
{
    let root = root_query_type(c.introspection_schema)->0;
    let i = lemma_query_type_among(c.introspection_schema.types@);
    assert(c.introspection_schema.types@[i]->Object_0 == root);
    let j = lemma_first_named(root.fields@, field.name@);
    let k = lemma_first_named(object_type.fields@, field.name@);
}

} // verus!
