//! Which fields of a selection set are executed.
use vstd::prelude::*;

use std::sync::Arc;

use crate::context::ExecutionContext;
use crate::field_groups::FieldGroups;
use crate::field_groups::add_field;
use crate::field_groups::add_groups;
use crate::field_groups::field_groups;
use crate::field_groups::grouped;
use crate::field_groups::no_groups;
use crate::name_set::NameSet;
use crate::name_set::contains_name;
use crate::name_set::holds_name;
use crate::named::Named;
use crate::named::Same;
use crate::named::first_named;
use crate::named::lemma_first_named;
use crate::query::Document;
use crate::query::Field;
use crate::query::FragmentDefinition;
use crate::query::Selection;
use crate::query::SelectionSet;
use crate::query::TypeCondition;
use crate::query::active;
use crate::query::get_fragment;
use crate::query::get_response_key;
use crate::query::include_selection;
use crate::query::share;
use crate::query::skip_selection;
use crate::resolver::Coercion;
use crate::resolver::Resolver;
use crate::schema::ObjectType;
use crate::schema::SchemaDocument;
use crate::schema::TypeDefinition;
use crate::schema::get_named_type;
use crate::schema::named_type;
use crate::value::Value;

verus! {

/// Whether a fragment for the type `fragment_type` applies to `object_type`: if it is that object
/// type, an interface that the object type implements, or a union that the object type belongs to.
pub open spec fn fragment_applies(
    schema: SchemaDocument,
    object_type: ObjectType,
    fragment_type: TypeCondition,
) -> bool {
    match named_type(schema, fragment_type->On_0@) {
        Some(TypeDefinition::Object(t)) => object_type.equals(&t),
        Some(TypeDefinition::Interface(t)) => holds_name(
            object_type.implements_interfaces@,
            t.name@,
        ),
        Some(TypeDefinition::Union(t)) => holds_name(t.types@, object_type.name@),
        _ => false,
    }
}

/// Determines whether a fragment is applicable to the given object type.
pub fn does_fragment_type_apply<'a, R1, R2, C>(
    ctx: ExecutionContext<'a, R1, R2, C>,
    object_type: &ObjectType,
    fragment_type: &TypeCondition,
) -> (applies: bool) where R1: Resolver, R2: Resolver, C: Coercion
    ensures
        applies == fragment_applies(ctx@.current_schema(), *object_type, *fragment_type),
{
    let TypeCondition::On(name) = fragment_type;

    // Resolve the type the fragment applies to based on its name
    match get_named_type(ctx.get_schema(), name) {
        // The fragment applies to the object type if its type is the same object type
        Some(TypeDefinition::Object(t)) => object_type.same(t),
        // The fragment also applies to the object type if its type is an interface
        // that the object type implements
        Some(TypeDefinition::Interface(t)) => contains_name(
            &object_type.implements_interfaces,
            &t.name,
        ),
        // The fragment also applies to an object type if its type is a union that
        // the object type is one of the possible types for
        Some(TypeDefinition::Union(t)) => contains_name(&t.types, &object_type.name),
        // In all other cases, the fragment does not apply
        _ => false,
    }
}

/// How many of `fragments` have a name that is not in `visited`.
pub open spec fn unvisited(
    fragments: Seq<FragmentDefinition>,
    visited: Set<Seq<char>>,
) -> nat
    decreases fragments.len(),
{
    if fragments.len() == 0 {
        0
    } else {
        unvisited(fragments.drop_last(), visited) + (if visited.contains(fragments.last().name@) {
            0nat
        } else {
            1nat
        })
    }
}

/// Visiting a name leaves no more to visit, and less if it is that of a fragment not visited yet.
pub proof fn lemma_unvisited_insert(
    fragments: Seq<FragmentDefinition>,
    visited: Set<Seq<char>>,
    name: Seq<char>,
)
    ensures
        unvisited(fragments, visited.insert(name)) <= unvisited(fragments, visited),
        !visited.contains(name) && first_named(fragments, name) is Some ==> unvisited(
            fragments,
            visited.insert(name),
        ) < unvisited(fragments, visited),
    decreases fragments.len(),
{
    if fragments.len() > 0 {
        let rest = fragments.drop_last();
        lemma_unvisited_insert(rest, visited, name);
        if first_named(fragments, name) is Some && fragments.last().name@ != name {
            let i = lemma_first_named(fragments, name);
            assert(rest[i].called() == name) by {
                assert(rest[i] == fragments[i]);
            }
            let j = lemma_first_named(rest, name);
        }
    }
}

/// The fields that `items` select on `object_type`, in the order in which they come up. A
/// selection that is skipped, or not included, selects nothing. A fragment spread selects what its
/// fragment does, provided that the fragment exists and applies to the object type, and that no
/// spread of that fragment came before: none of those in `visited`, and none among the selections
/// before it. Inline fragments select nothing.
pub open spec fn collected(
    document: Document,
    schema: SchemaDocument,
    variables: Map<Seq<char>, Value>,
    object_type: ObjectType,
    items: Seq<Selection>,
    visited: Set<Seq<char>>,
) -> Seq<Arc<Field>>
    decreases unvisited(document.fragments@, visited), items.len(),
{
    if items.len() == 0 {
        Seq::empty()
    } else if !active(items[0], variables) {
        collected(document, schema, variables, object_type, items.drop_first(), visited)
    } else {
        match items[0] {
            Selection::Field(field) => seq![field] + collected(
                document,
                schema,
                variables,
                object_type,
                items.drop_first(),
                visited,
            ),
            Selection::FragmentSpread(spread) => {
                let name = spread.fragment_name@;
                proof {
                    lemma_unvisited_insert(document.fragments@, visited, name);
                }
                if visited.contains(name) {
                    collected(document, schema, variables, object_type, items.drop_first(), visited)
                } else {
                    let of_fragment = match first_named(document.fragments@, name) {
                        Some(fragment) => if fragment_applies(
                            schema,
                            object_type,
                            fragment.type_condition,
                        ) {
                            collected(
                                document,
                                schema,
                                variables,
                                object_type,
                                fragment.selection_set.items@,
                                visited.insert(name),
                            )
                        } else {
                            Seq::empty()
                        },
                        None => Seq::empty(),
                    };
                    of_fragment + collected(
                        document,
                        schema,
                        variables,
                        object_type,
                        items.drop_first(),
                        visited.insert(name),
                    )
                }
            },
            Selection::InlineFragment(_) => collected(
                document,
                schema,
                variables,
                object_type,
                items.drop_first(),
                visited,
            ),
        }
    }
}

/// The fragments that have been visited, if any.
pub open spec fn visited_names(visited: Option<NameSet>) -> Set<Seq<char>> {
    match visited {
        Some(names) => names@,
        None => Set::empty(),
    }
}

/// Collects fields of a selection set.
pub fn collect_fields<'a, R1, R2, C>(
    ctx: ExecutionContext<'a, R1, R2, C>,
    object_type: &ObjectType,
    selection_set: &SelectionSet,
    visited_fragments: Option<NameSet>,
) -> (groups: FieldGroups) where R1: Resolver, R2: Resolver, C: Coercion
    ensures
        field_groups(groups) == grouped(
            collected(
                ctx@.document,
                ctx@.current_schema(),
                ctx@.variable_values@,
                *object_type,
                selection_set.items@,
                visited_names(visited_fragments),
            ),
        ),
    decreases unvisited(ctx.document.fragments@, visited_names(visited_fragments)),
{
    let ghost visited_before = visited_names(visited_fragments);
    let mut visited = match visited_fragments {
        Some(names) => names,
        None => NameSet::new(),
    };
    let mut grouped_fields = no_groups();
    let ghost mut done: Seq<Arc<Field>> = Seq::empty();
    let ghost all = collected(
        *ctx.document,
        ctx@.current_schema(),
        ctx@.variable_values@,
        *object_type,
        selection_set.items@,
        visited_before,
    );

    let items = &selection_set.items;
    let mut i: usize = 0;
    proof {
        assert(items@.skip(0) =~= items@);
        assert(done + all =~= all);
        assert(grouped(done) =~= Seq::empty());
    }
    while i < items.len()
        invariant
            i <= items@.len(),
            items@ == selection_set.items@,
            field_groups(grouped_fields) == grouped(done),
            visited_before == visited_names(visited_fragments),
            unvisited(ctx.document.fragments@, visited@) <= unvisited(
                ctx.document.fragments@,
                visited_before,
            ),
            all == done + collected(
                *ctx.document,
                ctx@.current_schema(),
                ctx@.variable_values@,
                *object_type,
                items@.skip(i as int),
                visited@,
            ),
        decreases items@.len() - i,
    {
        let selection = &items[i];
        let ghost rest = items@.skip(i as int);
        let ghost before = done;
        i += 1;
        assert(rest.drop_first() =~= items@.skip(i as int));
        assert(rest[0] == *selection);

        // Only consider selections that are not skipped and should be included
        if skip_selection(selection, &ctx.variable_values) || !include_selection(
            selection,
            &ctx.variable_values,
        ) {
            continue;
        }
        match selection {
            Selection::Field(field) => {
                // Create a field group for this response key on demand and
                // append the selection field to this group.
                let key = get_response_key(field).clone();
                add_field(&mut grouped_fields, share(field), key, Ghost(done));
                proof {
                    done = done.push(*field);
                    let after = collected(
                        *ctx.document,
                        ctx@.current_schema(),
                        ctx@.variable_values@,
                        *object_type,
                        items@.skip(i as int),
                        visited@,
                    );
                    assert(before + (seq![*field] + after) =~= done + after);
                }
            },
            Selection::FragmentSpread(spread) => {
                // Only consider the fragment if it hasn't already been included,
                // as would be the case if the same fragment spread ...Foo appeared
                // twice in the same selection set
                if !visited.contains(&spread.fragment_name) {
                    let ghost names = visited@;
                    proof {
                        lemma_unvisited_insert(
                            ctx.document.fragments@,
                            names,
                            spread.fragment_name@,
                        );
                    }
                    visited.insert(spread.fragment_name.clone());
                    let ghost after = collected(
                        *ctx.document,
                        ctx@.current_schema(),
                        ctx@.variable_values@,
                        *object_type,
                        items@.skip(i as int),
                        visited@,
                    );

                    // Resolve the fragment using its name and, if it applies, collect
                    // fields for the fragment and group them
                    if let Some(fragment) = get_fragment(ctx.document, &spread.fragment_name) {
                        if does_fragment_type_apply(
                            ctx.clone(),
                            object_type,
                            &fragment.type_condition,
                        ) {
                            // We have a fragment that applies to the current object type,
                            // collect its fields into response key groups
                            let of_fragment = collect_fields(
                                ctx.clone(),
                                object_type,
                                &fragment.selection_set,
                                Some(visited.clone()),
                            );
                            let ghost added = collected(
                                *ctx.document,
                                ctx@.current_schema(),
                                ctx@.variable_values@,
                                *object_type,
                                fragment.selection_set.items@,
                                visited@,
                            );

                            // Add all items from each fragments group to the field group
                            // with the corresponding response key
                            add_groups(
                                &mut grouped_fields,
                                of_fragment,
                                Ghost(done),
                                Ghost(added),
                            );
                            proof {
                                done = done + added;
                                assert(before + (added + after) =~= done + after);
                            }
                        }
                    }
                    proof {
                        assert(Seq::<Arc<Field>>::empty() + after =~= after);
                    }
                }
            },
            // Inline fragments select nothing
            Selection::InlineFragment(_) => {},
        }
    }
    assert(done + Seq::<Arc<Field>>::empty() =~= done);
    grouped_fields
}

} // verus!
