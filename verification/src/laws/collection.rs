//! What holds of the fields that are collected.
use vstd::prelude::*;

use std::sync::Arc;

use crate::collect::collected;
use crate::collect::fragment_applies;
use crate::collect::lemma_unvisited_insert;
use crate::collect::unvisited;
use crate::named::Same;
use crate::named::first_named;
use crate::query::Document;
use crate::query::Field;
use crate::query::FragmentDefinition;
use crate::query::Selection;
use crate::query::TypeCondition;
use crate::query::active;
use crate::run::as_selections;
use crate::schema::InterfaceType;
use crate::schema::ObjectType;
use crate::schema::SchemaDocument;
use crate::schema::TypeDefinition;
use crate::schema::UnionType;
use crate::schema::named_type;
use crate::value::Value;

verus! {

/// The fragments that have been visited behind the selections `items`: those in `visited`, and
/// those that a spread among the selections names which is not skipped.
pub open spec fn visited_after(
    variables: Map<Seq<char>, Value>,
    items: Seq<Selection>,
    visited: Set<Seq<char>>,
) -> Set<Seq<char>>
    decreases items.len(),
{
    if items.len() == 0 {
        visited
    } else {
        visited_after(
            variables,
            items.drop_first(),
            match items[0] {
                Selection::FragmentSpread(spread) => if active(items[0], variables) {
                    visited.insert(spread.fragment_name@)
                } else {
                    visited
                },
                _ => visited,
            },
        )
    }
}

/// A selection set selects what its first part does, and then what its second part does, for which
/// the fragments of the first part count as visited.
pub proof fn parts_are_collected_in_order(
    document: Document,
    schema: SchemaDocument,
    variables: Map<Seq<char>, Value>,
    object_type: ObjectType,
    first: Seq<Selection>,
    second: Seq<Selection>,
    visited: Set<Seq<char>>,
)
    ensures
        collected(document, schema, variables, object_type, first + second, visited) == collected(
            document,
            schema,
            variables,
            object_type,
            first,
            visited,
        ) + collected(
            document,
            schema,
            variables,
            object_type,
            second,
            visited_after(variables, first, visited),
        ),
    decreases first.len(),
{
    let both = first + second;
    if first.len() == 0 {
        assert(both =~= second);
        assert(collected(document, schema, variables, object_type, first, visited) + collected(
            document,
            schema,
            variables,
            object_type,
            second,
            visited,
        ) =~= collected(document, schema, variables, object_type, second, visited));
    } else {
        let rest = first.drop_first();
        assert(both.drop_first() =~= rest + second);
        assert(both[0] == first[0]);
        let next = match first[0] {
            Selection::FragmentSpread(spread) => if active(first[0], variables) {
                visited.insert(spread.fragment_name@)
            } else {
                visited
            },
            _ => visited,
        };
        parts_are_collected_in_order(
            document,
            schema,
            variables,
            object_type,
            rest,
            second,
            next,
        );
        let tail = collected(document, schema, variables, object_type, second, visited_after(
            variables,
            rest,
            next,
        ));
        if let Selection::FragmentSpread(spread) = first[0] {
            if visited.contains(spread.fragment_name@) {
                assert(visited.insert(spread.fragment_name@) =~= visited);
            }
        }
        let whole = collected(document, schema, variables, object_type, both, visited);
        let front = collected(document, schema, variables, object_type, first, visited);
        assert(whole =~= front + tail);
    }
}

/// A spread of a fragment that has been visited selects nothing.
pub proof fn visited_fragment_selects_nothing(
    document: Document,
    schema: SchemaDocument,
    variables: Map<Seq<char>, Value>,
    object_type: ObjectType,
    selection: Selection,
    visited: Set<Seq<char>>,
)
    requires
        selection is FragmentSpread,
        visited.contains(selection->FragmentSpread_0.fragment_name@),
    ensures
        collected(document, schema, variables, object_type, seq![selection], visited) == Seq::<
            Arc<Field>,
        >::empty(),
{
    assert(seq![selection].drop_first() =~= Seq::empty());
    reveal_with_fuel(collected, 2);
}

/// A spread of a fragment that does not exist, or does not apply to the object type, selects
/// nothing.
pub proof fn fragment_that_does_not_apply_selects_nothing(
    document: Document,
    schema: SchemaDocument,
    variables: Map<Seq<char>, Value>,
    object_type: ObjectType,
    selection: Selection,
    visited: Set<Seq<char>>,
)
    requires
        selection is FragmentSpread,
        first_named(
            document.fragments@,
            selection->FragmentSpread_0.fragment_name@,
        ) matches Some(fragment) ==> !fragment_applies(
            schema,
            object_type,
            fragment.type_condition,
        ),
    ensures
        collected(document, schema, variables, object_type, seq![selection], visited) == Seq::<
            Arc<Field>,
        >::empty(),
{
    assert(seq![selection].drop_first() =~= Seq::empty());
    reveal_with_fuel(collected, 2);
    assert(Seq::<Arc<Field>>::empty() + Seq::<Arc<Field>>::empty() =~= Seq::empty());
}

/// What is visited stays visited.
proof fn lemma_visited_grows(
    variables: Map<Seq<char>, Value>,
    items: Seq<Selection>,
    visited: Set<Seq<char>>,
    name: Seq<char>,
)
    requires
        visited.contains(name),
    ensures
        visited_after(variables, items, visited).contains(name),
    decreases items.len(),
{
    if items.len() > 0 {
        let next = match items[0] {
            Selection::FragmentSpread(spread) => if active(items[0], variables) {
                visited.insert(spread.fragment_name@)
            } else {
                visited
            },
            _ => visited,
        };
        lemma_visited_grows(variables, items.drop_first(), next, name);
    }
}

/// A fragment that is spread among `items`, and not skipped, is visited behind them.
proof fn lemma_spread_is_visited(
    variables: Map<Seq<char>, Value>,
    items: Seq<Selection>,
    visited: Set<Seq<char>>,
    i: int,
)
    requires
        0 <= i < items.len(),
        items[i] is FragmentSpread,
        active(items[i], variables),
    ensures
        visited_after(variables, items, visited).contains(
            items[i]->FragmentSpread_0.fragment_name@,
        ),
    decreases items.len(),
{
    let next = match items[0] {
        Selection::FragmentSpread(spread) => if active(items[0], variables) {
            visited.insert(spread.fragment_name@)
        } else {
            visited
        },
        _ => visited,
    };
    if i == 0 {
        lemma_visited_grows(
            variables,
            items.drop_first(),
            next,
            items[0]->FragmentSpread_0.fragment_name@,
        );
    } else {
        lemma_spread_is_visited(variables, items.drop_first(), next, i - 1);
    }
}

/// If the same fragment is spread twice in a selection set, the second spread adds nothing.
pub proof fn repeated_spread_adds_nothing(
    document: Document,
    schema: SchemaDocument,
    variables: Map<Seq<char>, Value>,
    object_type: ObjectType,
    items: Seq<Selection>,
    visited: Set<Seq<char>>,
    i: int,
    j: int,
)
    requires
        0 <= i < j < items.len(),
        items[i] is FragmentSpread,
        items[j] is FragmentSpread,
        items[i]->FragmentSpread_0.fragment_name@ == items[j]->FragmentSpread_0.fragment_name@,
        active(items[i], variables),
    ensures
        collected(document, schema, variables, object_type, items, visited) == collected(
            document,
            schema,
            variables,
            object_type,
            items.remove(j),
            visited,
        ),
{
    let first = items.take(j);
    let spread = seq![items[j]];
    let rest = items.skip(j + 1);
    let seen = visited_after(variables, first, visited);
    assert(first[i] == items[i]);
    lemma_spread_is_visited(variables, first, visited, i);
    assert(items =~= first + (spread + rest));
    assert(items.remove(j) =~= first + rest);
    parts_are_collected_in_order(
        document,
        schema,
        variables,
        object_type,
        first,
        spread + rest,
        visited,
    );
    parts_are_collected_in_order(document, schema, variables, object_type, first, rest, visited);
    assert((spread + rest).drop_first() =~= rest);
    assert((spread + rest)[0] == items[j]);
}

/// Selections that select nothing might as well not be there.
proof fn lemma_filtered(
    document: Document,
    schema: SchemaDocument,
    variables: Map<Seq<char>, Value>,
    object_type: ObjectType,
    items: Seq<Selection>,
    visited: Set<Seq<char>>,
    kept: spec_fn(Selection) -> bool,
)
    requires
        forall|selection: Selection|
            !#[trigger] kept(selection) ==> selection is InlineFragment || !active(
                selection,
                variables,
            ),
    ensures
        collected(document, schema, variables, object_type, items, visited) == collected(
            document,
            schema,
            variables,
            object_type,
            items.filter(kept),
            visited,
        ),
    decreases items.len(),
{
    if items.len() == 0 {
        reveal(Seq::filter);
        assert(items.filter(kept) =~= items);
    } else {
        let rest = items.drop_first();
        let next = match items[0] {
            Selection::FragmentSpread(spread) => visited.insert(spread.fragment_name@),
            _ => visited,
        };
        lemma_filtered(document, schema, variables, object_type, rest, visited, kept);
        lemma_filtered(document, schema, variables, object_type, rest, next, kept);
        assert(items =~= seq![items[0]] + rest);
        Seq::filter_distributes_over_add(seq![items[0]], rest, kept);
        assert(seq![items[0]].filter(kept) =~= if kept(items[0]) {
            seq![items[0]]
        } else {
            Seq::empty()
        }) by {
            assert(seq![items[0]].drop_last() =~= Seq::empty());
            reveal_with_fuel(Seq::filter, 2);
        }
        if kept(items[0]) {
            assert(items.filter(kept).drop_first() =~= rest.filter(kept));
            assert(items.filter(kept)[0] == items[0]);
        } else {
            assert(items.filter(kept) =~= rest.filter(kept));
        }
    }
}

/// Selections that are skipped, or not included, select nothing: they might as well not be there.
pub proof fn inactive_selections_select_nothing(
    document: Document,
    schema: SchemaDocument,
    variables: Map<Seq<char>, Value>,
    object_type: ObjectType,
    items: Seq<Selection>,
    visited: Set<Seq<char>>,
)
    ensures
        collected(document, schema, variables, object_type, items, visited) == collected(
            document,
            schema,
            variables,
            object_type,
            items.filter(|selection: Selection| active(selection, variables)),
            visited,
        ),
{
    lemma_filtered(
        document,
        schema,
        variables,
        object_type,
        items,
        visited,
        |selection: Selection| active(selection, variables),
    );
}

/// Inline fragments select nothing: they might as well not be there.
pub proof fn inline_fragments_select_nothing(
    document: Document,
    schema: SchemaDocument,
    variables: Map<Seq<char>, Value>,
    object_type: ObjectType,
    items: Seq<Selection>,
    visited: Set<Seq<char>>,
)
    ensures
        collected(document, schema, variables, object_type, items, visited) == collected(
            document,
            schema,
            variables,
            object_type,
            items.filter(|selection: Selection| !(selection is InlineFragment)),
            visited,
        ),
{
    lemma_filtered(
        document,
        schema,
        variables,
        object_type,
        items,
        visited,
        |selection: Selection| !(selection is InlineFragment),
    );
}

/// Where only fields are selected, and none is skipped or left out, they are what is collected.
pub proof fn fields_select_themselves(
    document: Document,
    schema: SchemaDocument,
    variables: Map<Seq<char>, Value>,
    object_type: ObjectType,
    fields: Seq<Arc<Field>>,
    visited: Set<Seq<char>>,
)
    requires
        forall|i: int|
            0 <= i < fields.len() ==> active(Selection::Field(#[trigger] fields[i]), variables),
    ensures
        collected(document, schema, variables, object_type, as_selections(fields), visited)
            == fields,
    decreases fields.len(),
{
    if fields.len() > 0 {
        let rest = fields.drop_first();
        assert forall|i: int| 0 <= i < rest.len() implies active(
            Selection::Field(#[trigger] rest[i]),
            variables,
        ) by {
            assert(rest[i] == fields[i + 1]);
        }
        fields_select_themselves(document, schema, variables, object_type, rest, visited);
        assert(as_selections(fields).drop_first() =~= as_selections(rest));
        assert(as_selections(fields)[0] == Selection::Field(fields[0]));
        assert(seq![fields[0]] + rest =~= fields);
    } else {
        assert(collected(document, schema, variables, object_type, as_selections(fields), visited)
            =~= fields);
    }
}

/// Every field that is collected is neither skipped nor left out.
pub proof fn collected_fields_are_active(
    document: Document,
    schema: SchemaDocument,
    variables: Map<Seq<char>, Value>,
    object_type: ObjectType,
    items: Seq<Selection>,
    visited: Set<Seq<char>>,
    i: int,
)
    requires
        0 <= i < collected(document, schema, variables, object_type, items, visited).len(),
    ensures
        active(
            Selection::Field(
                collected(document, schema, variables, object_type, items, visited)[i],
            ),
            variables,
        ),
    decreases unvisited(document.fragments@, visited), items.len(),
{
    let rest = items.drop_first();
    if !active(items[0], variables) {
        collected_fields_are_active(document, schema, variables, object_type, rest, visited, i);
    } else {
        match items[0] {
            Selection::Field(_) => {
                if i > 0 {
                    collected_fields_are_active(
                        document,
                        schema,
                        variables,
                        object_type,
                        rest,
                        visited,
                        i - 1,
                    );
                }
            },
            Selection::FragmentSpread(spread) => {
                let name = spread.fragment_name@;
                lemma_unvisited_insert(document.fragments@, visited, name);
                if visited.contains(name) {
                    collected_fields_are_active(
                        document,
                        schema,
                        variables,
                        object_type,
                        rest,
                        visited,
                        i,
                    );
                } else {
                    let next = visited.insert(name);
                    let of_fragment = match first_named(document.fragments@, name) {
                        Some(fragment) => if fragment_applies(
                            schema,
                            object_type,
                            fragment.type_condition,
                        ) {
                            collected(
                                document,
                                schema,
                                variables,
                                object_type,
                                fragment.selection_set.items@,
                                next,
                            )
                        } else {
                            Seq::empty()
                        },
                        None => Seq::empty(),
                    };
                    if i < of_fragment.len() {
                        collected_fields_are_active(
                            document,
                            schema,
                            variables,
                            object_type,
                            first_named(document.fragments@, name)->0.selection_set.items@,
                            next,
                            i,
                        );
                    } else {
                        collected_fields_are_active(
                            document,
                            schema,
                            variables,
                            object_type,
                            rest,
                            next,
                            i - of_fragment.len(),
                        );
                    }
                }
            },
            Selection::InlineFragment(_) => {
                collected_fields_are_active(
                    document,
                    schema,
                    variables,
                    object_type,
                    rest,
                    visited,
                    i,
                );
            },
        }
    }
}

/// A fragment on an interface applies to an object type if and only if some entry of the
/// interfaces that the object type implements, at whatever place, is the name of the interface.
pub proof fn fragment_on_an_interface_applies_by_any_entry(
    schema: SchemaDocument,
    object_type: ObjectType,
    name: String,
    interface: InterfaceType,
)
    requires
        named_type(schema, name@) == Some(TypeDefinition::Interface(interface)),
    ensures
        fragment_applies(schema, object_type, TypeCondition::On(name)) <==> exists|i: int|
            0 <= i < object_type.implements_interfaces@.len()
                && #[trigger] object_type.implements_interfaces@[i]@ == interface.name@,
{
}

/// Whether a fragment on an interface applies does not change with the order in which an object
/// type lists its interfaces, nor with anything else of the object type.
pub proof fn order_of_interfaces_does_not_matter(
    schema: SchemaDocument,
    object_type: ObjectType,
    other: ObjectType,
    name: String,
)
    requires
        named_type(schema, name@) is Some,
        named_type(schema, name@)->0 is Interface,
        object_type.implements_interfaces@.map_values(|entry: String| entry@).to_multiset()
            == other.implements_interfaces@.map_values(|entry: String| entry@).to_multiset(),
    ensures
        fragment_applies(schema, object_type, TypeCondition::On(name)) == fragment_applies(
            schema,
            other,
            TypeCondition::On(name),
        ),
{
    let interface = named_type(schema, name@)->0->Interface_0;
    fragment_on_an_interface_applies_by_any_entry(schema, object_type, name, interface);
    fragment_on_an_interface_applies_by_any_entry(schema, other, name, interface);
    if fragment_applies(schema, object_type, TypeCondition::On(name)) {
        lemma_entry_of_another_order(object_type, other, interface.name@);
    }
    if fragment_applies(schema, other, TypeCondition::On(name)) {
        lemma_entry_of_another_order(other, object_type, interface.name@);
    }
}

/// What one object type lists among its interfaces, another that lists them in another order lists
/// too.
proof fn lemma_entry_of_another_order(object_type: ObjectType, other: ObjectType, name: Seq<char>)
    requires
        object_type.implements_interfaces@.map_values(|entry: String| entry@).to_multiset()
            == other.implements_interfaces@.map_values(|entry: String| entry@).to_multiset(),
        exists|i: int|
            0 <= i < object_type.implements_interfaces@.len()
                && #[trigger] object_type.implements_interfaces@[i]@ == name,
    ensures
        exists|i: int|
            0 <= i < other.implements_interfaces@.len()
                && #[trigger] other.implements_interfaces@[i]@ == name,
{
    broadcast use vstd::seq_lib::group_to_multiset_ensures;

    let names = object_type.implements_interfaces@.map_values(|entry: String| entry@);
    let others = other.implements_interfaces@.map_values(|entry: String| entry@);
    let i = choose|i: int|
        0 <= i < object_type.implements_interfaces@.len()
            && #[trigger] object_type.implements_interfaces@[i]@ == name;
    assert(names[i] == name);
    assert(names.contains(name));
    assert(names.to_multiset().count(name) > 0);
    assert(others.contains(name));
    let j = others.index_of(name);
    assert(other.implements_interfaces@[j]@ == name);
}

/// A fragment on a union applies to an object type if and only if some entry of the union, at
/// whatever place, is the name of the object type.
pub proof fn fragment_on_a_union_applies_by_any_entry(
    schema: SchemaDocument,
    object_type: ObjectType,
    name: String,
    union_type: UnionType,
)
    requires
        named_type(schema, name@) == Some(TypeDefinition::Union(union_type)),
    ensures
        fragment_applies(schema, object_type, TypeCondition::On(name)) <==> exists|i: int|
            0 <= i < union_type.types@.len() && #[trigger] union_type.types@[i]@
                == object_type.name@,
{
}

/// A fragment on an object type applies to the object types that equal it, and to no others; these
/// have its name, its place in the document, as many interfaces and fields, and under the same
/// names.
pub proof fn fragment_on_an_object_type_applies_to_it_alone(
    schema: SchemaDocument,
    object_type: ObjectType,
    name: String,
    condition: ObjectType,
)
    requires
        named_type(schema, name@) == Some(TypeDefinition::Object(condition)),
    ensures
        fragment_applies(schema, object_type, TypeCondition::On(name)) <==> object_type.equals(
            &condition,
        ),
        fragment_applies(schema, object_type, TypeCondition::On(name)) ==> {
            &&& object_type.name@ == condition.name@
            &&& object_type.position == condition.position
            &&& object_type.implements_interfaces@.len() == condition.implements_interfaces@.len()
            &&& forall|i: int|
                0 <= i < object_type.implements_interfaces@.len()
                    ==> #[trigger] object_type.implements_interfaces@[i]@
                    == condition.implements_interfaces@[i]@
            &&& object_type.fields@.len() == condition.fields@.len()
            &&& forall|i: int|
                0 <= i < object_type.fields@.len() ==> (#[trigger] object_type.fields@[i]).name@
                    == condition.fields@[i].name@
        },
{
}

/// A fragment on a type that the schema does not define, or on a scalar, an enum or an input
/// object, applies to nothing.
pub proof fn fragment_on_another_type_never_applies(
    schema: SchemaDocument,
    object_type: ObjectType,
    name: String,
)
    requires
        match named_type(schema, name@) {
            None => true,
            Some(t) => t is Scalar || t is Enum || t is InputObject,
        },
    ensures
        !fragment_applies(schema, object_type, TypeCondition::On(name)),
{
}

/// A spread that is neither skipped nor left out, of a fragment that exists, applies to the object
/// type and has not been visited, selects what the selections of the fragment do, within which the
/// fragment counts as visited.
pub proof fn spread_selects_what_its_fragment_does(
    document: Document,
    schema: SchemaDocument,
    variables: Map<Seq<char>, Value>,
    object_type: ObjectType,
    selection: Selection,
    visited: Set<Seq<char>>,
    fragment: FragmentDefinition,
)
    requires
        selection is FragmentSpread,
        active(selection, variables),
        !visited.contains(selection->FragmentSpread_0.fragment_name@),
        first_named(document.fragments@, selection->FragmentSpread_0.fragment_name@) == Some(
            fragment,
        ),
        fragment_applies(schema, object_type, fragment.type_condition),
    ensures
        collected(document, schema, variables, object_type, seq![selection], visited) == collected(
            document,
            schema,
            variables,
            object_type,
            fragment.selection_set.items@,
            visited.insert(selection->FragmentSpread_0.fragment_name@),
        ),
{
    assert(seq![selection].drop_first() =~= Seq::empty());
    let name = selection->FragmentSpread_0.fragment_name@;
    let of_fragment = collected(
        document,
        schema,
        variables,
        object_type,
        fragment.selection_set.items@,
        visited.insert(name),
    );
    let of_rest = collected(
        document,
        schema,
        variables,
        object_type,
        seq![selection].drop_first(),
        visited.insert(name),
    );
    assert(of_rest =~= Seq::empty());
    assert(of_fragment + of_rest =~= of_fragment);
}

/// Behind selections, those fragments have been visited that were before, and those that an active
/// spread among the selections names.
pub proof fn spreads_visit_their_fragments(
    variables: Map<Seq<char>, Value>,
    items: Seq<Selection>,
    visited: Set<Seq<char>>,
    name: Seq<char>,
)
    ensures
        visited_after(variables, items, visited).contains(name) <==> visited.contains(name)
            || exists|i: int|
            0 <= i < items.len() && (#[trigger] items[i]) is FragmentSpread && active(
                items[i],
                variables,
            ) && items[i]->FragmentSpread_0.fragment_name@ == name,
    decreases items.len(),
{
    if items.len() > 0 {
        let rest = items.drop_first();
        let next = match items[0] {
            Selection::FragmentSpread(spread) => if active(items[0], variables) {
                visited.insert(spread.fragment_name@)
            } else {
                visited
            },
            _ => visited,
        };
        spreads_visit_their_fragments(variables, rest, next, name);
        if exists|i: int|
            0 <= i < rest.len() && (#[trigger] rest[i]) is FragmentSpread && active(
                rest[i],
                variables,
            ) && rest[i]->FragmentSpread_0.fragment_name@ == name {
            let i = choose|i: int|
                0 <= i < rest.len() && (#[trigger] rest[i]) is FragmentSpread && active(
                    rest[i],
                    variables,
                ) && rest[i]->FragmentSpread_0.fragment_name@ == name;
            assert(items[i + 1] == rest[i]);
        }
        if exists|i: int|
            0 <= i < items.len() && (#[trigger] items[i]) is FragmentSpread && active(
                items[i],
                variables,
            ) && items[i]->FragmentSpread_0.fragment_name@ == name {
            let i = choose|i: int|
                0 <= i < items.len() && (#[trigger] items[i]) is FragmentSpread && active(
                    items[i],
                    variables,
                ) && items[i]->FragmentSpread_0.fragment_name@ == name;
            if i > 0 {
                assert(rest[i - 1] == items[i]);
            }
        }
    }
}

} // verus!
