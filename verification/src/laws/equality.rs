//! What holds of the equality of values and types, and of the order of positions and names.
use vstd::prelude::*;

use crate::name_map::NameMap;
use crate::name_map::ascending;
use crate::name_map::lemma_entry_in_map;
use crate::name_map::lemma_value_smaller;
use crate::name_map::map_of;
use crate::name_map::name_lt;
use crate::named::Same;
use crate::named::equal_lists;
use crate::named::equal_options;
use crate::schema::Directive;
use crate::schema::FieldDefinition;
use crate::schema::InputValue;
use crate::schema::ObjectType;
use crate::schema::Type;
use crate::value::Pos;
use crate::value::Value;
use crate::value::equal_floats;
use crate::value::equal_values;
use crate::value::is_nan;
use crate::value::is_zero;

verus! {

/// Positions are ordered by their lines, and on one line by their columns. The earlier of two is at
/// or before both, the later is at or behind both, and each of them is one of the two.
pub proof fn positions_are_ordered_by_line_and_column(a: Pos, b: Pos, c: Pos)
    ensures
        a.line < b.line ==> a.le(b) && !b.le(a),
        a.line == b.line ==> a.le(b) == (a.column <= b.column),
        a.le(b) || b.le(a),
        a.le(b) && b.le(a) ==> a == b,
        a.le(b) && b.le(c) ==> a.le(c),
        a.earlier_of(b).le(a),
        a.earlier_of(b).le(b),
        a.earlier_of(b) == a || a.earlier_of(b) == b,
        a.le(a.later_of(b)),
        b.le(a.later_of(b)),
        a.later_of(b) == a || a.later_of(b) == b,
{
}

/// Names are ordered by the first character at which they differ, and what starts a name comes
/// before it.
pub proof fn names_are_ordered_by_their_first_difference(a: Seq<char>, b: Seq<char>, i: int)
    requires
        0 <= i <= a.len(),
        i <= b.len(),
        a.take(i) == b.take(i),
    ensures
        i < a.len() && i < b.len() && a[i] != b[i] ==> name_lt(a, b) == (a[i] < b[i]),
        i == a.len() ==> name_lt(a, b) == (a.len() < b.len()),
    decreases a.len(),
{
    if i > 0 {
        assert(a[0] == a.take(i)[0]);
        assert(b[0] == b.take(i)[0]);
        let rest = a.drop_first();
        let other = b.drop_first();
        assert(rest.take(i - 1) =~= a.take(i).drop_first());
        assert(other.take(i - 1) =~= b.take(i).drop_first());
        names_are_ordered_by_their_first_difference(rest, other, i - 1);
    }
}

/// A map has a value for each name that its list has, the one that stands there with the name, and
/// for no other name. The names of a list ascend, so that each stands there once.
pub proof fn map_has_what_its_list_has<V>(entries: Seq<(String, V)>, name: Seq<char>, i: int)
    requires
        ascending(entries),
    ensures
        map_of(entries).contains_key(name) <==> exists|j: int|
            0 <= j < entries.len() && #[trigger] entries[j].0@ == name,
        0 <= i < entries.len() ==> map_of(entries)[entries[i].0@] == entries[i].1,
        forall|j: int|
            0 <= i < j < entries.len() ==> name_lt(entries[i].0@, #[trigger] entries[j].0@),
{
    if 0 <= i < entries.len() {
        lemma_entry_in_map(entries, i);
    }
}

/// A map is the one that its list of entries lists.
pub proof fn map_is_that_of_its_list<V>(map: NameMap<V>)
    ensures
        map@ == map_of(map.listing()),
{
}

/// What is not a number has an exponent of ones and a fraction that is not zero; zero has neither
/// exponent nor fraction, and either sign.
pub proof fn bits_tell_what_is_not_a_number(bits: u64)
    ensures
        is_nan(bits) <==> bits & 0x7ff0_0000_0000_0000 == 0x7ff0_0000_0000_0000 && bits
            & 0x000f_ffff_ffff_ffff != 0,
        is_zero(bits) <==> bits & 0x7fff_ffff_ffff_ffff == 0,
{
    assert((bits % 0x8000_0000_0000_0000 > 0x7ff0_0000_0000_0000) == (bits & 0x7ff0_0000_0000_0000
        == 0x7ff0_0000_0000_0000 && bits & 0x000f_ffff_ffff_ffff != 0)) by (bit_vector);
    assert((bits % 0x8000_0000_0000_0000 == 0) == (bits & 0x7fff_ffff_ffff_ffff == 0))
        by (bit_vector);
}

/// Numbers equal themselves, and no other number but that the zeros of both signs are equal; what
/// is not a number equals nothing. The order of the two does not matter.
pub proof fn floats_are_equal_as_numbers(a: u64, b: u64)
    ensures
        equal_floats(a, b) == equal_floats(b, a),
        is_nan(a) ==> !equal_floats(a, b),
        !is_nan(a) ==> equal_floats(a, a),
        is_zero(a) && is_zero(b) ==> equal_floats(a, b),
        equal_floats(a, b) ==> a == b || (is_zero(a) && is_zero(b)),
{
}

/// Two values are equal if they are of the same kind and what they hold is: names and texts by
/// their characters, floating-point numbers as numbers, lists item by item, and objects entry by
/// entry.
pub proof fn equal_values_are_of_one_kind(a: Value, b: Value)
    ensures
        a is Variable ==> equal_values(a, b) == (b is Variable && a->Variable_0@
            == b->Variable_0@),
        a is Int ==> equal_values(a, b) == (b is Int && a->Int_0 == b->Int_0),
        a is Float ==> equal_values(a, b) == (b is Float && equal_floats(a->Float_0, b->Float_0)),
        a is String ==> equal_values(a, b) == (b is String && a->String_0@ == b->String_0@),
        a is Boolean ==> equal_values(a, b) == (b is Boolean && a->Boolean_0 == b->Boolean_0),
        a is Null ==> equal_values(a, b) == (b is Null),
        a is Enum ==> equal_values(a, b) == (b is Enum && a->Enum_0@ == b->Enum_0@),
        a is List ==> equal_values(a, b) == (b is List && a->List_0@.len() == b->List_0@.len() && (
        forall|i: int|
            0 <= i < a->List_0@.len() ==> equal_values(#[trigger] a->List_0@[i], b->List_0@[i]))),
        a is Object ==> equal_values(a, b) == (b is Object && a->Object_0.listing().len()
            == b->Object_0.listing().len() && (forall|i: int|
            0 <= i < a->Object_0.listing().len() ==> (#[trigger] a->Object_0.listing()[i]).0@
                == b->Object_0.listing()[i].0@ && equal_values(
                a->Object_0.listing()[i].1,
                b->Object_0.listing()[i].1,
            ))),
{
}

/// Whether nothing in `value` is not a number.
pub open spec fn all_numbers(value: Value) -> bool
    decreases value,
{
    match value {
        Value::Float(bits) => !is_nan(bits),
        Value::List(items) => forall|i: int|
            0 <= i < items@.len() ==> all_numbers(#[trigger] items@[i]),
        Value::Object(map) => {
            proof {
                assert forall|i: int| 0 <= i < map.listing().len() implies decreases_to!(
                    value => (#[trigger] map.listing()[i]).1) by {
                    lemma_value_smaller(map, i);
                }
            }
            forall|i: int|
                0 <= i < map.listing().len() ==> all_numbers((#[trigger] map.listing()[i]).1)
        },
        _ => true,
    }
}

/// A value equals itself, unless there is something in it that is not a number.
pub proof fn value_equals_itself(value: Value)
    requires
        all_numbers(value),
    ensures
        equal_values(value, value),
    decreases value,
{
    match value {
        Value::List(items) => {
            assert forall|i: int| 0 <= i < items@.len() implies equal_values(
                #[trigger] items@[i],
                items@[i],
            ) by {
                assert(decreases_to!(value => value->List_0));
                assert(decreases_to!(value->List_0 => value->List_0@));
                assert(all_numbers(items@[i]));
                value_equals_itself(items@[i]);
            }
        },
        Value::Object(map) => {
            assert forall|i: int| 0 <= i < map.listing().len() implies (
            #[trigger] map.listing()[i]).0@ == map.listing()[i].0@ && equal_values(
                map.listing()[i].1,
                map.listing()[i].1,
            ) by {
                assert(decreases_to!(value => value->Object_0));
                lemma_value_smaller(map, i);
                assert(all_numbers(map.listing()[i].1));
                value_equals_itself(map.listing()[i].1);
            }
        },
        _ => {},
    }
}

/// Of two values it does not matter which is compared with which.
pub proof fn equality_of_values_is_symmetric(a: Value, b: Value)
    ensures
        equal_values(a, b) == equal_values(b, a),
    decreases a,
{
    match (a, b) {
        (Value::List(x), Value::List(y)) => {
            assert forall|i: int| 0 <= i < x@.len() && i < y@.len() implies equal_values(
                #[trigger] x@[i],
                y@[i],
            ) == equal_values(y@[i], x@[i]) by {
                assert(decreases_to!(a => a->List_0));
                assert(decreases_to!(a->List_0 => a->List_0@));
                equality_of_values_is_symmetric(x@[i], y@[i]);
            }
            if x@.len() == y@.len() {
                if equal_values(a, b) {
                    assert forall|i: int| 0 <= i < y@.len() implies equal_values(
                        #[trigger] y@[i],
                        x@[i],
                    ) by {
                        assert(equal_values(x@[i], y@[i]));
                    }
                }
                if equal_values(b, a) {
                    assert forall|i: int| 0 <= i < x@.len() implies equal_values(
                        #[trigger] x@[i],
                        y@[i],
                    ) by {
                        assert(equal_values(y@[i], x@[i]));
                    }
                }
            }
        },
        (Value::Object(x), Value::Object(y)) => {
            let p = x.listing();
            let q = y.listing();
            assert forall|i: int| 0 <= i < p.len() && i < q.len() implies equal_values(
                (#[trigger] p[i]).1,
                q[i].1,
            ) == equal_values(q[i].1, p[i].1) by {
                assert(decreases_to!(a => a->Object_0));
                lemma_value_smaller(x, i);
                equality_of_values_is_symmetric(p[i].1, q[i].1);
            }
            if p.len() == q.len() {
                if equal_values(a, b) {
                    assert forall|i: int| 0 <= i < q.len() implies (#[trigger] q[i]).0@ == p[i].0@
                        && equal_values(q[i].1, p[i].1) by {
                        assert(p[i].0@ == q[i].0@ && equal_values(p[i].1, q[i].1));
                    }
                }
                if equal_values(b, a) {
                    assert forall|i: int| 0 <= i < p.len() implies (#[trigger] p[i]).0@ == q[i].0@
                        && equal_values(p[i].1, q[i].1) by {
                        assert(q[i].0@ == p[i].0@ && equal_values(q[i].1, p[i].1));
                    }
                }
            }
        },
        _ => {},
    }
}

/// The view of a value tells its kind and what it holds, so that values with the same view differ
/// in nothing but how they are stored.
pub proof fn view_tells_the_value(a: Value, b: Value)
    requires
        a@ == b@,
    ensures
        a is Variable ==> b is Variable && a->Variable_0@ == b->Variable_0@,
        a is Int ==> b is Int && a->Int_0 == b->Int_0,
        a is Float ==> b is Float && a->Float_0 == b->Float_0,
        a is String ==> b is String && a->String_0@ == b->String_0@,
        a is Boolean ==> b is Boolean && a->Boolean_0 == b->Boolean_0,
        a is Null ==> b is Null,
        a is Enum ==> b is Enum && a->Enum_0@ == b->Enum_0@,
        a is List ==> b is List && a->List_0@.len() == b->List_0@.len() && forall|i: int|
            0 <= i < a->List_0@.len() ==> (#[trigger] a->List_0@[i])@ == b->List_0@[i]@,
        a is Object ==> b is Object && a->Object_0.listing().len() == b->Object_0.listing().len()
            && forall|i: int|
            0 <= i < a->Object_0.listing().len() ==> (#[trigger] a->Object_0.listing()[i]).0@
                == b->Object_0.listing()[i].0@ && a->Object_0.listing()[i].1@
                == b->Object_0.listing()[i].1@,
{
    match (a, b) {
        (Value::List(x), Value::List(y)) => {
            let left = a@->List_0;
            let right = b@->List_0;
            assert(left.len() == x@.len() && right.len() == y@.len());
            assert forall|i: int| 0 <= i < x@.len() implies (#[trigger] x@[i])@ == y@[i]@ by {
                assert(left[i] == right[i]);
            }
        },
        (Value::Object(x), Value::Object(y)) => {
            let left = a@->Object_0;
            let right = b@->Object_0;
            assert(left.len() == x.listing().len() && right.len() == y.listing().len());
            assert forall|i: int| 0 <= i < x.listing().len() implies (
            #[trigger] x.listing()[i]).0@ == y.listing()[i].0@ && x.listing()[i].1@
                == y.listing()[i].1@ by {
                assert(left[i] == right[i]);
            }
        },
        _ => {},
    }
}

/// Two types are the same if they have the same form and the same name at its end.
pub proof fn types_are_the_same_by_form_and_name(a: Type, b: Type)
    ensures
        a is NamedType ==> (a@ == b@) == (b is NamedType && a->NamedType_0@ == b->NamedType_0@),
        a is ListType ==> (a@ == b@) == (b is ListType && (*a->ListType_0)@ == (*b->ListType_0)@),
        a is NonNullType ==> (a@ == b@) == (b is NonNullType && (*a->NonNullType_0)@ == (
        *b->NonNullType_0)@),
{
}

/// Lists are equal if they are of one length and equal item by item, and optional items if both or
/// neither are there and, if they are, equal.
pub proof fn lists_and_options_are_equal_by_their_items<T: Same>(
    a: Seq<T>,
    b: Seq<T>,
    x: Option<T>,
    y: Option<T>,
)
    ensures
        equal_lists(a, b) <==> a.len() == b.len() && forall|i: int|
            0 <= i < a.len() ==> (#[trigger] a[i]).equals(&b[i]),
        equal_options(x, y) <==> (x is None && y is None) || (x is Some && y is Some && x->0.equals(
            &y->0,
        )),
{
}

/// Equal object types agree in everything: their places, descriptions and names, and, one by one,
/// their interfaces, directives and fields.
pub proof fn equal_object_types_agree(a: ObjectType, b: ObjectType)
    ensures
        a.equals(&b) <==> {
            &&& a.position == b.position
            &&& a.description is Some <==> b.description is Some
            &&& a.description is Some ==> a.description->0@ == b.description->0@
            &&& a.name@ == b.name@
            &&& a.implements_interfaces@.len() == b.implements_interfaces@.len()
            &&& forall|i: int|
                0 <= i < a.implements_interfaces@.len() ==> #[trigger] a.implements_interfaces@[i]@
                    == b.implements_interfaces@[i]@
            &&& a.directives@.len() == b.directives@.len()
            &&& forall|i: int|
                0 <= i < a.directives@.len() ==> (#[trigger] a.directives@[i]).equals(
                    &b.directives@[i],
                )
            &&& a.fields@.len() == b.fields@.len()
            &&& forall|i: int|
                0 <= i < a.fields@.len() ==> (#[trigger] a.fields@[i]).equals(&b.fields@[i])
        },
{
    if equal_lists(a.implements_interfaces@, b.implements_interfaces@) {
        assert forall|i: int|
            0 <= i < a.implements_interfaces@.len() implies #[trigger] a.implements_interfaces@[i]@
            == b.implements_interfaces@[i]@ by {
            assert(a.implements_interfaces@[i].equals(&b.implements_interfaces@[i]));
        }
    }
    if a.implements_interfaces@.len() == b.implements_interfaces@.len() && (forall|i: int|
        0 <= i < a.implements_interfaces@.len() ==> #[trigger] a.implements_interfaces@[i]@
            == b.implements_interfaces@[i]@) {
        assert forall|i: int| 0 <= i < a.implements_interfaces@.len() implies (
        #[trigger] a.implements_interfaces@[i]).equals(&b.implements_interfaces@[i]) by {
            assert(a.implements_interfaces@[i]@ == b.implements_interfaces@[i]@);
        }
        assert(equal_lists(a.implements_interfaces@, b.implements_interfaces@));
    }
}

/// Equal fields agree in everything: their places, descriptions, names and types, and, one by one,
/// their arguments and directives.
pub proof fn equal_fields_agree(a: FieldDefinition, b: FieldDefinition)
    ensures
        a.equals(&b) <==> {
            &&& a.position == b.position
            &&& a.description is Some <==> b.description is Some
            &&& a.description is Some ==> a.description->0@ == b.description->0@
            &&& a.name@ == b.name@
            &&& a.field_type@ == b.field_type@
            &&& a.arguments@.len() == b.arguments@.len()
            &&& forall|i: int|
                0 <= i < a.arguments@.len() ==> (#[trigger] a.arguments@[i]).equals(
                    &b.arguments@[i],
                )
            &&& a.directives@.len() == b.directives@.len()
            &&& forall|i: int|
                0 <= i < a.directives@.len() ==> (#[trigger] a.directives@[i]).equals(
                    &b.directives@[i],
                )
        },
{
}

/// Equal arguments agree in everything: their places, descriptions, names, types and defaults, and,
/// one by one, their directives.
pub proof fn equal_arguments_agree(a: InputValue, b: InputValue)
    ensures
        a.equals(&b) <==> {
            &&& a.position == b.position
            &&& a.description is Some <==> b.description is Some
            &&& a.description is Some ==> a.description->0@ == b.description->0@
            &&& a.name@ == b.name@
            &&& a.value_type@ == b.value_type@
            &&& a.default_value is Some <==> b.default_value is Some
            &&& a.default_value is Some ==> equal_values(a.default_value->0, b.default_value->0)
            &&& a.directives@.len() == b.directives@.len()
            &&& forall|i: int|
                0 <= i < a.directives@.len() ==> (#[trigger] a.directives@[i]).equals(
                    &b.directives@[i],
                )
        },
{
}

/// Equal directives agree in everything: their places and names, and, one by one, the names and
/// values of their arguments.
pub proof fn equal_directives_agree(a: Directive, b: Directive)
    ensures
        a.equals(&b) <==> {
            &&& a.position == b.position
            &&& a.name@ == b.name@
            &&& a.arguments@.len() == b.arguments@.len()
            &&& forall|i: int|
                0 <= i < a.arguments@.len() ==> (#[trigger] a.arguments@[i]).0@
                    == b.arguments@[i].0@ && equal_values(a.arguments@[i].1, b.arguments@[i].1)
        },
{
    if equal_lists(a.arguments@, b.arguments@) {
        assert forall|i: int| 0 <= i < a.arguments@.len() implies (#[trigger] a.arguments@[i]).0@
            == b.arguments@[i].0@ && equal_values(a.arguments@[i].1, b.arguments@[i].1) by {
            assert(a.arguments@[i].equals(&b.arguments@[i]));
        }
    }
    if a.arguments@.len() == b.arguments@.len() && (forall|i: int|
        0 <= i < a.arguments@.len() ==> (#[trigger] a.arguments@[i]).0@ == b.arguments@[i].0@
            && equal_values(a.arguments@[i].1, b.arguments@[i].1)) {
        assert forall|i: int| 0 <= i < a.arguments@.len() implies (
        #[trigger] a.arguments@[i]).equals(&b.arguments@[i]) by {
            assert(a.arguments@[i].0@ == b.arguments@[i].0@);
        }
        assert(equal_lists(a.arguments@, b.arguments@));
    }
}

/// Whether nothing in the arguments of `directives` is not a number.
pub open spec fn numbers_in_directives(directives: Seq<Directive>) -> bool {
    forall|i: int, j: int|
        0 <= i < directives.len() && 0 <= j < directives[i].arguments@.len() ==> all_numbers(
            (#[trigger] directives[i].arguments@[j]).1,
        )
}

/// Whether nothing in the defaults and directives of `arguments` is not a number.
pub open spec fn numbers_in_arguments(arguments: Seq<InputValue>) -> bool {
    forall|i: int|
        0 <= i < arguments.len() ==> ((#[trigger] arguments[i]).default_value is Some
            ==> all_numbers(arguments[i].default_value->0)) && numbers_in_directives(
            arguments[i].directives@,
        )
}

/// Whether nothing in `object_type` is not a number.
pub open spec fn numbers_in_type(object_type: ObjectType) -> bool {
    &&& numbers_in_directives(object_type.directives@)
    &&& forall|i: int|
        0 <= i < object_type.fields@.len() ==> numbers_in_arguments(
            (#[trigger] object_type.fields@[i]).arguments@,
        ) && numbers_in_directives(object_type.fields@[i].directives@)
}

/// Directives equal themselves.
proof fn lemma_directives_equal_themselves(directives: Seq<Directive>)
    requires
        numbers_in_directives(directives),
    ensures
        equal_lists(directives, directives),
{
    assert forall|i: int| 0 <= i < directives.len() implies (#[trigger] directives[i]).equals(
        &directives[i],
    ) by {
        let arguments = directives[i].arguments@;
        assert forall|j: int| 0 <= j < arguments.len() implies (#[trigger] arguments[j]).equals(
            &arguments[j],
        ) by {
            assert(all_numbers(directives[i].arguments@[j].1));
            value_equals_itself(arguments[j].1);
        }
    }
}

/// An object type equals itself, unless there is something in it that is not a number.
pub proof fn object_type_equals_itself(object_type: ObjectType)
    requires
        numbers_in_type(object_type),
    ensures
        object_type.equals(&object_type),
{
    lemma_directives_equal_themselves(object_type.directives@);
    let fields = object_type.fields@;
    assert forall|i: int| 0 <= i < fields.len() implies (#[trigger] fields[i]).equals(
        &fields[i],
    ) by {
        lemma_directives_equal_themselves(fields[i].directives@);
        let arguments = fields[i].arguments@;
        assert forall|j: int| 0 <= j < arguments.len() implies (#[trigger] arguments[j]).equals(
            &arguments[j],
        ) by {
            lemma_directives_equal_themselves(arguments[j].directives@);
            if let Some(value) = arguments[j].default_value {
                value_equals_itself(value);
            }
        }
    }
}

} // verus!
