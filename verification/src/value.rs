//! Positions in a document, and the values of a query language.
use vstd::prelude::*;

use crate::name_map::NameMap;
use crate::name_map::lemma_value_smaller;

verus! {

/// A place in the text of a document: a line and a column.
#[derive(Debug, Clone, Copy, PartialEq, Eq, Default, Structural)]
pub struct Pos {
    pub line: usize,
    pub column: usize,
}

impl Pos {
    /// Whether `self` is at or before `other`: by line, then by column.
    pub open spec fn le(self, other: Pos) -> bool {
        self.line < other.line || (self.line == other.line && self.column <= other.column)
    }

    /// The earlier of two places.
    pub open spec fn earlier_of(self, other: Pos) -> Pos {
        if self.le(other) { self } else { other }
    }

    /// The later of two places.
    pub open spec fn later_of(self, other: Pos) -> Pos {
        if self.le(other) { other } else { self }
    }

    /// The earlier of two places.
    pub fn min(self, other: Pos) -> (earlier: Pos)
        ensures
            earlier == self.earlier_of(other),
    {
        if self.line < other.line || (self.line == other.line && self.column <= other.column) {
            self
        } else {
            other
        }
    }

    /// The later of two places.
    pub fn max(self, other: Pos) -> (later: Pos)
        ensures
            later == self.later_of(other),
    {
        if self.line < other.line || (self.line == other.line && self.column <= other.column) {
            other
        } else {
            self
        }
    }
}

/// A value: written in a query, given for a variable, or resolved for a field.
#[derive(Debug, PartialEq, Eq)]
pub enum Value {
    /// A variable, by its name.
    Variable(String),
    Int(i64),
    /// A floating-point number, by its IEEE 754 bits.
    Float(u64),
    String(String),
    Boolean(bool),
    Null,
    Enum(String),
    List(Vec<Value>),
    Object(NameMap<Value>),
}

/// What a [`Value`] is, free of how it is stored.
pub enum ValueView {
    Variable(Seq<char>),
    Int(i64),
    Float(u64),
    String(Seq<char>),
    Boolean(bool),
    Null,
    Enum(Seq<char>),
    List(Seq<ValueView>),
    /// The entries of an object, in the order of their names.
    Object(Seq<(Seq<char>, ValueView)>),
}

/// The view of `value`.
pub open spec fn value_view(value: Value) -> ValueView
    decreases value,
{
    match value {
        Value::Variable(name) => ValueView::Variable(name@),
        Value::Int(n) => ValueView::Int(n),
        Value::Float(bits) => ValueView::Float(bits),
        Value::String(s) => ValueView::String(s@),
        Value::Boolean(b) => ValueView::Boolean(b),
        Value::Null => ValueView::Null,
        Value::Enum(name) => ValueView::Enum(name@),
        Value::List(items) => ValueView::List(
            Seq::new(
                items@.len(),
                |i: int|
                    if 0 <= i < items@.len() {
                        value_view(items@[i])
                    } else {
                        ValueView::Null
                    },
            ),
        ),
        Value::Object(map) => {
            proof {
                assert forall|i: int| 0 <= i < map.listing().len() implies decreases_to!(
                    value => (#[trigger] map.listing()[i]).1) by {
                    lemma_value_smaller(map, i);
                }
            }
            ValueView::Object(
                Seq::new(
                    map.listing().len(),
                    |i: int|
                        if 0 <= i < map.listing().len() {
                            (map.listing()[i].0@, value_view(map.listing()[i].1))
                        } else {
                            (Seq::empty(), ValueView::Null)
                        },
                ),
            )
        },
    }
}

impl View for Value {
    type V = ValueView;

    open spec fn view(&self) -> ValueView {
        value_view(*self)
    }
}

/// A list comes before its items in the order by which recursion descends.
proof fn lemma_item_smaller(value: Value, i: int)
    requires
        value is List,
        0 <= i < value->List_0@.len(),
    ensures
        decreases_to!(value => value->List_0@[i]),
{
    assert(decreases_to!(value => value->List_0));
    assert(decreases_to!(value->List_0 => value->List_0@));
}

/// An object comes before its values in the order by which recursion descends.
proof fn lemma_entry_smaller(value: Value, i: int)
    requires
        value is Object,
        0 <= i < value->Object_0.listing().len(),
    ensures
        decreases_to!(value => value->Object_0.listing()[i].1),
{
    assert(decreases_to!(value => value->Object_0));
    lemma_value_smaller(value->Object_0, i);
}

/// The views of two lists of values are the same if and only if the values are, one by one.
proof fn lemma_list_view(a: Seq<Value>, b: Seq<Value>, x: Vec<Value>, y: Vec<Value>)
    requires
        x@ == a,
        y@ == b,
    ensures
        (value_view(Value::List(x)) == value_view(Value::List(y))) == (a.len() == b.len() && (
        forall|i: int| 0 <= i < a.len() ==> #[trigger] value_view(a[i]) == value_view(b[i]))),
{
    let left = value_view(Value::List(x))->List_0;
    let right = value_view(Value::List(y))->List_0;
    if left == right {
        assert(left.len() == right.len());
        assert forall|i: int| 0 <= i < a.len() implies #[trigger] value_view(a[i]) == value_view(
            b[i],
        ) by {
            assert(left[i] == right[i]);
        }
    } else if a.len() == b.len() && (forall|i: int|
        0 <= i < a.len() ==> #[trigger] value_view(a[i]) == value_view(b[i])) {
        assert forall|i: int| 0 <= i < left.len() implies left[i] == right[i] by {
            assert(value_view(a[i]) == value_view(b[i]));
        }
        assert(left =~= right);
    }
}

/// The views of two objects are the same if and only if their entries are, one by one.
proof fn lemma_object_view(x: NameMap<Value>, y: NameMap<Value>)
    ensures
        (value_view(Value::Object(x)) == value_view(Value::Object(y))) == (x.listing().len()
            == y.listing().len() && (forall|i: int|
            0 <= i < x.listing().len() ==> (#[trigger] x.listing()[i]).0@ == y.listing()[i].0@
                && value_view(x.listing()[i].1) == value_view(y.listing()[i].1))),
{
    let left = value_view(Value::Object(x))->Object_0;
    let right = value_view(Value::Object(y))->Object_0;
    if left == right {
        assert(left.len() == right.len());
        assert forall|i: int| 0 <= i < x.listing().len() implies (#[trigger] x.listing()[i]).0@
            == y.listing()[i].0@ && value_view(x.listing()[i].1) == value_view(
            y.listing()[i].1,
        ) by {
            assert(left[i] == right[i]);
        }
    } else if x.listing().len() == y.listing().len() && (forall|i: int|
        0 <= i < x.listing().len() ==> (#[trigger] x.listing()[i]).0@ == y.listing()[i].0@
            && value_view(x.listing()[i].1) == value_view(y.listing()[i].1)) {
        assert(left =~= right);
    }
}

impl Clone for Value {
    fn clone(&self) -> (copy: Value)
        ensures
            copy@ == self@,
        decreases self,
    {
        match self {
            Value::Variable(name) => Value::Variable(name.clone()),
            Value::Int(n) => Value::Int(*n),
            Value::Float(bits) => Value::Float(*bits),
            Value::String(s) => Value::String(s.clone()),
            Value::Boolean(b) => Value::Boolean(*b),
            Value::Null => Value::Null,
            Value::Enum(name) => Value::Enum(name.clone()),
            Value::List(items) => {
                let mut copies: Vec<Value> = Vec::new();
                let mut i: usize = 0;
                while i < items.len()
                    invariant
                        i <= items@.len(),
                        copies@.len() == i,
                        *self == Value::List(*items),
                        forall|j: int|
                            0 <= j < i ==> #[trigger] value_view(copies@[j]) == value_view(
                                items@[j],
                            ),
                    decreases items@.len() - i,
                {
                    let item = &items[i];
                    proof { lemma_item_smaller(*self, i as int); }
                    let copy = item.clone();
                    copies.push(copy);
                    i += 1;
                }
                proof { lemma_list_view(copies@, items@, copies, *items); }
                Value::List(copies)
            },
            Value::Object(map) => {
                let mut copies: NameMap<Value> = NameMap::new();
                let mut i: usize = 0;
                while i < map.len()
                    invariant
                        i <= map.listing().len(),
                        copies.listing().len() == i,
                        *self == Value::Object(*map),
                        forall|j: int|
                            0 <= j < i ==> (#[trigger] copies.listing()[j]).0@
                                == map.listing()[j].0@ && value_view(copies.listing()[j].1)
                                == value_view(map.listing()[j].1),
                    decreases map.listing().len() - i,
                {
                    let entry = map.entry(i);
                    proof { lemma_entry_smaller(*self, i as int); }
                    let value = entry.1.clone();
                    copies.push_last(entry.0.clone(), value);
                    i += 1;
                }
                proof { lemma_object_view(copies, *map); }
                Value::Object(copies)
            },
        }
    }
}

/// Whether the floating-point number with the IEEE 754 bits `bits` is not a number.
pub open spec fn is_nan(bits: u64) -> bool {
    bits % 0x8000_0000_0000_0000 > 0x7ff0_0000_0000_0000
}

/// Whether the floating-point number with the IEEE 754 bits `bits` is zero, of either sign.
pub open spec fn is_zero(bits: u64) -> bool {
    bits % 0x8000_0000_0000_0000 == 0
}

/// Whether two floating-point numbers are equal, by their bits. What is not a number equals
/// nothing, itself included, and the zeros of both signs are equal.
pub open spec fn equal_floats(a: u64, b: u64) -> bool {
    (a == b && !is_nan(a)) || (is_zero(a) && is_zero(b))
}

/// Whether two floating-point numbers are equal, by their bits.
pub fn same_float(a: u64, b: u64) -> (same: bool)
    ensures
        same == equal_floats(a, b),
{
    let magnitude: u64 = a % 0x8000_0000_0000_0000;
    (a == b && magnitude <= 0x7ff0_0000_0000_0000) || (magnitude == 0 && b % 0x8000_0000_0000_0000
        == 0)
}

/// Whether two values are equal: the same in everything, except that floating-point numbers are
/// compared as numbers.
pub open spec fn equal_values(a: Value, b: Value) -> bool
    decreases a,
{
    match (a, b) {
        (Value::Variable(x), Value::Variable(y)) => x@ == y@,
        (Value::Int(x), Value::Int(y)) => x == y,
        (Value::Float(x), Value::Float(y)) => equal_floats(x, y),
        (Value::String(x), Value::String(y)) => x@ == y@,
        (Value::Boolean(x), Value::Boolean(y)) => x == y,
        (Value::Null, Value::Null) => true,
        (Value::Enum(x), Value::Enum(y)) => x@ == y@,
        (Value::List(x), Value::List(y)) => {
            &&& x@.len() == y@.len()
            &&& forall|i: int| 0 <= i < x@.len() ==> equal_values(#[trigger] x@[i], y@[i])
        },
        (Value::Object(x), Value::Object(y)) => {
            proof {
                assert forall|i: int| 0 <= i < x.listing().len() implies decreases_to!(
                    a => (#[trigger] x.listing()[i]).1) by {
                    lemma_value_smaller(x, i);
                }
            }
            &&& x.listing().len() == y.listing().len()
            &&& forall|i: int|
                0 <= i < x.listing().len() ==> (#[trigger] x.listing()[i]).0@ == y.listing()[i].0@
                    && equal_values(x.listing()[i].1, y.listing()[i].1)
        },
        _ => false,
    }
}

/// Whether two values are equal.
pub fn same_value(a: &Value, b: &Value) -> (same: bool)
    ensures
        same == equal_values(*a, *b),
    decreases a,
{
    match (a, b) {
        (Value::Variable(x), Value::Variable(y)) => *x == *y,
        (Value::Int(x), Value::Int(y)) => *x == *y,
        (Value::Float(x), Value::Float(y)) => same_float(*x, *y),
        (Value::String(x), Value::String(y)) => *x == *y,
        (Value::Boolean(x), Value::Boolean(y)) => *x == *y,
        (Value::Null, Value::Null) => true,
        (Value::Enum(x), Value::Enum(y)) => *x == *y,
        (Value::List(x), Value::List(y)) => {
            if x.len() != y.len() {
                return false;
            }
            let mut i: usize = 0;
            while i < x.len()
                invariant
                    i <= x@.len(),
                    x@.len() == y@.len(),
                    *a == Value::List(*x),
                    *b == Value::List(*y),
                    forall|j: int| 0 <= j < i ==> equal_values(#[trigger] x@[j], y@[j]),
                decreases x@.len() - i,
            {
                let item = &x[i];
                proof { lemma_item_smaller(*a, i as int); }
                if !same_value(item, &y[i]) {
                    assert(!equal_values(x@[i as int], y@[i as int]));
                    return false;
                }
                i += 1;
            }
            true
        },
        (Value::Object(x), Value::Object(y)) => {
            if x.len() != y.len() {
                return false;
            }
            let mut i: usize = 0;
            while i < x.len()
                invariant
                    i <= x.listing().len(),
                    x.listing().len() == y.listing().len(),
                    *a == Value::Object(*x),
                    *b == Value::Object(*y),
                    forall|j: int|
                        0 <= j < i ==> (#[trigger] x.listing()[j]).0@ == y.listing()[j].0@
                            && equal_values(x.listing()[j].1, y.listing()[j].1),
                decreases x.listing().len() - i,
            {
                let left = x.entry(i);
                let right = y.entry(i);
                proof { lemma_entry_smaller(*a, i as int); }
                if left.0 != right.0 || !same_value(&left.1, &right.1) {
                    assert(!(x.listing()[i as int].0@ == y.listing()[i as int].0@ && equal_values(
                        x.listing()[i as int].1,
                        y.listing()[i as int].1,
                    )));
                    return false;
                }
                i += 1;
            }
            true
        },
        _ => false,
    }
}

} // verus!
