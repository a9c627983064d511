//! Lookup by name, and sameness of what is stored.
use vstd::prelude::*;

use crate::value::Value;
use crate::value::equal_values;
use crate::value::same_value;

verus! {

/// What has a name by which it is looked up.
pub trait Named: Sized {
    /// The characters of the name.
    spec fn called(&self) -> Seq<char>;

    /// The name.
    fn name(&self) -> (name: &String)
        ensures
            name@ == self.called(),
    ;
}

impl Named for (String, Value) {
    open spec fn called(&self) -> Seq<char> {
        self.0@
    }

    fn name(&self) -> &String {
        &self.0
    }
}

/// The first of `items` that is called `name`, if there is one.
pub open spec fn first_named<T: Named>(items: Seq<T>, name: Seq<char>) -> Option<T>
    decreases items.len(),
{
    if items.len() == 0 {
        None
    } else if items[0].called() == name {
        Some(items[0])
    } else {
        first_named(items.drop_first(), name)
    }
}

/// What `first_named` finds is one of the items, and is called by the name.
pub proof fn lemma_first_named<T: Named>(items: Seq<T>, name: Seq<char>) -> (i: int)
    ensures
        match first_named(items, name) {
            Some(item) => 0 <= i < items.len() && items[i] == item && item.called() == name && (
            forall|j: int| 0 <= j < i ==> #[trigger] items[j].called() != name),
            None => forall|j: int| 0 <= j < items.len() ==> #[trigger] items[j].called() != name,
        },
    decreases items.len(),
{
    if items.len() == 0 {
        0
    } else if items[0].called() == name {
        0
    } else {
        let rest = items.drop_first();
        let i = lemma_first_named(rest, name);
        assert forall|j: int| 0 <= j < items.len() && (first_named(items, name) is Some ==> j < i
            + 1) implies #[trigger] items[j].called() != name by {
            if j > 0 {
                assert(rest[j - 1] == items[j]);
            }
        }
        i + 1
    }
}

/// Finds the first of `items` that is called `name`.
pub fn find_named<'a, T: Named>(items: &'a Vec<T>, name: &String) -> (found: Option<&'a T>)
    ensures
        match found {
            Some(item) => first_named(items@, name@) == Some(*item),
            None => first_named(items@, name@) is None,
        },
{
    let mut i: usize = 0;
    assert(items@.skip(0) =~= items@);
    while i < items.len()
        invariant
            i <= items@.len(),
            first_named(items@, name@) == first_named(items@.skip(i as int), name@),
        decreases items@.len() - i,
    {
        assert(items@.skip(i as int).drop_first() =~= items@.skip(i + 1));
        if *items[i].name() == *name {
            return Some(&items[i]);
        }
        i += 1;
    }
    None
}

/// What can be compared by what it is, free of how it is stored.
pub trait Same: Sized {
    /// Whether `self` and `other` are equal.
    spec fn equals(&self, other: &Self) -> bool;

    /// Whether `self` and `other` are equal.
    fn same(&self, other: &Self) -> (same: bool)
        ensures
            same == self.equals(other),
    ;
}

impl Same for String {
    open spec fn equals(&self, other: &String) -> bool {
        self@ == other@
    }

    fn same(&self, other: &String) -> bool {
        *self == *other
    }
}

impl Same for Value {
    open spec fn equals(&self, other: &Value) -> bool {
        equal_values(*self, *other)
    }

    fn same(&self, other: &Value) -> bool {
        same_value(self, other)
    }
}

impl Same for (String, Value) {
    open spec fn equals(&self, other: &(String, Value)) -> bool {
        self.0@ == other.0@ && equal_values(self.1, other.1)
    }

    fn same(&self, other: &(String, Value)) -> bool {
        self.0 == other.0 && same_value(&self.1, &other.1)
    }
}

/// Whether two lists are equal, item by item.
pub open spec fn equal_lists<T: Same>(a: Seq<T>, b: Seq<T>) -> bool {
    &&& a.len() == b.len()
    &&& forall|i: int| 0 <= i < a.len() ==> (#[trigger] a[i]).equals(&b[i])
}

/// Whether two optional items are equal.
pub open spec fn equal_options<T: Same>(a: Option<T>, b: Option<T>) -> bool {
    match (a, b) {
        (Some(a), Some(b)) => a.equals(&b),
        (None, None) => true,
        _ => false,
    }
}

/// Whether two lists are equal, item by item.
pub fn same_list<T: Same>(a: &Vec<T>, b: &Vec<T>) -> (same: bool)
    ensures
        same == equal_lists(a@, b@),
{
    if a.len() != b.len() {
        return false;
    }
    let mut i: usize = 0;
    while i < a.len()
        invariant
            i <= a@.len(),
            a@.len() == b@.len(),
            forall|j: int| 0 <= j < i ==> (#[trigger] a@[j]).equals(&b@[j]),
        decreases a@.len() - i,
    {
        if !a[i].same(&b[i]) {
            assert(!a@[i as int].equals(&b@[i as int]));
            return false;
        }
        i += 1;
    }
    true
}

/// Whether two optional items are equal.
pub fn same_option<T: Same>(a: &Option<T>, b: &Option<T>) -> (same: bool)
    ensures
        same == equal_options(*a, *b),
{
    match (a, b) {
        (Some(a), Some(b)) => a.same(b),
        (None, None) => true,
        _ => false,
    }
}

} // verus!
