//! Maps from names to values, kept in the order of their names.
use vstd::prelude::*;
use vstd::std_specs::iter::IteratorSpec;

verus! {

/// Whether `a` comes before `b`: by the first character at which they differ, and a proper prefix
/// comes before what it starts.
pub open spec fn name_lt(a: Seq<char>, b: Seq<char>) -> bool
    decreases a.len(),
{
    if b.len() == 0 {
        false
    } else if a.len() == 0 {
        true
    } else if a[0] != b[0] {
        a[0] < b[0]
    } else {
        name_lt(a.drop_first(), b.drop_first())
    }
}

/// No name comes before itself, and of two different names one comes before the other.
pub proof fn lemma_name_lt_total(a: Seq<char>, b: Seq<char>)
    ensures
        a == b ==> !name_lt(a, b),
        a != b ==> name_lt(a, b) != name_lt(b, a),
    decreases a.len(),
{
    if a.len() > 0 && b.len() > 0 && a[0] == b[0] {
        lemma_name_lt_total(a.drop_first(), b.drop_first());
        if a.drop_first() == b.drop_first() {
            assert(a =~= seq![a[0]] + a.drop_first());
            assert(b =~= seq![b[0]] + b.drop_first());
        }
    } else if a.len() == 0 && b.len() == 0 {
        assert(a =~= b);
    }
}

/// The order of names is transitive.
pub proof fn lemma_name_lt_transitive(a: Seq<char>, b: Seq<char>, c: Seq<char>)
    requires
        name_lt(a, b),
        name_lt(b, c),
    ensures
        name_lt(a, c),
    decreases a.len(),
{
    if a.len() > 0 && a[0] == b[0] && b[0] == c[0] {
        lemma_name_lt_transitive(a.drop_first(), b.drop_first(), c.drop_first());
    }
}

/// Whether the name `a` comes before the name `b`.
pub fn name_before(a: &String, b: &String) -> (before: bool)
    ensures
        before == name_lt(a@, b@),
{
    let mut left = a.as_str().chars();
    let mut right = b.as_str().chars();
    loop
        invariant
            name_lt(a@, b@) == name_lt(left.remaining(), right.remaining()),
            left.decrease() is Some,
        decreases left.decrease()->0,
    {
        let x = left.next();
        let y = right.next();
        match (x, y) {
            (_, None) => return false,
            (None, Some(_)) => return true,
            (Some(x), Some(y)) => {
                if x != y {
                    return x < y;
                }
            },
        }
    }
}

/// Whether the names of `entries` ascend, so that none occurs twice.
pub open spec fn ascending<V>(entries: Seq<(String, V)>) -> bool {
    forall|i: int, j: int|
        0 <= i < j < entries.len() ==> name_lt(#[trigger] entries[i].0@, #[trigger] entries[j].0@)
}

/// The map that `entries` lists.
pub open spec fn map_of<V>(entries: Seq<(String, V)>) -> Map<Seq<char>, V> {
    Map::new(
        |name: Seq<char>| lists(entries, name),
        |name: Seq<char>| entries[place_of(entries, name)].1,
    )
}

/// Whether `entries` has an entry for `name`.
pub open spec fn lists<V>(entries: Seq<(String, V)>, name: Seq<char>) -> bool {
    exists|i: int| 0 <= i < entries.len() && #[trigger] entries[i].0@ == name
}

/// Where `entries` has its entry for `name`.
pub open spec fn place_of<V>(entries: Seq<(String, V)>, name: Seq<char>) -> int {
    choose|i: int| 0 <= i < entries.len() && #[trigger] entries[i].0@ == name
}

/// In a list of ascending names, an entry is the one that the map has for its name.
pub proof fn lemma_entry_in_map<V>(entries: Seq<(String, V)>, i: int)
    requires
        ascending(entries),
        0 <= i < entries.len(),
    ensures
        map_of(entries).contains_key(entries[i].0@),
        map_of(entries)[entries[i].0@] == entries[i].1,
{
    let j = place_of(entries, entries[i].0@);
    assert(entries[i].0@ == entries[i].0@);
    assert(0 <= j < entries.len() && entries[j].0@ == entries[i].0@);
    lemma_name_lt_total(entries[i].0@, entries[j].0@);
    if i < j {
        assert(name_lt(entries[i].0@, entries[j].0@));
    } else if j < i {
        assert(name_lt(entries[j].0@, entries[i].0@));
    }
}

/// A map from names to values. Its entries stand in the order of their names.
#[derive(Debug, PartialEq, Eq)]
pub struct NameMap<V> {
    entries: Vec<(String, V)>,
}

impl<V> View for NameMap<V> {
    type V = Map<Seq<char>, V>;

    open spec fn view(&self) -> Map<Seq<char>, V> {
        map_of(self.listing())
    }
}

impl<V> NameMap<V> {
    /// The entries in the order of their names.
    pub closed spec fn listing(self) -> Seq<(String, V)> {
        self.entries@
    }

    #[verifier::type_invariant]
    spec fn in_order(self) -> bool {
        ascending(self.entries@)
    }

    /// The empty map.
    pub fn new() -> (map: Self)
        ensures
            map.listing() == Seq::<(String, V)>::empty(),
            map@ == Map::<Seq<char>, V>::empty(),
    {
        let map = NameMap { entries: Vec::new() };
        assert(map@ =~= Map::<Seq<char>, V>::empty());
        map
    }

    /// The number of entries.
    pub fn len(&self) -> (len: usize)
        ensures
            len == self.listing().len(),
            ascending(self.listing()),
    {
        proof { use_type_invariant(self); }
        self.entries.len()
    }

    /// Whether the map has no entry.
    pub fn is_empty(&self) -> (empty: bool)
        ensures
            empty == (self@ == Map::<Seq<char>, V>::empty()),
    {
        proof {
            if self.entries@.len() == 0 {
                assert(self@ =~= Map::<Seq<char>, V>::empty());
            } else {
                use_type_invariant(self);
                lemma_entry_in_map(self.entries@, 0);
                assert(self@.contains_key(self.entries@[0].0@));
            }
        }
        self.entries.len() == 0
    }

    /// The entry at `place` in the order of names.
    pub fn entry(&self, place: usize) -> (entry: &(String, V))
        requires
            place < self.listing().len(),
        ensures
            *entry == self.listing()[place as int],
            self@.contains_key(entry.0@),
            self@[entry.0@] == entry.1,
    {
        proof {
            use_type_invariant(self);
            lemma_entry_in_map(self.entries@, place as int);
        }
        &self.entries[place]
    }

    /// The value of `name`, if the map has one.
    pub fn get(&self, name: &String) -> (value: Option<&V>)
        ensures
            match value {
                Some(v) => self@.contains_key(name@) && self@[name@] == *v,
                None => !self@.contains_key(name@),
            },
    {
        let mut i: usize = 0;
        while i < self.entries.len()
            invariant
                i <= self.entries@.len(),
                forall|j: int| 0 <= j < i ==> #[trigger] self.entries@[j].0@ != name@,
            decreases self.entries@.len() - i,
        {
            if self.entries[i].0 == *name {
                proof {
                    use_type_invariant(self);
                    lemma_entry_in_map(self.entries@, i as int);
                }
                return Some(&self.entries[i].1);
            }
            i += 1;
        }
        None
    }

    /// Gives `name` the value `value`, in place of the value that it may have had.
    pub fn insert(&mut self, name: String, value: V)
        ensures
            final(self)@ == old(self)@.insert(name@, value),
    {
        proof { use_type_invariant(&*self); }
        let mut entries: Vec<(String, V)> = Vec::new();
        std::mem::swap(&mut entries, &mut self.entries);
        let ghost before = entries@;
        let mut place: usize = 0;
        while place < entries.len() && name_before(&entries[place].0, &name)
            invariant
                place <= entries@.len(),
                forall|j: int| 0 <= j < place ==> name_lt(#[trigger] entries@[j].0@, name@),
            decreases entries@.len() - place,
        {
            place += 1;
        }
        let ghost key = name@;
        if place < entries.len() && entries[place].0 == name {
            entries[place] = (name, value);
            proof { lemma_replaced(before, place as int, entries@); }
        } else {
            proof {
                if place < before.len() {
                    lemma_name_lt_total(before[place as int].0@, key);
                }
                lemma_inserted(before, place as int, (name, value));
            }
            entries.insert(place, (name, value));
        }
        self.entries = entries;
    }

    /// Adds an entry whose name comes after every name of the map.
    pub(crate) fn push_last(&mut self, name: String, value: V)
        requires
            forall|i: int|
                0 <= i < old(self).listing().len() ==> name_lt(
                    #[trigger] old(self).listing()[i].0@,
                    name@,
                ),
        ensures
            final(self).listing() == old(self).listing().push((name, value)),
    {
        proof { use_type_invariant(&*self); }
        let mut entries: Vec<(String, V)> = Vec::new();
        std::mem::swap(&mut entries, &mut self.entries);
        proof {
            assert forall|j: int| 0 <= j < entries@.len() implies name_lt(
                #[trigger] entries@[j].0@,
                name@,
            ) by {
                assert(old(self).listing()[j] == entries@[j]);
            }
            lemma_inserted(entries@, entries@.len() as int, (name, value));
            assert(entries@.insert(entries@.len() as int, (name, value)) =~= entries@.push(
                (name, value),
            ));
        }
        entries.push((name, value));
        self.entries = entries;
    }

    /// Adds the entries of `other`. Where both maps have a name, it gets the value of `other`.
    pub fn extend(&mut self, other: NameMap<V>)
        ensures
            final(self)@ == old(self)@.union_prefer_right(other@),
    {
        proof { use_type_invariant(&other); }
        let ghost added = other.entries@;
        let ghost before = self@;
        let mut rest: Vec<(String, V)> = other.entries;
        assert(map_of(added.skip(added.len() as int)) =~= Map::empty());
        assert(self@ =~= before.union_prefer_right(map_of(added.skip(added.len() as int))));
        while rest.len() > 0
            invariant
                rest@.len() <= added.len(),
                rest@ == added.take(rest@.len() as int),
                ascending(added),
                self@ == before.union_prefer_right(map_of(added.skip(rest@.len() as int))),
            decreases rest@.len(),
        {
            let ghost n = rest@.len() as int;
            if let Some((name, value)) = rest.pop() {
                proof {
                    assert(added[n - 1] == (name, value));
                    let tail = added.skip(n);
                    assert forall|i: int, j: int| 0 <= i < j < tail.len() implies name_lt(
                        #[trigger] tail[i].0@,
                        #[trigger] tail[j].0@,
                    ) by {
                        assert(name_lt(added[n + i].0@, added[n + j].0@));
                    }
                    if tail.len() > 0 {
                        assert(name_lt(added[n - 1].0@, added[n].0@));
                    }
                    lemma_inserted(tail, 0, (name, value));
                    assert(tail.insert(0, (name, value)) =~= added.skip(n - 1));
                    assert(self@.insert(name@, value) =~= before.union_prefer_right(
                        map_of(added.skip(n - 1)),
                    ));
                    assert(rest@ =~= added.take(n - 1));
                }
                self.insert(name, value);
            }
        }
        assert(added.skip(0) =~= added);
    }
}

/// A map comes before each of its values in the order by which recursion descends.
pub proof fn lemma_value_smaller<V>(map: NameMap<V>, i: int)
    requires
        0 <= i < map.listing().len(),
    ensures
        decreases_to!(map => map.listing()[i].1),
{
    assert(decreases_to!(map => map.entries));
    assert(decreases_to!(map.entries => map.entries@));
    assert(decreases_to!(map.entries@ => map.entries@[i]));
    assert(decreases_to!(map.entries@[i] => map.entries@[i].1));
}

/// A map comes before the value of each of its names in the order by which recursion descends.
pub proof fn lemma_member_smaller<V>(map: NameMap<V>, name: Seq<char>)
    requires
        map@.contains_key(name),
    ensures
        decreases_to!(map => map@[name]),
{
    lemma_value_smaller(map, place_of(map.listing(), name));
}

/// Replacing the entry at `place` by one of the same name replaces the value of that name.
proof fn lemma_replaced<V>(before: Seq<(String, V)>, place: int, after: Seq<(String, V)>)
    requires
        ascending(before),
        0 <= place < before.len(),
        after == before.update(place, after[place]),
        after[place].0@ == before[place].0@,
    ensures
        ascending(after),
        map_of(after) == map_of(before).insert(after[place].0@, after[place].1),
{
    assert forall|i: int, j: int| 0 <= i < j < after.len() implies name_lt(
        #[trigger] after[i].0@,
        #[trigger] after[j].0@,
    ) by {
        assert(name_lt(before[i].0@, before[j].0@));
    }
    let key = after[place].0@;
    assert forall|name: Seq<char>| lists(after, name) == lists(before, name) by {
        if lists(after, name) {
            let i = place_of(after, name);
            assert(before[i].0@ == name);
        }
        if lists(before, name) {
            let i = place_of(before, name);
            assert(after[i].0@ == name);
        }
    }
    assert forall|name: Seq<char>| lists(after, name) implies #[trigger] map_of(after)[name]
        == map_of(before).insert(key, after[place].1)[name] by {
        let i = place_of(after, name);
        lemma_entry_in_map(after, place);
        lemma_entry_in_map(before, i);
        assert(before[i].0@ == name);
        if name != key {
            assert(i != place);
        }
    }
    assert(lists(before, key)) by {
        assert(before[place].0@ == key);
    }
    assert(map_of(after) =~= map_of(before).insert(key, after[place].1));
}

/// Putting an entry between the smaller and the greater names adds it to the map.
proof fn lemma_inserted<V>(before: Seq<(String, V)>, place: int, entry: (String, V))
    requires
        ascending(before),
        0 <= place <= before.len(),
        forall|j: int| 0 <= j < place ==> name_lt(#[trigger] before[j].0@, entry.0@),
        place < before.len() ==> name_lt(entry.0@, before[place].0@),
    ensures
        ascending(before.insert(place, entry)),
        map_of(before.insert(place, entry)) == map_of(before).insert(entry.0@, entry.1),
{
    let after = before.insert(place, entry);
    let key = entry.0@;
    assert forall|j: int| place <= j < before.len() implies name_lt(
        key,
        #[trigger] before[j].0@,
    ) by {
        if j > place {
            assert(name_lt(before[place].0@, before[j].0@));
            lemma_name_lt_transitive(key, before[place].0@, before[j].0@);
        }
    }
    assert forall|i: int, j: int| 0 <= i < j < after.len() implies name_lt(
        #[trigger] after[i].0@,
        #[trigger] after[j].0@,
    ) by {
        let ib = if i < place { i } else { i - 1 };
        let jb = if j < place { j } else { j - 1 };
        if i != place && j != place {
            assert(name_lt(before[ib].0@, before[jb].0@));
        } else if i == place {
            assert(name_lt(key, before[jb].0@));
        } else {
            assert(name_lt(before[ib].0@, key));
        }
    }
    assert forall|name: Seq<char>| lists(after, name) == (lists(before, name) || name == key) by {
        if lists(after, name) && name != key {
            let i = place_of(after, name);
            let ib = if i < place { i } else { i - 1 };
            assert(before[ib].0@ == name);
        }
        if lists(before, name) {
            let i = place_of(before, name);
            let ia = if i < place { i } else { i + 1 };
            assert(after[ia].0@ == name);
        }
        assert(after[place].0@ == key);
    }
    assert forall|name: Seq<char>| lists(after, name) implies #[trigger] map_of(after)[name]
        == map_of(before).insert(key, entry.1)[name] by {
        lemma_entry_in_map(after, place);
        if name != key {
            let i = place_of(before, name);
            let ia = if i < place { i } else { i + 1 };
            assert(after[ia].0@ == name);
            lemma_entry_in_map(after, ia);
        }
    }
    assert(map_of(after) =~= map_of(before).insert(key, entry.1));
}

} // verus!
