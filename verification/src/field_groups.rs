//! Fields that share a response key, grouped in the order in which the keys come up.
use vstd::prelude::*;

use std::sync::Arc;

use indexmap::IndexMap;

use crate::query::Field;
use crate::query::response_key;

verus! {

/// A hash map that remembers the order in which its keys were first put in.
#[verifier::external_type_specification]
#[verifier::external_body]
#[verifier::reject_recursive_types(K)]
#[verifier::reject_recursive_types(V)]
#[verifier::reject_recursive_types(S)]
pub struct ExIndexMap<K, V, S>(IndexMap<K, V, S>);

/// The fields of a selection set, by response key.
pub type FieldGroups = IndexMap<String, Vec<Arc<Field>>>;

/// Response keys, each with its fields.
pub type Groups = Seq<(Seq<char>, Seq<Arc<Field>>)>;

/// What a map of field groups holds: its keys with their fields, in the order of the map.
pub uninterp spec fn field_groups(map: IndexMap<String, Vec<Arc<Field>>>) -> Seq<
    (Seq<char>, Seq<Arc<Field>>),
>;

/// Whether `groups` has a group for `key`.
pub open spec fn has_group(groups: Groups, key: Seq<char>) -> bool {
    exists|i: int| 0 <= i < groups.len() && (#[trigger] groups[i]).0 == key
}

/// An empty map, by `IndexMap::new`.
#[verifier::external_body]
pub(crate) fn no_groups() -> (map: FieldGroups)
    ensures
        field_groups(map) == Seq::<(Seq<char>, Seq<Arc<Field>>)>::empty(),
{
    IndexMap::new()
}

/// The group of `key`, by `IndexMap::entry` and `Entry::or_default`. A key that the map does not
/// have gets an empty group behind all others; a key that it has keeps its place. What the caller
/// makes of the group is what the map then holds.
#[verifier::external_body]
pub(crate) fn group_of(map: &mut FieldGroups, key: String) -> (group: &mut Vec<Arc<Field>>)
    ensures
        !has_group(field_groups(*old(map)), key@) ==> group@ == Seq::<Arc<Field>>::empty()
            && field_groups(*final(map)) == field_groups(*old(map)).push((key@, final(group)@)),
        forall|i: int|
            0 <= i < field_groups(*old(map)).len() && (#[trigger] field_groups(*old(map))[i]).0
                == key@ ==> group@ == field_groups(*old(map))[i].1 && field_groups(*final(map))
                == field_groups(*old(map)).update(i, (key@, final(group)@)),
{
    map.entry(key).or_default()
}

/// The groups one after the other, by `IndexMap::into_iter`, which goes by the order of the map.
#[verifier::external_body]
pub(crate) fn into_groups(map: FieldGroups) -> (groups: Vec<(String, Vec<Arc<Field>>)>)
    ensures
        groups@.len() == field_groups(map).len(),
        forall|i: int|
            0 <= i < groups@.len() ==> (#[trigger] groups@[i]).0@ == field_groups(map)[i].0
                && groups@[i].1@ == field_groups(map)[i].1,
{
    map.into_iter().collect()
}

/// `keys` with `key` behind them, unless it is one of them.
pub open spec fn with_key(keys: Seq<Seq<char>>, key: Seq<char>) -> Seq<Seq<char>> {
    if keys.contains(key) {
        keys
    } else {
        keys.push(key)
    }
}

/// `keys` with those of `more` behind them that are new, each once.
pub open spec fn with_keys(keys: Seq<Seq<char>>, more: Seq<Seq<char>>) -> Seq<Seq<char>>
    decreases more.len(),
{
    if more.len() == 0 {
        keys
    } else {
        with_key(with_keys(keys, more.drop_last()), more.last())
    }
}

/// The response keys of `fields`, one by one.
pub open spec fn keys_of(fields: Seq<Arc<Field>>) -> Seq<Seq<char>> {
    Seq::new(fields.len(), |i: int| response_key(*fields[i])@)
}

/// The response keys of `fields`, each once, in the order in which they come up.
pub open spec fn distinct_keys(fields: Seq<Arc<Field>>) -> Seq<Seq<char>> {
    with_keys(Seq::empty(), keys_of(fields))
}

/// The fields among `fields` with the response key `key`.
pub open spec fn fields_with_key(fields: Seq<Arc<Field>>, key: Seq<char>) -> Seq<Arc<Field>> {
    fields.filter(|field: Arc<Field>| response_key(*field)@ == key)
}

/// A group for each of `keys`, with the fields that `contents` gives it.
pub open spec fn tabulated(
    keys: Seq<Seq<char>>,
    contents: spec_fn(Seq<char>) -> Seq<Arc<Field>>,
) -> Groups {
    Seq::new(keys.len(), |i: int| (keys[i], contents(keys[i])))
}

/// `fields` grouped by response key: the keys in the order in which they come up, each with its
/// fields in their order.
pub open spec fn grouped(fields: Seq<Arc<Field>>) -> Groups {
    tabulated(distinct_keys(fields), |key: Seq<char>| fields_with_key(fields, key))
}

/// The new keys of two sequences, one behind the other, are those of both together.
proof fn lemma_with_keys_add(keys: Seq<Seq<char>>, a: Seq<Seq<char>>, b: Seq<Seq<char>>)
    ensures
        with_keys(keys, a + b) == with_keys(with_keys(keys, a), b),
    decreases b.len(),
{
    if b.len() == 0 {
        assert(a + b =~= a);
    } else {
        assert((a + b).drop_last() =~= a + b.drop_last());
        lemma_with_keys_add(keys, a, b.drop_last());
    }
}

/// What `with_keys` holds, and that it holds nothing twice if `keys` does not.
proof fn lemma_with_keys_contains(keys: Seq<Seq<char>>, more: Seq<Seq<char>>)
    ensures
        forall|key: Seq<char>| #[trigger]
            with_keys(keys, more).contains(key) == (keys.contains(key) || more.contains(key)),
        keys.no_duplicates() ==> with_keys(keys, more).no_duplicates(),
    decreases more.len(),
{
    if more.len() == 0 {
        assert forall|key: Seq<char>| !more.contains(key) by {}
    } else {
        let rest = more.drop_last();
        let before = with_keys(keys, rest);
        lemma_with_keys_contains(keys, rest);
        assert forall|key: Seq<char>| more.contains(key) == (rest.contains(key) || key
            == more.last()) by {
            if more.contains(key) {
                let i = more.index_of(key);
                if i < rest.len() {
                    assert(rest[i] == key);
                }
            }
            if rest.contains(key) {
                let i = rest.index_of(key);
                assert(more[i] == key);
            }
            assert(more[more.len() - 1] == more.last());
        }
        assert forall|key: Seq<char>| #[trigger]
            with_keys(keys, more).contains(key) == (before.contains(key) || key
                == more.last()) by {
            let after = with_keys(keys, more);
            if !before.contains(more.last()) {
                assert(after == before.push(more.last()));
                assert(after[before.len() as int] == more.last());
                if before.contains(key) {
                    let i = before.index_of(key);
                    assert(after[i] == key);
                }
                if after.contains(key) {
                    let i = after.index_of(key);
                    if i < before.len() {
                        assert(before[i] == key);
                    }
                }
            }
        }
    }
}

/// Adding keys adds nothing more than adding each of them once.
proof fn lemma_with_keys_once(keys: Seq<Seq<char>>, more: Seq<Seq<char>>)
    ensures
        with_keys(keys, more) == with_keys(keys, with_keys(Seq::empty(), more)),
    decreases more.len(),
{
    if more.len() > 0 {
        let rest = more.drop_last();
        let once = with_keys(Seq::empty(), rest);
        lemma_with_keys_once(keys, rest);
        lemma_with_keys_contains(keys, once);
        if !once.contains(more.last()) {
            assert(once.push(more.last()).drop_last() =~= once);
        }
    }
}

/// Putting fields behind the group of `key` changes the contents of that group alone.
proof fn lemma_tabulated_append(
    keys: Seq<Seq<char>>,
    contents: spec_fn(Seq<char>) -> Seq<Arc<Field>>,
    key: Seq<char>,
    added: Seq<Arc<Field>>,
    after: Groups,
)
    requires
        keys.no_duplicates(),
        !keys.contains(key) ==> contents(key) == Seq::<Arc<Field>>::empty(),
        !has_group(tabulated(keys, contents), key) ==> after == tabulated(keys, contents).push(
            (key, added),
        ),
        forall|i: int|
            0 <= i < keys.len() && (#[trigger] tabulated(keys, contents)[i]).0 == key ==> after
                == tabulated(keys, contents).update(
                i,
                (key, tabulated(keys, contents)[i].1 + added),
            ),
    ensures
        after == tabulated(
            with_key(keys, key),
            |k: Seq<char>|
                if k == key {
                    contents(k) + added
                } else {
                    contents(k)
                },
        ),
{
    let before = tabulated(keys, contents);
    let expected = tabulated(
        with_key(keys, key),
        |k: Seq<char>|
            if k == key {
                contents(k) + added
            } else {
                contents(k)
            },
    );
    if keys.contains(key) {
        let i = keys.index_of(key);
        assert(before[i].0 == key);
        assert(after =~= expected);
    } else {
        if has_group(before, key) {
            let i = choose|i: int| 0 <= i < before.len() && (#[trigger] before[i]).0 == key;
            assert(keys[i] == key);
        }
        assert(contents(key) + added =~= added);
        assert forall|i: int| 0 <= i < keys.len() implies expected[i] == before[i] by {
            assert(keys.contains(keys[i]));
        }
        assert(after =~= expected);
    }
}

/// Puts `field` behind the fields of its group, which is made on demand.
pub(crate) fn add_field(
    map: &mut FieldGroups,
    field: Arc<Field>,
    key: String,
    Ghost(fields): Ghost<Seq<Arc<Field>>>,
)
    requires
        key == response_key(*field),
        field_groups(*old(map)) == grouped(fields),
    ensures
        field_groups(*final(map)) == grouped(fields.push(field)),
{
    let ghost before = field_groups(*map);
    let group = group_of(map, key);
    let ghost group_before = group@;
    group.push(field);
    proof {
        let keys = distinct_keys(fields);
        let contents = |k: Seq<char>| fields_with_key(fields, k);
        assert(group_before.push(field) =~= group_before + seq![field]);
        assert(Seq::<Arc<Field>>::empty().push(field) =~= seq![field]);
        lemma_with_keys_contains(Seq::empty(), keys_of(fields));
        if !keys.contains(key@) {
            lemma_no_field_with_key(fields, key@);
        }
        lemma_tabulated_append(keys, contents, key@, seq![field], field_groups(*map));
        lemma_keys_of_add(fields, seq![field]);
        lemma_with_keys_add(Seq::empty(), keys_of(fields), keys_of(seq![field]));
        reveal_with_fuel(with_keys, 2);
        assert(keys_of(seq![field]) =~= seq![key@]);
        assert(seq![key@].drop_last() =~= Seq::<Seq<char>>::empty());
        assert(fields + seq![field] =~= fields.push(field));
        assert(with_key(keys, key@) == distinct_keys(fields.push(field)));
        assert forall|k: Seq<char>| #[trigger] fields_with_key(fields.push(field), k) == (if k
            == key@ {
            fields_with_key(fields, k) + seq![field]
        } else {
            fields_with_key(fields, k)
        }) by {
            lemma_fields_with_key_push(fields, field, k);
        }
        assert(field_groups(*map) =~= grouped(fields.push(field)));
    }
}

/// The groups of `fields` after the first `n` groups of `added` have been put behind them.
spec fn partly_merged(fields: Seq<Arc<Field>>, added: Seq<Arc<Field>>, n: int) -> Groups {
    tabulated(
        with_keys(distinct_keys(fields), distinct_keys(added).take(n)),
        partly_merged_contents(fields, added, n),
    )
}

/// What each group then holds.
spec fn partly_merged_contents(
    fields: Seq<Arc<Field>>,
    added: Seq<Arc<Field>>,
    n: int,
) -> spec_fn(Seq<char>) -> Seq<Arc<Field>> {
    |key: Seq<char>|
        if distinct_keys(added).take(n).contains(key) {
            fields_with_key(fields, key) + fields_with_key(added, key)
        } else {
            fields_with_key(fields, key)
        }
}

/// Before the first group of `added`, the groups are those of `fields`.
proof fn lemma_merge_starts(fields: Seq<Arc<Field>>, added: Seq<Arc<Field>>)
    ensures
        partly_merged(fields, added, 0) == grouped(fields),
{
    assert(distinct_keys(added).take(0) =~= Seq::empty());
    assert(partly_merged(fields, added, 0) =~= grouped(fields));
}

/// Putting the next group of `added` behind the group of its key goes one step on.
proof fn lemma_merge_goes_on(
    fields: Seq<Arc<Field>>,
    added: Seq<Arc<Field>>,
    n: int,
    after: Groups,
)
    requires
        0 <= n < grouped(added).len(),
        ({
            let before = partly_merged(fields, added, n);
            let (key, group) = grouped(added)[n];
            &&& !has_group(before, key) ==> after == before.push((key, group))
            &&& forall|i: int|
                0 <= i < before.len() && (#[trigger] before[i]).0 == key ==> after
                    == before.update(i, (key, before[i].1 + group))
        }),
    ensures
        after == partly_merged(fields, added, n + 1),
{
    let added_keys = distinct_keys(added);
    let (key, group) = grouped(added)[n];
    let done = added_keys.take(n);
    let keys = with_keys(distinct_keys(fields), done);
    let contents = partly_merged_contents(fields, added, n);
    lemma_with_keys_contains(Seq::empty(), keys_of(fields));
    lemma_with_keys_contains(Seq::empty(), keys_of(added));
    lemma_with_keys_contains(distinct_keys(fields), done);
    assert(!done.contains(key)) by {
        if done.contains(key) {
            let i = done.index_of(key);
            assert(added_keys[i] == added_keys[n]);
        }
    }
    if !keys.contains(key) {
        lemma_no_field_with_key(fields, key);
    }
    lemma_tabulated_append(keys, contents, key, group, after);
    let next = added_keys.take(n + 1);
    assert(next =~= done.push(key));
    assert(next.drop_last() =~= done);
    assert(with_keys(distinct_keys(fields), next) == with_key(keys, key));
    assert forall|k: Seq<char>| next.contains(k) == (done.contains(k) || k == key) by {
        assert(next[n] == key);
        if done.contains(k) {
            assert(next[done.index_of(k)] == k);
        }
        if next.contains(k) {
            let i = next.index_of(k);
            if i < n {
                assert(done[i] == k);
            }
        }
    }
    assert(after =~= partly_merged(fields, added, n + 1));
}

/// Behind the last group of `added`, the groups are those of both.
proof fn lemma_merge_ends(fields: Seq<Arc<Field>>, added: Seq<Arc<Field>>)
    ensures
        partly_merged(fields, added, grouped(added).len() as int) == grouped(fields + added),
{
    let added_keys = distinct_keys(added);
    assert(added_keys.take(added_keys.len() as int) =~= added_keys);
    lemma_with_keys_once(distinct_keys(fields), keys_of(added));
    lemma_keys_of_add(fields, added);
    lemma_with_keys_add(Seq::empty(), keys_of(fields), keys_of(added));
    lemma_with_keys_contains(Seq::empty(), keys_of(added));
    assert forall|key: Seq<char>| #[trigger]
        partly_merged_contents(fields, added, grouped(added).len() as int)(key)
            == fields_with_key(fields + added, key) by {
        lemma_fields_with_key_add(fields, added, key);
        if !added_keys.contains(key) {
            lemma_no_field_with_key(added, key);
            assert(fields_with_key(fields, key) + Seq::<Arc<Field>>::empty() =~= fields_with_key(
                fields,
                key,
            ));
        }
    }
    assert(partly_merged(fields, added, grouped(added).len() as int) =~= grouped(fields + added));
}

/// Puts each group of `more` behind the group of its key, which is made on demand.
pub(crate) fn add_groups(
    map: &mut FieldGroups,
    more: FieldGroups,
    Ghost(fields): Ghost<Seq<Arc<Field>>>,
    Ghost(added): Ghost<Seq<Arc<Field>>>,
)
    requires
        field_groups(*old(map)) == grouped(fields),
        field_groups(more) == grouped(added),
    ensures
        field_groups(*final(map)) == grouped(fields + added),
{
    let groups = into_groups(more);
    proof { lemma_merge_starts(fields, added); }
    for entry in it: groups
        invariant
            it.seq() == groups@,
            groups@.len() == grouped(added).len(),
            forall|i: int|
                0 <= i < groups@.len() ==> (#[trigger] groups@[i]).0@ == grouped(added)[i].0
                    && groups@[i].1@ == grouped(added)[i].1,
            field_groups(*map) == partly_merged(fields, added, it.index() as int),
    {
        let ghost n = it.index() as int;
        let (key, group) = entry;
        let mut group = group;
        let target = group_of(map, key);
        target.append(&mut group);
        proof {
            assert(groups@[n].0@ == grouped(added)[n].0);
            assert(Seq::<Arc<Field>>::empty() + groups@[n].1@ =~= groups@[n].1@);
            lemma_merge_goes_on(fields, added, n, field_groups(*map));
        }
    }
    proof { lemma_merge_ends(fields, added); }
}

/// The keys of two sequences of fields, one behind the other.
proof fn lemma_keys_of_add(a: Seq<Arc<Field>>, b: Seq<Arc<Field>>)
    ensures
        keys_of(a + b) == keys_of(a) + keys_of(b),
{
    assert(keys_of(a + b) =~= keys_of(a) + keys_of(b));
}

/// A field behind the others is behind the others of its key.
proof fn lemma_fields_with_key_push(fields: Seq<Arc<Field>>, field: Arc<Field>, key: Seq<char>)
    ensures
        fields_with_key(fields.push(field), key) == (if response_key(*field)@ == key {
            fields_with_key(fields, key) + seq![field]
        } else {
            fields_with_key(fields, key)
        }),
{
    reveal(Seq::filter);
    assert(fields.push(field).drop_last() =~= fields);
    assert(fields_with_key(fields, key).push(field) =~= fields_with_key(fields, key) + seq![field]);
}

/// The fields of a key in two sequences, one behind the other.
proof fn lemma_fields_with_key_add(a: Seq<Arc<Field>>, b: Seq<Arc<Field>>, key: Seq<char>)
    ensures
        fields_with_key(a + b, key) == fields_with_key(a, key) + fields_with_key(b, key),
    decreases b.len(),
{
    if b.len() == 0 {
        assert(a + b =~= a);
        reveal(Seq::filter);
        assert(fields_with_key(b, key) =~= Seq::empty());
        assert(fields_with_key(a, key) + fields_with_key(b, key) =~= fields_with_key(a, key));
    } else {
        let rest = b.drop_last();
        lemma_fields_with_key_add(a, rest, key);
        assert(a + b =~= (a + rest).push(b.last()));
        assert(b =~= rest.push(b.last()));
        lemma_fields_with_key_push(a + rest, b.last(), key);
        lemma_fields_with_key_push(rest, b.last(), key);
        assert(fields_with_key(a + b, key) =~= fields_with_key(a, key) + fields_with_key(b, key));
    }
}

/// Where a key does not come up, it has no field.
proof fn lemma_no_field_with_key(fields: Seq<Arc<Field>>, key: Seq<char>)
    requires
        !keys_of(fields).contains(key),
    ensures
        fields_with_key(fields, key) == Seq::<Arc<Field>>::empty(),
    decreases fields.len(),
{
    reveal(Seq::filter);
    if fields.len() > 0 {
        let rest = fields.drop_last();
        assert forall|i: int| 0 <= i < rest.len() implies keys_of(rest)[i] != key by {
            assert(keys_of(fields)[i] == keys_of(rest)[i]);
        }
        lemma_no_field_with_key(rest, key);
        assert(keys_of(fields)[fields.len() - 1] != key);
    }
}

/// No response key has two groups.
pub proof fn group_keys_are_distinct(fields: Seq<Arc<Field>>, i: int, j: int)
    requires
        0 <= i < j < grouped(fields).len(),
    ensures
        grouped(fields)[i].0 != grouped(fields)[j].0,
{
    lemma_with_keys_contains(Seq::empty(), keys_of(fields));
}

/// A group holds the fields with its response key, in the order of `fields`, and at least one.
pub proof fn group_holds_fields_of_its_key(fields: Seq<Arc<Field>>, i: int)
    requires
        0 <= i < grouped(fields).len(),
    ensures
        grouped(fields)[i].1 == fields_with_key(fields, grouped(fields)[i].0),
        grouped(fields)[i].1 == fields.filter(
            |field: Arc<Field>| response_key(*field)@ == grouped(fields)[i].0,
        ),
        grouped(fields)[i].1.len() > 0,
{
    let key = grouped(fields)[i].0;
    lemma_with_keys_contains(Seq::empty(), keys_of(fields));
    assert(distinct_keys(fields).contains(key));
    lemma_fields_with_key(fields, key);
    let j = keys_of(fields).index_of(key);
    assert(fields_with_key(fields, key).contains(fields[j]));
}

/// Each field of a group is one of `fields`, and has the response key of the group.
pub proof fn field_with_key(fields: Seq<Arc<Field>>, i: int, j: int)
    requires
        0 <= i < grouped(fields).len(),
        0 <= j < grouped(fields)[i].1.len(),
    ensures
        fields.contains(grouped(fields)[i].1[j]),
        response_key(*grouped(fields)[i].1[j])@ == grouped(fields)[i].0,
{
    lemma_fields_with_key(fields, grouped(fields)[i].0);
    assert(fields_with_key(fields, grouped(fields)[i].0).contains(grouped(fields)[i].1[j]));
}

/// What `fields_with_key` holds.
proof fn lemma_fields_with_key(fields: Seq<Arc<Field>>, key: Seq<char>)
    ensures
        forall|field: Arc<Field>| #[trigger]
            fields_with_key(fields, key).contains(field) == (fields.contains(field)
                && response_key(*field)@ == key),
    decreases fields.len(),
{
    reveal(Seq::filter);
    if fields.len() == 0 {
        assert forall|field: Arc<Field>| !fields.contains(field) by {}
    } else {
        let rest = fields.drop_last();
        let last = fields.last();
        lemma_fields_with_key(rest, key);
        assert(fields =~= rest.push(last));
        lemma_fields_with_key_push(rest, last, key);
        assert forall|field: Arc<Field>| fields.contains(field) == (rest.contains(field) || field
            == last) by {
            lemma_push_contains(rest, last, field);
        }
        assert forall|field: Arc<Field>| #[trigger]
            fields_with_key(fields, key).contains(field) == (fields.contains(field)
                && response_key(*field)@ == key) by {
            assert(fields_with_key(rest, key) + seq![last] =~= fields_with_key(rest, key).push(
                last,
            ));
            lemma_push_contains(fields_with_key(rest, key), last, field);
            assert(fields_with_key(rest, key).contains(field) == (rest.contains(field)
                && response_key(*field)@ == key));
        }
    }
}

/// What a sequence holds after an item has been put behind it.
proof fn lemma_push_contains(items: Seq<Arc<Field>>, last: Arc<Field>, item: Arc<Field>)
    ensures
        items.push(last).contains(item) == (items.contains(item) || item == last),
{
    let after = items.push(last);
    assert(after[items.len() as int] == last);
    if items.contains(item) {
        assert(after[items.index_of(item)] == item);
    }
    if after.contains(item) {
        let i = after.index_of(item);
        if i < items.len() {
            assert(items[i] == item);
        }
    }
}

/// The groups stand in the order in which their response keys come up: before the first field of a
/// group comes one of each group before it.
pub proof fn groups_stand_in_the_order_of_their_fields(fields: Seq<Arc<Field>>, i: int, j: int)
    requires
        0 <= i < j < grouped(fields).len(),
    ensures
        exists|a: int|
            0 <= a < fields.len() && response_key(*#[trigger] fields[a])@ == grouped(fields)[i].0
                && forall|b: int|
                0 <= b <= a ==> response_key(*#[trigger] fields[b])@ != grouped(fields)[j].0,
{
    let keys = keys_of(fields);
    let a = lemma_first_before(keys, i, j);
    assert(response_key(*fields[a])@ == keys[a]);
    assert forall|b: int| 0 <= b <= a implies response_key(*#[trigger] fields[b])@
        != grouped(fields)[j].0 by {
        assert(keys[b] != distinct_keys(fields)[j]);
    }
}

/// Keys that are added one by one stand in the order in which they come up.
proof fn lemma_first_before(more: Seq<Seq<char>>, i: int, j: int) -> (a: int)
    requires
        0 <= i < j < with_keys(Seq::empty(), more).len(),
    ensures
        0 <= a < more.len(),
        more[a] == with_keys(Seq::empty(), more)[i],
        forall|b: int| 0 <= b <= a ==> #[trigger] more[b] != with_keys(Seq::empty(), more)[j],
    decreases more.len(),
{
    let rest = more.drop_last();
    let before = with_keys(Seq::empty(), rest);
    lemma_with_keys_contains(Seq::empty(), rest);
    if j < before.len() {
        let a = lemma_first_before(rest, i, j);
        assert forall|b: int| 0 <= b <= a implies #[trigger] more[b] != before[j] by {
            assert(rest[b] != before[j]);
        }
        a
    } else {
        assert(before.contains(before[i]));
        let a = rest.index_of(before[i]);
        assert forall|b: int| 0 <= b <= a implies #[trigger] more[b] != more.last() by {
            assert(rest.contains(rest[b]));
        }
        a
    }
}

/// Every field is in the group of its response key.
pub proof fn every_field_has_a_group(fields: Seq<Arc<Field>>, i: int)
    requires
        0 <= i < fields.len(),
    ensures
        exists|j: int|
            0 <= j < grouped(fields).len() && (#[trigger] grouped(fields)[j]).0 == response_key(
                *fields[i],
            )@ && grouped(fields)[j].1.contains(fields[i]),
{
    let key = keys_of(fields)[i];
    lemma_with_keys_contains(Seq::empty(), keys_of(fields));
    assert(keys_of(fields).contains(key));
    assert(distinct_keys(fields).contains(key));
    let j = distinct_keys(fields).index_of(key);
    assert(grouped(fields)[j].0 == key);
    lemma_fields_with_key(fields, key);
    assert(fields.contains(fields[i]));
    assert(grouped(fields)[j].1.contains(fields[i]));
}

/// Further fields, all with a response key that is new, make one group behind the others.
pub proof fn fields_of_a_new_key_make_a_group(
    fields: Seq<Arc<Field>>,
    added: Seq<Arc<Field>>,
    key: Seq<char>,
)
    requires
        added.len() > 0,
        forall|i: int| 0 <= i < added.len() ==> response_key(*#[trigger] added[i])@ == key,
        !keys_of(fields).contains(key),
    ensures
        grouped(fields + added) == grouped(fields).push((key, added)),
{
    let keys = distinct_keys(fields);
    lemma_keys_of_add(fields, added);
    lemma_with_keys_add(Seq::empty(), keys_of(fields), keys_of(added));
    lemma_with_keys_contains(Seq::empty(), keys_of(fields));
    assert(!keys.contains(key));
    lemma_with_same_key(keys, keys_of(added), key);
    lemma_no_field_with_key(fields, key);
    lemma_all_with_key(added, key);
    assert forall|k: Seq<char>| #[trigger] fields_with_key(fields + added, k) == (if k == key {
        added
    } else {
        fields_with_key(fields, k)
    }) by {
        lemma_fields_with_key_add(fields, added, k);
        if k == key {
            assert(Seq::<Arc<Field>>::empty() + added =~= added);
        } else {
            assert(!keys_of(added).contains(k));
            lemma_no_field_with_key(added, k);
            assert(fields_with_key(fields, k) + Seq::<Arc<Field>>::empty() =~= fields_with_key(
                fields,
                k,
            ));
        }
    }
    assert forall|i: int| 0 <= i < keys.len() implies keys[i] != key by {
        assert(keys.contains(keys[i]));
    }
    assert(grouped(fields + added) =~= grouped(fields).push((key, added)));
}

/// A new key that comes up several times is added once.
proof fn lemma_with_same_key(keys: Seq<Seq<char>>, more: Seq<Seq<char>>, key: Seq<char>)
    requires
        more.len() > 0,
        forall|i: int| 0 <= i < more.len() ==> #[trigger] more[i] == key,
        !keys.contains(key),
    ensures
        with_keys(keys, more) == keys.push(key),
    decreases more.len(),
{
    assert(more.last() == key);
    if more.len() == 1 {
        assert(with_keys(keys, more.drop_last()) == keys);
    } else {
        lemma_with_same_key(keys, more.drop_last(), key);
        assert(keys.push(key)[keys.len() as int] == key);
    }
}

/// Where all fields have the same key, they are the fields of that key.
proof fn lemma_all_with_key(fields: Seq<Arc<Field>>, key: Seq<char>)
    requires
        forall|i: int| 0 <= i < fields.len() ==> response_key(*#[trigger] fields[i])@ == key,
    ensures
        fields_with_key(fields, key) == fields,
    decreases fields.len(),
{
    reveal(Seq::filter);
    if fields.len() > 0 {
        let rest = fields.drop_last();
        lemma_all_with_key(rest, key);
        assert(response_key(*fields.last())@ == key);
        assert(rest.push(fields.last()) =~= fields);
    } else {
        assert(fields_with_key(fields, key) =~= fields);
    }
}

} // verus!
