//! The selections of fields that are executed together.
use vstd::prelude::*;

use std::sync::Arc;

use crate::query::Field;
use crate::query::Selection;
use crate::query::SelectionSet;
use crate::value::Pos;

verus! {

/// The selections of `fields`, one field behind the other.
pub open spec fn merged_items(fields: Seq<Arc<Field>>) -> Seq<Selection>
    decreases fields.len(),
{
    if fields.len() == 0 {
        Seq::empty()
    } else {
        merged_items(fields.drop_last()) + fields.last().selection_set.items@
    }
}

/// From the earliest start to the latest end of the selection sets of `fields`.
pub open spec fn merged_span(fields: Seq<Arc<Field>>) -> (Pos, Pos)
    decreases fields.len(),
{
    if fields.len() <= 1 {
        fields[0].selection_set.span
    } else {
        let (start, end) = merged_span(fields.drop_last());
        let span = fields.last().selection_set.span;
        (start.earlier_of(span.0), end.later_of(span.1))
    }
}

/// Merges the selection sets of several fields into a single selection set.
pub fn merge_selection_sets(fields: &Vec<Arc<Field>>) -> (merged: SelectionSet)
    requires
        fields@.len() > 0,
    ensures
        merged.items@ == merged_items(fields@),
        merged.span == merged_span(fields@),
{
    let mut span = fields[0].selection_set.span;
    let mut items: Vec<Selection> = Vec::new();
    let mut i: usize = 0;
    assert(fields@.take(0) =~= Seq::empty());
    while i < fields.len()
        invariant
            i <= fields@.len(),
            fields@.len() > 0,
            items@ == merged_items(fields@.take(i as int)),
            i == 0 ==> span == fields@[0].selection_set.span,
            i > 0 ==> span == merged_span(fields@.take(i as int)),
        decreases fields@.len() - i,
    {
        let field = &fields[i];
        let set = &field.selection_set;
        let ghost before = items@;
        assert(fields@.take(i + 1).drop_last() =~= fields@.take(i as int));
        if i > 0 {
            // The overall span is the min/max spans of all merged selection sets
            span = (span.0.min(set.span.0), span.1.max(set.span.1));
        }
        // The overall selection is the result of merging the selections of all fields
        items.extend_from_slice(set.items.as_slice());
        assert(items@ =~= before + set.items@);
        i += 1;
    }
    assert(fields@.take(fields@.len() as int) =~= fields@);
    SelectionSet { span, items }
}

/// The span of a merged set covers the span of each of the sets.
pub proof fn merged_span_covers(fields: Seq<Arc<Field>>, i: int)
    requires
        0 <= i < fields.len(),
    ensures
        merged_span(fields).0.le(fields[i].selection_set.span.0),
        fields[i].selection_set.span.1.le(merged_span(fields).1),
    decreases fields.len(),
{
    if fields.len() > 1 {
        if i < fields.len() - 1 {
            merged_span_covers(fields.drop_last(), i);
        }
    }
}

/// The span of a merged set starts where one of the sets does and ends where one of them does.
pub proof fn merged_span_is_tight(fields: Seq<Arc<Field>>) -> (places: (int, int))
    requires
        fields.len() > 0,
    ensures
        0 <= places.0 < fields.len(),
        0 <= places.1 < fields.len(),
        merged_span(fields).0 == fields[places.0].selection_set.span.0,
        merged_span(fields).1 == fields[places.1].selection_set.span.1,
    decreases fields.len(),
{
    if fields.len() == 1 {
        (0, 0)
    } else {
        let last = fields.len() - 1;
        let (first, second) = merged_span_is_tight(fields.drop_last());
        let (start, end) = merged_span(fields.drop_last());
        (
            if start.le(fields[last].selection_set.span.0) { first } else { last },
            if end.le(fields[last].selection_set.span.1) { last } else { second },
        )
    }
}

/// Merging the set of a single field gives that set back, and merging none gives no selections.
pub proof fn merging_one_is_identity(field: Arc<Field>)
    ensures
        merged_items(Seq::empty()).len() == 0,
        merged_items(seq![field]) == field.selection_set.items@,
        merged_span(seq![field]) == field.selection_set.span,
{
    assert(seq![field].drop_last() =~= Seq::empty());
    assert(merged_items(seq![field]) =~= field.selection_set.items@) by {
        reveal_with_fuel(merged_items, 2);
    }
}

/// Merging in two parts gives the selections of the one behind those of the other.
pub proof fn merging_is_associative(a: Seq<Arc<Field>>, b: Seq<Arc<Field>>)
    ensures
        merged_items(a + b) == merged_items(a) + merged_items(b),
    decreases b.len(),
{
    if b.len() == 0 {
        assert(a + b =~= a);
        assert(merged_items(a) + merged_items(b) =~= merged_items(a));
    } else {
        assert((a + b).drop_last() =~= a + b.drop_last());
        merging_is_associative(a, b.drop_last());
        assert(merged_items(a + b) =~= merged_items(a) + merged_items(b));
    }
}

} // verus!
