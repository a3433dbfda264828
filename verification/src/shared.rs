//! Shared strings, and the mathematical contents of vectors.

use std::sync::Arc;
use vstd::prelude::*;

verus! {

/// The views of the elements of a sequence, in order.
pub open spec fn views<T: View>(items: Seq<T>) -> Seq<T::V> {
    Seq::new(items.len(), |i: int| items[i]@)
}

/// Appending an element appends its view.
pub broadcast proof fn lemma_views_push<T: View>(items: Seq<T>, item: T)
    ensures
        #[trigger] views(items.push(item)) == views(items).push(item@),
{
    assert(views(items.push(item)) =~= views(items).push(item@));
}

/// Calls `Arc::clone` of the standard library: another handle on the same value.
///
/// Trusted: the handle that comes back holds the value that the given one holds.
#[verifier::external_body]
pub(crate) fn share<T>(value: &Arc<T>) -> (handle: Arc<T>)
    ensures
        handle == *value,
{
    Arc::clone(value)
}

/// A second vector of handles on the same values, in the same order.
pub(crate) fn share_all<T>(values: &Vec<Arc<T>>) -> (handles: Vec<Arc<T>>)
    ensures
        handles@ == values@,
{
    let mut handles: Vec<Arc<T>> = Vec::new();
    for i in 0..values.len()
        invariant
            handles@ == values@.take(i as int),
    {
        handles.push(share(&values[i]));
        assert(values@.take(i + 1) == values@.take(i as int).push(values@[i as int]));
    }
    assert(values@.take(values@.len() as int) == values@);
    handles
}

/// Whether two shared strings hold the same characters.
pub(crate) fn same_text(a: &Arc<String>, b: &Arc<String>) -> (same: bool)
    ensures
        same == (a@ == b@),
{
    **a == **b
}

} // verus!
