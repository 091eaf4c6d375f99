//! Shared handles.

use std::sync::Arc;
use vstd::prelude::*;

verus! {

/// `Arc::clone`: a second handle to the same value. The contract claims that the value behind
/// the new handle is the value behind the old one.
#[verifier::external_body]
pub(crate) fn share<T>(handle: &Arc<T>) -> (other: Arc<T>)
    ensures
        other == *handle,
{
    Arc::clone(handle)
}

/// What a sequence contains after one more item.
pub proof fn pushed_contains<T>(list: Seq<T>, last: T, item: T)
    ensures
        list.push(last).contains(item) == (list.contains(item) || item == last),
{
    let after = list.push(last);
    if list.contains(item) {
        let i = choose|i: int| 0 <= i < list.len() && list[i] == item;
        assert(after[i] == item);
    }
    if item == last {
        assert(after[list.len() as int] == item);
    }
    if after.contains(item) {
        let i = choose|i: int| 0 <= i < after.len() && after[i] == item;
        if i < list.len() {
            assert(list[i] == item);
        }
    }
}

} // verus!
