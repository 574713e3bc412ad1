use vstd::prelude::*;

verus! {

/// A view of `items[start..end]` that borrows from `items`.
pub fn sub_range(items: &[i32], start: usize, end: usize) -> (r: &[i32])
    requires
        start <= end <= items@.len(),
    ensures
        r@ == items@.subrange(start as int, end as int),
{
    &items[start..end]
}

} // verus!
