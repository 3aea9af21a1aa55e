use vstd::prelude::*;

verus! {

/// The value at `idx` among a layer's `SIZE` outputs, or `None` for any
/// index at or past `SIZE`.
pub fn value_at<V: Copy, const SIZE: usize>(values: &[V; SIZE], idx: usize) -> (r: Option<V>)
    ensures
        idx >= SIZE ==> r is None,
        idx < SIZE ==> r == Some(values@[idx as int]),
{
    if idx >= SIZE {
        None
    } else {
        Some(values[idx])
    }
}

} // verus!
