//! Splitting sequences of items at a count.
use vstd::prelude::*;
use vstd::slice::{slice_subrange, slice_to_vec};

verus! {

pub open spec fn min_len(max: usize, len: nat) -> int {
    if (max as nat) < len {
        max as int
    } else {
        len as int
    }
}

/// The first `max` items (all of them if there are fewer), and the rest.
pub fn iterator_split<'a, T>(items: &'a [T], max: usize) -> (r: (&'a [T], &'a [T]))
    ensures
        r.0@ == items@.take(min_len(max, items@.len())),
        r.1@ == items@.skip(min_len(max, items@.len())),
{
    let n = items.len();
    let k = if max < n {
        max
    } else {
        n
    };
    let first = slice_subrange(items, 0, k);
    let rest = slice_subrange(items, k, n);
    assert(first@ =~= items@.take(k as int));
    assert(rest@ =~= items@.skip(k as int));
    (first, rest)
}

/// The first `max` items and the number of items after them; `None` when
/// there are no items at all.
pub fn collect_until<T: Copy>(items: &[T], max: usize) -> (r: Option<(Vec<T>, usize)>)
    requires
        max > 0,
    ensures
        items@.len() == 0 ==> r is None,
        items@.len() > 0 ==> (r matches Some(p) && p.0@ == items@.take(min_len(max, items@.len()))
            && p.1 == items@.len() - min_len(max, items@.len())),
{
    let n = items.len();
    if n == 0 {
        return None;
    }
    let k = if max < n {
        max
    } else {
        n
    };
    let first = slice_to_vec(slice_subrange(items, 0, k));
    assert(first@ =~= items@.take(k as int));
    Some((first, n - k))
}

} // verus!
