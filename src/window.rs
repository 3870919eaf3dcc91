use vstd::prelude::*;

use crate::error::ToolkitError;
use crate::order::{is_time_order, precedes, sorted_by_time, time_order};

verus! {

/// `window` lists, in time order, the `count` most recent elements of the
/// series stamped with `times`: each other element precedes all of them.
pub open spec fn is_latest_window(times: Seq<u128>, window: Seq<usize>, count: nat) -> bool {
    &&& window.len() == count
    &&& forall|k: int| 0 <= k < window.len() ==> window[k] < times.len()
    &&& sorted_by_time(times, window)
    &&& forall|j: usize, k: int|
        #![trigger window.contains(j), window[k]]
        j < times.len() && !window.contains(j) && 0 <= k < window.len() ==> precedes(
            times,
            j as int,
            window[k] as int,
        )
}

/// The last `c` entries of a window of the latest `count` elements are the
/// latest `c` elements.
pub proof fn lemma_latest_suffix(times: Seq<u128>, window: Seq<usize>, count: nat, c: nat)
    requires
        is_latest_window(times, window, count),
        c <= count,
    ensures
        is_latest_window(times, window.subrange(count - c, count as int), c),
{
    let start = count - c;
    let tail = window.subrange(start, count as int);
    assert forall|j: usize, k: int|
        #![trigger tail.contains(j), tail[k]]
        j < times.len() && !tail.contains(j) && 0 <= k < tail.len() implies precedes(
        times,
        j as int,
        tail[k] as int,
    ) by {
        assert(tail[k] == window[start + k]);
        if window.contains(j) {
            let m = choose|m: int| 0 <= m < window.len() && window[m] == j;
            if m >= start {
                assert(tail[m - start] == j);
            }
            assert(precedes(times, window[m] as int, window[start + k] as int));
        }
    }
}

/// The `count` most recent elements of the series stamped with `times`, in
/// time order; `DataNotEnough` where the series holds fewer.
pub fn latest_window(times: &Vec<u128>, count: usize) -> (r: Result<Vec<usize>, ToolkitError>)
    ensures
        r is Err <==> times@.len() < count,
        r is Err ==> r == Err::<Vec<usize>, ToolkitError>(ToolkitError::DataNotEnough),
        r matches Ok(w) ==> is_latest_window(times@, w@, count as nat),
{
    let n = times.len();
    if n < count {
        return Err(ToolkitError::DataNotEnough);
    }
    let order = time_order(times);
    let start = n - count;
    let mut window: Vec<usize> = Vec::new();
    let mut i: usize = start;
    while i < n
        invariant
            start <= i <= n,
            n == times@.len(),
            start == n - count,
            is_time_order(times@, order@),
            forall|j: usize| j < times@.len() ==> #[trigger] order@.contains(j),
            window@ == order@.subrange(start as int, i as int),
        decreases n - i,
    {
        window.push(order[i]);
        i = i + 1;
    }
    proof {
        assert(window@ == order@.subrange(start as int, n as int));
        assert forall|j: usize, k: int|
            #![trigger window@.contains(j), window@[k]]
            j < times@.len() && !window@.contains(j) && 0 <= k < window@.len() implies precedes(
                times@,
                j as int,
                window@[k] as int,
            ) by {
            assert(order@.contains(j));
            let m = choose|m: int| 0 <= m < order@.len() && order@[m] == j;
            if m >= start {
                assert(window@[m - start] == j);
            }
            assert(window@[k] == order@[start + k]);
            assert(precedes(times@, order@[m] as int, order@[start + k] as int));
        }
    }
    Ok(window)
}

} // verus!
