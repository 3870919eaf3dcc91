use vstd::prelude::*;
use vstd::set_lib::{lemma_int_range, lemma_subset_equality, set_int_range};

use crate::error::ToolkitError;

verus! {

/// Element `a` of a series stamped with `times` comes before element `b` in
/// time order: it is earlier, or it has the same stamp and an earlier position.
pub open spec fn precedes(times: Seq<u128>, a: int, b: int) -> bool {
    times[a] < times[b] || (times[a] == times[b] && a < b)
}

/// The positions in `order` are listed in strictly increasing time order.
pub open spec fn sorted_by_time(times: Seq<u128>, order: Seq<usize>) -> bool {
    forall|k: int, l: int|
        #![trigger order[k], order[l]]
        0 <= k < l < order.len() ==> precedes(times, order[k] as int, order[l] as int)
}

/// `order` lists every position of the series stamped with `times`, each once,
/// ascending by time stamp, with equal stamps kept in their original order:
/// the result of a stable sort by time.
pub open spec fn is_time_order(times: Seq<u128>, order: Seq<usize>) -> bool {
    &&& order.len() == times.len()
    &&& forall|k: int| 0 <= k < order.len() ==> order[k] < times.len()
    &&& sorted_by_time(times, order)
}

/// A time order lists every position of its series.
pub proof fn lemma_time_order_covers(times: Seq<u128>, order: Seq<usize>, j: int)
    requires
        is_time_order(times, order),
        0 <= j < times.len(),
    ensures
        order.contains(j as usize),
{
    let n = times.len() as int;
    let s = order.map_values(|v: usize| v as int);
    assert forall|a: int, b: int| 0 <= a < s.len() && 0 <= b < s.len() && a != b implies s[a]
        != s[b] by {
        if a < b {
            assert(precedes(times, order[a] as int, order[b] as int));
        } else {
            assert(precedes(times, order[b] as int, order[a] as int));
        }
    }
    s.unique_seq_to_set();
    lemma_int_range(0, n);
    assert forall|x: int| s.to_set().contains(x) implies set_int_range(0, n).contains(x) by {
        let k = choose|k: int| 0 <= k < s.len() && s[k] == x;
    }
    lemma_subset_equality(s.to_set(), set_int_range(0, n));
    assert(s.to_set().contains(j));
    let k = choose|k: int| 0 <= k < s.len() && s[k] == j;
    assert(order[k] == j as usize);
}

/// Whether position `a` comes before position `b` in the time order of `times`.
fn comes_before(times: &Vec<u128>, a: usize, b: usize) -> (r: bool)
    requires
        a < times@.len(),
        b < times@.len(),
    ensures
        r == precedes(times@, a as int, b as int),
{
    times[a] < times[b] || (times[a] == times[b] && a < b)
}

/// Merges two time-ordered runs of positions, the first drawn from
/// `lo..mid` and the second from `mid..hi`, into one time-ordered run.
fn merge(times: &Vec<u128>, left: Vec<usize>, right: Vec<usize>, lo: usize, mid: usize, hi: usize) -> (r:
    Vec<usize>)
    requires
        lo <= mid <= hi <= times@.len(),
        sorted_by_time(times@, left@),
        sorted_by_time(times@, right@),
        forall|k: int| 0 <= k < left@.len() ==> lo <= #[trigger] left@[k] < mid,
        forall|k: int| 0 <= k < right@.len() ==> mid <= #[trigger] right@[k] < hi,
        left@.len() + right@.len() <= usize::MAX,
    ensures
        r@.len() == left@.len() + right@.len(),
        forall|k: int| 0 <= k < r@.len() ==> lo <= #[trigger] r@[k] < hi,
        sorted_by_time(times@, r@),
{
    let mut out: Vec<usize> = Vec::new();
    let mut i: usize = 0;
    let mut j: usize = 0;
    while i < left.len() || j < right.len()
        invariant
            lo <= mid <= hi <= times@.len(),
            sorted_by_time(times@, left@),
            sorted_by_time(times@, right@),
            forall|k: int| 0 <= k < left@.len() ==> lo <= #[trigger] left@[k] < mid,
            forall|k: int| 0 <= k < right@.len() ==> mid <= #[trigger] right@[k] < hi,
            left@.len() + right@.len() <= usize::MAX,
            i <= left@.len(),
            j <= right@.len(),
            out@.len() == i + j,
            forall|k: int| 0 <= k < out@.len() ==> lo <= #[trigger] out@[k] < hi,
            sorted_by_time(times@, out@),
            out@.len() > 0 && i < left@.len() ==> precedes(
                times@,
                out@.last() as int,
                left@[i as int] as int,
            ),
            out@.len() > 0 && j < right@.len() ==> precedes(
                times@,
                out@.last() as int,
                right@[j as int] as int,
            ),
        decreases left@.len() + right@.len() - i - j,
    {
        let take_left = j >= right.len() || (i < left.len() && comes_before(
            times,
            left[i],
            right[j],
        ));
        let x = if take_left {
            left[i]
        } else {
            right[j]
        };
        proof {
            if !take_left && i < left@.len() {
                assert(left@[i as int] != right@[j as int]);
                assert(precedes(times@, right@[j as int] as int, left@[i as int] as int));
            }
            if out@.len() > 0 {
                assert forall|k: int| 0 <= k < out@.len() implies precedes(
                    times@,
                    out@[k] as int,
                    x as int,
                ) by {
                    if k < out@.len() - 1 {
                        assert(precedes(
                            times@,
                            out@[k] as int,
                            out@[out@.len() - 1] as int,
                        ));
                    }
                }
            }
        }
        let ghost before = out@;
        out.push(x);
        if take_left {
            i = i + 1;
        } else {
            j = j + 1;
        }
        proof {
            assert forall|k: int, l: int|
                #![trigger out@[k], out@[l]]
                0 <= k < l < out@.len() implies precedes(
                times@,
                out@[k] as int,
                out@[l] as int,
            ) by {
                if l < out@.len() - 1 {
                    assert(precedes(times@, before[k] as int, before[l] as int));
                }
            }
            if take_left && i < left@.len() {
                assert(precedes(times@, left@[i - 1] as int, left@[i as int] as int));
            }
            if !take_left && j < right@.len() {
                assert(precedes(times@, right@[j - 1] as int, right@[j as int] as int));
            }
        }
    }
    out
}

/// The positions `lo..hi` of the series stamped with `times`, in time order.
fn sort_range(times: &Vec<u128>, lo: usize, hi: usize) -> (r: Vec<usize>)
    requires
        lo <= hi <= times@.len(),
    ensures
        r@.len() == hi - lo,
        forall|k: int| 0 <= k < r@.len() ==> lo <= #[trigger] r@[k] < hi,
        sorted_by_time(times@, r@),
    decreases hi - lo,
{
    if hi - lo <= 1 {
        let mut run: Vec<usize> = Vec::new();
        if hi > lo {
            run.push(lo);
        }
        return run;
    }
    let mid = lo + (hi - lo) / 2;
    let left = sort_range(times, lo, mid);
    let right = sort_range(times, mid, hi);
    merge(times, left, right, lo, mid, hi)
}

/// The positions of the series stamped with `times`, in stable time order.
pub fn time_order(times: &Vec<u128>) -> (r: Vec<usize>)
    ensures
        is_time_order(times@, r@),
        forall|j: usize| j < times@.len() ==> #[trigger] r@.contains(j),
{
    let order = sort_range(times, 0, times.len());
    proof {
        assert forall|j: usize| j < times@.len() implies #[trigger] order@.contains(j) by {
            lemma_time_order_covers(times@, order@, j as int);
        }
    }
    order
}

/// The stable time order of a series that must not be empty: `EmptyData`
/// where it is.
pub fn series_order(times: &Vec<u128>) -> (r: Result<Vec<usize>, ToolkitError>)
    ensures
        r is Err <==> times@.len() == 0,
        r is Err ==> r == Err::<Vec<usize>, ToolkitError>(ToolkitError::EmptyData),
        r matches Ok(order) ==> is_time_order(times@, order@),
        r matches Ok(order) ==> forall|j: usize| j < times@.len() ==> #[trigger] order@.contains(j),
{
    if times.len() == 0 {
        return Err(ToolkitError::EmptyData);
    }
    Ok(time_order(times))
}

/// The time stamps of a series of stamped elements, in their order.
pub open spec fn stamps_of_items<V>(items: Seq<(u128, V)>) -> Seq<u128> {
    items.map_values(|e: (u128, V)| e.0)
}

/// No two elements of `items` carry the same stamp.
pub open spec fn distinct_stamps<V>(items: Seq<(u128, V)>) -> bool {
    forall|i: int, j: int|
        #![trigger items[i], items[j]]
        0 <= i < j < items.len() ==> items[i].0 != items[j].0
}

/// The elements of `items` listed as `order` gives their positions.
pub open spec fn arrange<V>(items: Seq<(u128, V)>, order: Seq<usize>) -> Seq<(u128, V)> {
    order.map_values(|i: usize| items[i as int])
}

/// Stamps grow strictly along `s`.
pub open spec fn strictly_later<V>(s: Seq<(u128, V)>) -> bool {
    forall|i: int, j: int| #![trigger s[i], s[j]] 0 <= i < j < s.len() ==> s[i].0 < s[j].0
}

/// Where no stamp repeats, a series put in time order has strictly growing
/// stamps and holds exactly the elements of the series.
proof fn lemma_arranged_strictly_later<V>(items: Seq<(u128, V)>, order: Seq<usize>)
    requires
        items.len() <= usize::MAX,
        distinct_stamps(items),
        is_time_order(stamps_of_items(items), order),
    ensures
        strictly_later(arrange(items, order)),
        arrange(items, order).to_set() == items.to_set(),
{
    let t = stamps_of_items(items);
    let s = arrange(items, order);
    assert forall|i: int, j: int| #![trigger s[i], s[j]] 0 <= i < j < s.len() implies s[i].0
        < s[j].0 by {
        assert(precedes(t, order[i] as int, order[j] as int));
        if order[i] < order[j] {
            assert(items[order[i] as int].0 != items[order[j] as int].0);
        }
    }
    assert forall|x: (u128, V)| s.to_set().contains(x) <==> items.to_set().contains(x) by {
        if s.contains(x) {
            let k = choose|k: int| 0 <= k < s.len() && s[k] == x;
            assert(items[order[k] as int] == x);
        }
        if items.contains(x) {
            let j = choose|j: int| 0 <= j < items.len() && items[j] == x;
            lemma_time_order_covers(t, order, j);
            let k = choose|k: int| 0 <= k < order.len() && order[k] == j as usize;
            assert(s[k] == x);
        }
    }
    assert(s.to_set() =~= items.to_set());
}

/// Two sequences with strictly growing stamps that hold the same elements
/// are equal.
proof fn lemma_strictly_later_unique<V>(s1: Seq<(u128, V)>, s2: Seq<(u128, V)>)
    requires
        strictly_later(s1),
        strictly_later(s2),
        s1.to_set() == s2.to_set(),
    ensures
        s1 == s2,
    decreases s1.len(),
{
    if s1.len() == 0 {
        if s2.len() > 0 {
            assert(s2.to_set().contains(s2[0]));
        }
        assert(s1 =~= s2);
    } else {
        assert(s1.to_set().contains(s1[0]));
        assert(s2.contains(s1[0]));
        let j = choose|j: int| 0 <= j < s2.len() && s2[j] == s1[0];
        assert(s2.to_set().contains(s2[0]));
        assert(s1.contains(s2[0]));
        let i = choose|i: int| 0 <= i < s1.len() && s1[i] == s2[0];
        if i > 0 {
            assert(s1[0].0 < s1[i].0);
        }
        if j > 0 {
            assert(s2[0].0 < s2[j].0);
        }
        assert(s1[0] == s2[0]);
        let r1 = s1.drop_first();
        let r2 = s2.drop_first();
        assert forall|x: (u128, V)| r1.to_set().contains(x) <==> r2.to_set().contains(x) by {
            if r1.contains(x) {
                let k = choose|k: int| 0 <= k < r1.len() && r1[k] == x;
                assert(s1[k + 1] == x);
                assert(s1[0].0 < s1[k + 1].0);
                assert(s2.to_set().contains(x));
                let m = choose|m: int| 0 <= m < s2.len() && s2[m] == x;
                assert(m != 0);
                assert(r2[m - 1] == x);
            }
            if r2.contains(x) {
                let k = choose|k: int| 0 <= k < r2.len() && r2[k] == x;
                assert(s2[k + 1] == x);
                assert(s2[0].0 < s2[k + 1].0);
                assert(s1.to_set().contains(x));
                let m = choose|m: int| 0 <= m < s1.len() && s1[m] == x;
                assert(m != 0);
                assert(r1[m - 1] == x);
            }
        }
        assert(r1.to_set() =~= r2.to_set());
        lemma_strictly_later_unique(r1, r2);
        assert forall|k: int| 0 <= k < s1.len() implies s1[k] == s2[k] by {
            if k > 0 {
                assert(s1[k] == r1[k - 1]);
                assert(s2[k] == r2[k - 1]);
            }
        }
        assert(s1 =~= s2);
    }
}

/// The time order does not depend on the order in which the caller lists the
/// elements: two series that hold the same stamped elements, no stamp twice,
/// come out alike once each is put in time order. (Where stamps repeat,
/// `precedes` keeps tied elements in the caller's order, so the outcome
/// follows that order.)
pub proof fn lemma_time_order_ignores_input_order<V>(
    a: Seq<(u128, V)>,
    b: Seq<(u128, V)>,
    order_a: Seq<usize>,
    order_b: Seq<usize>,
)
    requires
        a.len() <= usize::MAX,
        a.to_multiset() == b.to_multiset(),
        distinct_stamps(a),
        is_time_order(stamps_of_items(a), order_a),
        is_time_order(stamps_of_items(b), order_b),
    ensures
        arrange(a, order_a) == arrange(b, order_b),
{
    broadcast use vstd::seq_lib::group_to_multiset_ensures;

    assert(a.no_duplicates()) by {
        assert forall|i: int, j: int| 0 <= i < a.len() && 0 <= j < a.len() && i != j implies a[i]
            != a[j] by {
            if i < j {
                assert(a[i].0 != a[j].0);
            } else {
                assert(a[j].0 != a[i].0);
            }
        }
    }
    assert(a.len() == b.len()) by {
        assert(a.len() == a.to_multiset().len());
        assert(b.len() == b.to_multiset().len());
    }
    a.lemma_multiset_has_no_duplicates();
    b.lemma_multiset_has_no_duplicates_conv();
    assert(distinct_stamps(b)) by {
        assert forall|i: int, j: int| #![trigger b[i], b[j]] 0 <= i < j < b.len() implies b[i].0
            != b[j].0 by {
            assert(b.contains(b[i]));
            assert(b.contains(b[j]));
            assert(a.to_multiset().count(b[i]) > 0);
            assert(a.to_multiset().count(b[j]) > 0);
            assert(a.contains(b[i]));
            assert(a.contains(b[j]));
            let p = choose|p: int| 0 <= p < a.len() && a[p] == b[i];
            let q = choose|q: int| 0 <= q < a.len() && a[q] == b[j];
            if p < q {
                assert(a[p].0 != a[q].0);
            } else if q < p {
                assert(a[q].0 != a[p].0);
            }
        }
    }
    assert forall|x: (u128, V)| a.to_set().contains(x) <==> b.to_set().contains(x) by {
        assert(a.contains(x) <==> a.to_multiset().count(x) > 0);
        assert(b.contains(x) <==> b.to_multiset().count(x) > 0);
    }
    assert(a.to_set() =~= b.to_set());
    lemma_arranged_strictly_later(a, order_a);
    lemma_arranged_strictly_later(b, order_b);
    lemma_strictly_later_unique(arrange(a, order_a), arrange(b, order_b));
}

} // verus!
