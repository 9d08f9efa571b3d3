//! Stable ordering: the order in which the rows of a list come, as the sequence
//! of their positions.

use vstd::prelude::*;

verus! {

/// Position `i` comes before position `j`: its row is less, or neither row is
/// less and it stood first.
pub open spec fn before(lt: spec_fn(int, int) -> bool, i: int, j: int) -> bool {
    lt(i, j) || (!lt(j, i) && i < j)
}

/// `lt` orders the rows up to ties: no two rows are less than each other, and
/// `before` is transitive.
pub open spec fn orders(lt: spec_fn(int, int) -> bool, n: int) -> bool {
    &&& forall|i: int, j: int| 0 <= i < n && 0 <= j < n && #[trigger] lt(i, j) ==> !lt(j, i)
    &&& forall|i: int, j: int, k: int|
        0 <= i < n && 0 <= j < n && 0 <= k < n && #[trigger] before(lt, i, j) && #[trigger] before(
            lt,
            j,
            k,
        ) ==> before(lt, i, k)
}

/// Each position comes before the ones after it.
pub open spec fn in_order(lt: spec_fn(int, int) -> bool, order: Seq<usize>) -> bool {
    forall|a: int, b: int|
        0 <= a < b < order.len() ==> before(lt, #[trigger] order[a] as int, #[trigger] order[b] as int)
}

/// `order` is the stable order of `n` rows under `lt`: every position occurs,
/// and each comes before the ones after it.
pub open spec fn is_stable_order(
    lt: spec_fn(int, int) -> bool,
    n: int,
    order: Seq<usize>,
) -> bool {
    &&& order.len() == n
    &&& forall|a: int| 0 <= a < order.len() ==> 0 <= #[trigger] order[a] < n
    &&& forall|i: int| 0 <= i < n ==> order.contains(#[trigger] (i as usize))
    &&& in_order(lt, order)
}

/// The elements of `order` are the positions from `lo` up to `hi`.
spec fn is_range(order: Seq<usize>, lo: int, hi: int) -> bool {
    &&& order.len() == hi - lo
    &&& forall|a: int| 0 <= a < order.len() ==> lo <= #[trigger] order[a] < hi
    &&& forall|i: usize| lo <= i < hi ==> #[trigger] order.contains(i)
}

/// The stable order of the positions from `lo` up to `hi`.
fn sort_range<F: Fn(usize, usize) -> bool>(
    Ghost(lt): Ghost<spec_fn(int, int) -> bool>,
    less: &F,
    lo: usize,
    hi: usize,
    n: usize,
) -> (order: Vec<usize>)
    requires
        lo <= hi <= n,
        orders(lt, n as int),
        forall|i: usize, j: usize| i < n && j < n ==> #[trigger] call_requires(*less, (i, j)),
        forall|i: usize, j: usize, b: bool|
            i < n && j < n && #[trigger] call_ensures(*less, (i, j), b) ==> b == lt(
                i as int,
                j as int,
            ),
    ensures
        is_range(order@, lo as int, hi as int),
        in_order(lt, order@),
    decreases hi - lo,
{
    let mut order: Vec<usize> = Vec::new();
    if lo == hi {
        return order;
    }
    if hi - lo == 1 {
        order.push(lo);
        assert(order@[0] == lo);
        return order;
    }
    let mid: usize = lo + (hi - lo) / 2;
    let first: Vec<usize> = sort_range(Ghost(lt), less, lo, mid, n);
    let second: Vec<usize> = sort_range(Ghost(lt), less, mid, hi, n);
    let mut i: usize = 0;
    let mut j: usize = 0;
    while i < first.len() || j < second.len()
        invariant
            lo < mid < hi <= n,
            orders(lt, n as int),
            forall|i: usize, j: usize| i < n && j < n ==> #[trigger] call_requires(*less, (i, j)),
            forall|i: usize, j: usize, b: bool|
                i < n && j < n && #[trigger] call_ensures(*less, (i, j), b) ==> b == lt(
                    i as int,
                    j as int,
                ),
            is_range(first@, lo as int, mid as int),
            is_range(second@, mid as int, hi as int),
            in_order(lt, first@),
            in_order(lt, second@),
            i <= first@.len(),
            j <= second@.len(),
            order@.len() == i + j,
            in_order(lt, order@),
            forall|a: int| 0 <= a < order@.len() ==> lo <= #[trigger] order@[a] < hi,
            forall|a: int| 0 <= a < i ==> order@.contains(#[trigger] first@[a]),
            forall|b: int| 0 <= b < j ==> order@.contains(#[trigger] second@[b]),
            forall|a: int, b: int|
                0 <= a < order@.len() && i <= b < first@.len() ==> before(
                    lt,
                    #[trigger] order@[a] as int,
                    #[trigger] first@[b] as int,
                ),
            forall|a: int, b: int|
                0 <= a < order@.len() && j <= b < second@.len() ==> before(
                    lt,
                    #[trigger] order@[a] as int,
                    #[trigger] second@[b] as int,
                ),
        decreases first@.len() - i + second@.len() - j,
    {
        let ghost order0 = order@;
        let from_first: bool = if i >= first.len() {
            false
        } else if j >= second.len() {
            true
        } else {
            !less(second[j], first[i])
        };
        if from_first {
            let x: usize = first[i];
            order.push(x);
            proof {
                assert forall|b: int| j <= b < second@.len() implies before(
                    lt,
                    x as int,
                    #[trigger] second@[b] as int,
                ) by {
                    assert(before(lt, x as int, second@[j as int] as int));
                    if b > j {
                        assert(before(lt, second@[j as int] as int, second@[b] as int));
                    }
                }
                lemma_pushed(order0, x);
            }
            i = i + 1;
        } else {
            let x: usize = second[j];
            order.push(x);
            proof {
                assert forall|b: int| i <= b < first@.len() implies before(
                    lt,
                    x as int,
                    #[trigger] first@[b] as int,
                ) by {
                    assert(lt(x as int, first@[i as int] as int));
                    assert(before(lt, x as int, first@[i as int] as int));
                    if b > i {
                        assert(before(lt, first@[i as int] as int, first@[b] as int));
                    }
                }
                lemma_pushed(order0, x);
            }
            j = j + 1;
        }
    }
    proof {
        assert forall|k: usize| lo <= k < hi implies #[trigger] order@.contains(k) by {
            if k < mid {
                assert(first@.contains(k));
                let a = choose|a: int| 0 <= a < first@.len() && first@[a] == k;
                assert(order@.contains(first@[a]));
            } else {
                assert(second@.contains(k));
                let a = choose|a: int| 0 <= a < second@.len() && second@[a] == k;
                assert(order@.contains(second@[a]));
            }
        }
    }
    order
}

proof fn lemma_pushed(s: Seq<usize>, x: usize)
    ensures
        s.push(x).contains(x),
        forall|y: usize| s.contains(y) ==> #[trigger] s.push(x).contains(y),
{
    assert(s.push(x)[s.len() as int] == x);
    assert forall|y: usize| s.contains(y) implies #[trigger] s.push(x).contains(y) by {
        let a = choose|a: int| 0 <= a < s.len() && s[a] == y;
        assert(s.push(x)[a] == y);
    }
}

/// The stable order of `n` rows, where `less` says whether the row at one
/// position is less than the row at another.
pub(crate) fn stable_order<F: Fn(usize, usize) -> bool>(
    Ghost(lt): Ghost<spec_fn(int, int) -> bool>,
    less: &F,
    n: usize,
) -> (order: Vec<usize>)
    requires
        orders(lt, n as int),
        forall|i: usize, j: usize| i < n && j < n ==> #[trigger] call_requires(*less, (i, j)),
        forall|i: usize, j: usize, b: bool|
            i < n && j < n && #[trigger] call_ensures(*less, (i, j), b) ==> b == lt(
                i as int,
                j as int,
            ),
    ensures
        is_stable_order(lt, n as int, order@),
{
    let order: Vec<usize> = sort_range(Ghost(lt), less, 0, n, n);
    proof {
        assert forall|i: int| 0 <= i < n implies order@.contains(#[trigger] (i as usize)) by {}
    }
    order
}

/// The rows in the given order.
pub open spec fn permuted<T>(rows: Seq<T>, order: Seq<usize>) -> Seq<T> {
    order.map_values(|i: usize| rows[i as int])
}

} // verus!
