//! Stable sorting by integer keys.

use vstd::prelude::*;

verus! {

/// Position `a` comes before position `b`: by its key, and among equal keys by
/// the position itself.
pub open spec fn precedes(keys: Seq<u64>, a: int, b: int) -> bool {
    keys[a] < keys[b] || (keys[a] == keys[b] && a < b)
}

/// `order` lists each of the positions `lo..hi` once, in stable order of their keys.
pub open spec fn sorts_range(keys: Seq<u64>, order: Seq<usize>, lo: int, hi: int) -> bool {
    &&& order.len() == hi - lo
    &&& forall|i: int| 0 <= i < order.len() ==> lo <= #[trigger] order[i] < hi
    &&& forall|i: int, j: int|
        0 <= i < j < order.len()
            ==> precedes(keys, #[trigger] order[i] as int, #[trigger] order[j] as int)
    &&& forall|p: int| lo <= p < hi ==> #[trigger] listed(order, p)
}

/// `order` holds position `p`.
pub open spec fn listed(order: Seq<usize>, p: int) -> bool {
    exists|i: int| 0 <= i < order.len() && #[trigger] order[i] == p
}

/// `order` lists every position of `keys` once, in stable order of the keys.
pub open spec fn sorts(keys: Seq<u64>, order: Seq<usize>) -> bool {
    sorts_range(keys, order, 0, keys.len() as int)
}

/// The order that sorts a sequence of keys is the only one that does.
pub proof fn law_stable_order_is_unique(keys: Seq<u64>, a: Seq<usize>, b: Seq<usize>)
    requires
        sorts(keys, a),
        sorts(keys, b),
    ensures
        a == b,
{
    assert forall|i: int| 0 <= i < a.len() implies a[i] == b[i] by {
        lemma_same_prefix(keys, a, b, i + 1);
    }
    assert(a =~= b);
}

proof fn lemma_same_prefix(keys: Seq<u64>, a: Seq<usize>, b: Seq<usize>, n: int)
    requires
        sorts(keys, a),
        sorts(keys, b),
        0 <= n <= a.len(),
    ensures
        forall|i: int| 0 <= i < n ==> a[i] == b[i],
    decreases n,
{
    if n > 0 {
        let k = n - 1;
        lemma_same_prefix(keys, a, b, k);
        if a[k] != b[k] {
            assert(listed(b, a[k] as int));
            let j = choose|j: int| 0 <= j < b.len() && b[j] == a[k];
            assert(j > k) by {
                if j < k {
                    assert(a[j] == b[j]);
                    assert(precedes(keys, a[j] as int, a[k] as int));
                }
            }
            assert(precedes(keys, b[k] as int, b[j] as int));
            assert(listed(a, b[k] as int));
            let i = choose|i: int| 0 <= i < a.len() && a[i] == b[k];
            assert(i > k) by {
                if i < k {
                    assert(a[i] == b[i]);
                    assert(precedes(keys, b[i] as int, b[k] as int));
                }
            }
            assert(precedes(keys, a[k] as int, a[i] as int));
        }
    }
}

/// Merges the orders of two adjacent ranges.
fn merge(
    keys: &Vec<u64>,
    left: &Vec<usize>,
    right: &Vec<usize>,
    lo: usize,
    mid: usize,
    hi: usize,
) -> (order: Vec<
    usize,
>)
    requires
        lo <= mid <= hi <= keys@.len(),
        sorts_range(keys@, left@, lo as int, mid as int),
        sorts_range(keys@, right@, mid as int, hi as int),
    ensures
        sorts_range(keys@, order@, lo as int, hi as int),
{
    let mut order: Vec<usize> = Vec::new();
    let mut i: usize = 0;
    let mut j: usize = 0;
    while i < left.len() || j < right.len()
        invariant
            lo <= mid <= hi <= keys@.len(),
            sorts_range(keys@, left@, lo as int, mid as int),
            sorts_range(keys@, right@, mid as int, hi as int),
            i <= left@.len(),
            j <= right@.len(),
            order@.len() == i + j,
            forall|k: int| 0 <= k < order@.len() ==> lo <= #[trigger] order@[k] < hi,
            forall|a: int, b: int|
                0 <= a < b < order@.len() ==> precedes(
                    keys@,
                    #[trigger] order@[a] as int,
                    #[trigger] order@[b] as int,
                ),
            forall|a: int, b: int|
                0 <= a < order@.len() && i <= b < left@.len() ==> precedes(
                    keys@,
                    #[trigger] order@[a] as int,
                    #[trigger] left@[b] as int,
                ),
            forall|a: int, b: int|
                0 <= a < order@.len() && j <= b < right@.len() ==> precedes(
                    keys@,
                    #[trigger] order@[a] as int,
                    #[trigger] right@[b] as int,
                ),
            forall|a: int| 0 <= a < i ==> listed(order@, #[trigger] left@[a] as int),
            forall|a: int| 0 <= a < j ==> listed(order@, #[trigger] right@[a] as int),
        decreases left@.len() - i + right@.len() - j,
    {
        let ghost before = order@;
        let take_left: bool = if i == left.len() {
            false
        } else if j == right.len() {
            true
        } else {
            keys[left[i]] <= keys[right[j]]
        };
        if take_left {
            order.push(left[i]);
            i = i + 1;
        } else {
            order.push(right[j]);
            j = j + 1;
        }
        proof {
            assert forall|p: int| listed(before, p) implies listed(order@, p) by {
                let k = choose|k: int| 0 <= k < before.len() && before[k] == p;
                assert(order@[k] == p);
            }
            assert(order@[before.len() as int] == order@.last());
            assert(listed(order@, order@.last() as int));
        }
    }
    proof {
        assert forall|p: int| lo <= p < hi implies #[trigger] listed(order@, p) by {
            if p < mid {
                assert(listed(left@, p));
                let k = choose|k: int| 0 <= k < left@.len() && left@[k] == p;
                assert(listed(order@, left@[k] as int));
            } else {
                assert(listed(right@, p));
                let k = choose|k: int| 0 <= k < right@.len() && right@[k] == p;
                assert(listed(order@, right@[k] as int));
            }
        }
    }
    order
}

fn sort_range(keys: &Vec<u64>, lo: usize, hi: usize) -> (order: Vec<usize>)
    requires
        lo <= hi <= keys@.len(),
    ensures
        sorts_range(keys@, order@, lo as int, hi as int),
    decreases hi - lo,
{
    if hi - lo <= 1 {
        let mut order: Vec<usize> = Vec::new();
        if lo < hi {
            order.push(lo);
            proof {
                assert(order@[0] == lo);
                assert(listed(order@, lo as int));
            }
        }
        order
    } else {
        let mid: usize = lo + (hi - lo) / 2;
        let left: Vec<usize> = sort_range(keys, lo, mid);
        let right: Vec<usize> = sort_range(keys, mid, hi);
        merge(keys, &left, &right, lo, mid, hi)
    }
}

/// The positions of `keys` in stable order of their keys.
pub fn stable_order(keys: &Vec<u64>) -> (order: Vec<usize>)
    ensures
        sorts(keys@, order@),
{
    sort_range(keys, 0, keys.len())
}

} // verus!
