//! Finding the point nearest to a position.
//!
//! A distance is handed over as an integer key: the IEEE 754 bit pattern of
//! the distance as a single-precision number. Distances are never negative,
//! and on the bit patterns of non-negative numbers the order of the unsigned
//! integers is the order of the numbers, so comparing keys compares
//! distances.

use vstd::prelude::*;

verus! {

/// The key of ten distance units (`10.0` in single precision): a gesture
/// that begins closer than this to a point takes hold of that point.
pub const MAX_DIST: u32 = 0x4120_0000;

/// `k` is the index of the smallest key, and the first one of them if
/// several keys are equally small.
pub open spec fn is_nearest(dists: Seq<u32>, k: int) -> bool {
    &&& 0 <= k < dists.len()
    &&& forall|j: int| 0 <= j < dists.len() ==> dists[k] <= #[trigger] dists[j]
    &&& forall|j: int| 0 <= j < k ==> dists[k] < #[trigger] dists[j]
}

/// The index that [`is_nearest`] singles out.
pub open spec fn nearest_index(dists: Seq<u32>) -> int {
    choose|k: int| is_nearest(dists, k)
}

/// The point that a gesture takes hold of, given the key of each point's
/// distance to where the gesture begins: the nearest point, if there is a
/// point and it is closer than [`MAX_DIST`].
pub open spec fn grabbed(dists: Seq<u32>) -> Option<int> {
    if dists.len() > 0 && dists[nearest_index(dists)] < MAX_DIST {
        Some(nearest_index(dists))
    } else {
        None
    }
}

/// At most one index is the nearest.
pub proof fn lemma_nearest_unique(dists: Seq<u32>, a: int, b: int)
    requires
        is_nearest(dists, a),
        is_nearest(dists, b),
    ensures
        a == b,
{
    if a < b {
        assert(dists[b] < dists[a]);
    } else if b < a {
        assert(dists[a] < dists[b]);
    }
}

/// An index that is the nearest is the one that [`nearest_index`] names.
pub proof fn lemma_nearest_index(dists: Seq<u32>, k: int)
    requires
        is_nearest(dists, k),
    ensures
        nearest_index(dists) == k,
{
    lemma_nearest_unique(dists, k, nearest_index(dists));
}

/// What [`grabbed`] means, without the `choose`: no point is grabbed
/// exactly when every point is at least [`MAX_DIST`] away (or there is no
/// point), and a point that is grabbed is the nearest one and closer than
/// [`MAX_DIST`].
pub proof fn lemma_grabbed(dists: Seq<u32>)
    ensures
        grabbed(dists) is None <==> forall|j: int|
            0 <= j < dists.len() ==> #[trigger] dists[j] >= MAX_DIST,
        grabbed(dists) matches Some(k) ==> is_nearest(dists, k) && dists[k] < MAX_DIST,
{
    if dists.len() > 0 {
        lemma_nearest_exists(dists);
        let k = nearest_index(dists);
        if dists[k] >= MAX_DIST {
            assert forall|j: int| 0 <= j < dists.len() implies #[trigger] dists[j] >= MAX_DIST by {
                assert(dists[k] <= dists[j]);
            }
        }
    }
}

/// Every non-empty list of keys has a nearest index.
pub proof fn lemma_nearest_exists(dists: Seq<u32>)
    requires
        dists.len() > 0,
    ensures
        is_nearest(dists, nearest_index(dists)),
    decreases dists.len(),
{
    if dists.len() == 1 {
        assert(is_nearest(dists, 0));
    } else {
        let front = dists.drop_last();
        lemma_nearest_exists(front);
        let k = nearest_index(front);
        assert forall|j: int| 0 <= j < front.len() implies front[j] == dists[j] by {}
        let last = dists.len() - 1;
        if dists[last] < dists[k] {
            assert forall|j: int| 0 <= j < dists.len() implies dists[last]
                <= #[trigger] dists[j] by {
                if j < last {
                    assert(front[k] <= front[j]);
                }
            }
            assert forall|j: int| 0 <= j < last implies dists[last] < #[trigger] dists[j] by {
                assert(front[k] <= front[j]);
            }
            assert(is_nearest(dists, last));
        } else {
            assert forall|j: int| 0 <= j < dists.len() implies dists[k] <= #[trigger] dists[j] by {
                if j < last {
                    assert(front[k] <= front[j]);
                }
            }
            assert forall|j: int| 0 <= j < k implies dists[k] < #[trigger] dists[j] by {
                assert(front[k] < front[j]);
            }
            assert(is_nearest(dists, k));
        }
    }
}

/// The index and key of the nearest point: a linear scan that keeps the
/// first of several equally small keys. `None` when there is no point.
pub fn nearest(dists: &Vec<u32>) -> (found: Option<(usize, u32)>)
    ensures
        found is None <==> dists@.len() == 0,
        found matches Some((k, d)) ==> is_nearest(dists@, k as int) && k == nearest_index(dists@)
            && d == dists@[k as int],
{
    let n = dists.len();
    if n == 0 {
        return None;
    }
    let mut best: usize = 0;
    for i in 1..n
        invariant
            n == dists@.len(),
            best < i,
            is_nearest(dists@.take(i as int), best as int),
    {
        let ghost seen = dists@.take(i as int);
        let ghost next = dists@.take(i + 1);
        if dists[i] < dists[best] {
            proof {
                assert forall|j: int| 0 <= j < next.len() implies dists@[i as int]
                    <= #[trigger] next[j] by {
                    if j < i {
                        assert(seen[best as int] <= seen[j]);
                    }
                }
                assert forall|j: int| 0 <= j < i implies dists@[i as int] < #[trigger] next[j] by {
                    assert(seen[best as int] <= seen[j]);
                }
            }
            best = i;
        } else {
            proof {
                assert forall|j: int| 0 <= j < next.len() implies dists@[best as int]
                    <= #[trigger] next[j] by {
                    if j < i {
                        assert(seen[best as int] <= seen[j]);
                    }
                }
                assert forall|j: int| 0 <= j < best implies dists@[best as int]
                    < #[trigger] next[j] by {
                    assert(seen[best as int] < seen[j]);
                }
            }
        }
    }
    proof {
        assert(dists@.take(n as int) =~= dists@);
        lemma_nearest_index(dists@, best as int);
    }
    Some((best, dists[best]))
}

} // verus!
