//! The distance matrix and the distance objective of a cyclic route.

use vstd::prelude::*;

use vstd::arithmetic::div_mod::{lemma_mod_self_0, lemma_small_mod};

use crate::limits::{MAX_DISTANCE, MAX_LOCATIONS};
use crate::route::Route;

verus! {

/// Cost of the edge leaving position `p` of the cyclic route `s`.
pub open spec fn edge_cost(m: Seq<Vec<u64>>, s: Seq<usize>, p: int) -> int {
    m[s[p] as int]@[s[(p + 1) % (s.len() as int)] as int] as int
}

/// Sum of the first `k` edge costs of the cyclic route.
pub open spec fn partial_cost(m: Seq<Vec<u64>>, s: Seq<usize>, k: int) -> int
    decreases k,
{
    if k <= 0 {
        0
    } else {
        partial_cost(m, s, k - 1) + edge_cost(m, s, k - 1)
    }
}

/// Total distance of the cyclic route: every consecutive edge plus the edge
/// closing the tour.
pub open spec fn route_cost(m: Seq<Vec<u64>>, s: Seq<usize>) -> int {
    partial_cost(m, s, s.len() as int)
}

/// A square table of non-negative distances with constant-time lookup.
pub struct DistanceMatrix {
    pub matrix: Vec<Vec<u64>>,
}

impl DistanceMatrix {
    /// The number of locations.
    pub open spec fn n(self) -> int {
        self.matrix@.len() as int
    }

    /// The matrix is square and small enough that no route distance can
    /// overflow.
    pub open spec fn wf(self) -> bool {
        &&& 1 <= self.n() <= MAX_LOCATIONS
        &&& forall|i: int| 0 <= i < self.n() ==> (#[trigger] self.matrix@[i])@.len() == self.n()
        &&& forall|i: int, j: int|
            0 <= i < self.n() && 0 <= j < self.n() ==> (#[trigger] self.matrix@[i]@[j])
                <= MAX_DISTANCE
    }

    /// Wraps a square matrix of distances.
    pub fn new(matrix: Vec<Vec<u64>>) -> (r: DistanceMatrix)
        requires
            1 <= matrix@.len() <= MAX_LOCATIONS,
            forall|i: int| 0 <= i < matrix@.len() ==> (#[trigger] matrix@[i])@.len() == matrix@.len(),
            forall|i: int, j: int|
                0 <= i < matrix@.len() && 0 <= j < matrix@.len() ==> (#[trigger] matrix@[i]@[j])
                    <= MAX_DISTANCE,
        ensures
            r.matrix == matrix,
            r.wf(),
    {
        DistanceMatrix { matrix }
    }

    pub fn len(&self) -> (r: usize)
        ensures
            r == self.n(),
    {
        self.matrix.len()
    }

    /// The distance from one location to another.
    pub fn distance(&self, from: usize, to: usize) -> (r: u64)
        requires
            self.wf(),
            from < self.n(),
            to < self.n(),
        ensures
            r == self.matrix@[from as int]@[to as int],
            r <= MAX_DISTANCE,
    {
        self.matrix[from][to]
    }
}

/// A matrix is symmetric when every edge costs the same in both
/// directions.
pub open spec fn symmetric(m: Seq<Vec<u64>>, n: int) -> bool {
    forall|i: int, j: int| 0 <= i < n && 0 <= j < n ==> #[trigger] m[i]@[j] == m[j]@[i]
}

/// All route entries index into the matrix.
pub open spec fn entries_in_range(s: Seq<usize>, n: int) -> bool {
    forall|p: int| 0 <= p < s.len() ==> (#[trigger] s[p]) < n
}

/// The route rotated one step: its first location moves to the back.
pub open spec fn rotate_route(s: Seq<usize>) -> Seq<usize> {
    s.subrange(1, s.len() as int).push(s[0])
}

/// Every edge of the rotated route except the last is the next edge of the
/// original route.
proof fn lemma_rotate_edges(m: Seq<Vec<u64>>, s: Seq<usize>, p: int)
    requires
        s.len() >= 1,
        0 <= p < s.len() - 1,
    ensures
        edge_cost(m, rotate_route(s), p) == edge_cost(m, s, p + 1),
{
    let t = s.len() as int;
    let rot = rotate_route(s);
    lemma_small_mod((p + 1) as nat, t as nat);
    lemma_small_mod((p + 2) as nat % (t as nat), t as nat);
    assert(rot[p] == s[p + 1]);
    if p + 1 < t - 1 {
        lemma_small_mod((p + 2) as nat, t as nat);
        assert(rot[(p + 1) % t] == rot[p + 1]);
        assert(rot[p + 1] == s[p + 2]);
        assert(s[(p + 2) % t] == s[p + 2]);
    } else {
        assert(p + 1 == t - 1);
        assert(rot[(p + 1) % t] == rot[t - 1]);
        assert(rot[t - 1] == s[0]);
        lemma_mod_self_0(t);
        assert((p + 2) % t == 0);
    }
}

/// Rotation partial sums line up with the original's shifted sums.
proof fn lemma_rotate_partial(m: Seq<Vec<u64>>, s: Seq<usize>, k: int)
    requires
        s.len() >= 1,
        0 <= k <= s.len() - 1,
    ensures
        partial_cost(m, rotate_route(s), k) == partial_cost(m, s, k + 1) - partial_cost(m, s, 1),
    decreases k,
{
    if k > 0 {
        lemma_rotate_partial(m, s, k - 1);
        lemma_rotate_edges(m, s, k - 1);
    }
}

/// The distance of a cyclic route does not change when the route is
/// rotated: the same edges are traversed, starting elsewhere.  Any cyclic
/// rotation is a chain of single-step rotations.
pub proof fn lemma_route_cost_rotation(m: Seq<Vec<u64>>, s: Seq<usize>)
    requires
        s.len() >= 1,
    ensures
        route_cost(m, rotate_route(s)) == route_cost(m, s),
{
    let t = s.len() as int;
    let rot = rotate_route(s);
    assert(rot.len() == t);
    lemma_rotate_partial(m, s, t - 1);
    assert(rot[t - 1] == s[0]);
    lemma_mod_self_0(t);
    assert(route_cost(m, rot) == partial_cost(m, rot, t - 1) + edge_cost(m, rot, t - 1));
    assert(partial_cost(m, s, 0) == 0);
    assert(partial_cost(m, s, 1) == edge_cost(m, s, 0));
    assert(edge_cost(m, rot, t - 1) == m[rot[t - 1] as int]@[rot[(t - 1 + 1) % t] as int]);
    assert((t - 1 + 1) % t == 0);
    if t == 1 {
        assert(rot[0] == s[0]);
        assert((0int + 1) % t == 0);
        assert(edge_cost(m, rot, 0) == edge_cost(m, s, 0));
    } else {
        lemma_small_mod(1nat, t as nat);
        assert(rot[0] == s[1]);
        assert(s[(0int + 1) % t] == s[1]);
        assert(edge_cost(m, rot, t - 1) == m[s[0] as int]@[s[1] as int]);
        assert(edge_cost(m, s, 0) == m[s[0] as int]@[s[1] as int]);
    }
}

/// Reversed edges match the original's edges read backwards.
proof fn lemma_reverse_edges(m: Seq<Vec<u64>>, s: Seq<usize>, n: int, p: int)
    requires
        s.len() >= 1,
        0 <= p < s.len() - 1,
        symmetric(m, n),
        entries_in_range(s, n),
    ensures
        edge_cost(m, s.reverse(), p) == edge_cost(m, s, s.len() - 2 - p),
{
    let t = s.len() as int;
    let rev = s.reverse();
    lemma_small_mod((p + 1) as nat, t as nat);
    assert(rev[p] == s[t - 1 - p]);
    assert(rev[(p + 1) % t] == rev[p + 1]);
    assert(rev[p + 1] == s[t - 2 - p]);
    lemma_small_mod((t - 1 - p) as nat, t as nat);
    assert((t - 2 - p) + 1 == t - 1 - p);
    assert(s[(t - 2 - p + 1) % t] == s[t - 1 - p]);
    assert(m[s[t - 1 - p] as int]@[s[t - 2 - p] as int] == m[s[t - 2 - p] as int]@[s[t - 1
        - p] as int]);
}

/// Reversal partial sums line up with the original's suffix sums.
proof fn lemma_reverse_partial(m: Seq<Vec<u64>>, s: Seq<usize>, n: int, k: int)
    requires
        s.len() >= 1,
        0 <= k <= s.len() - 1,
        symmetric(m, n),
        entries_in_range(s, n),
    ensures
        partial_cost(m, s.reverse(), k) == partial_cost(m, s, s.len() - 1) - partial_cost(
            m,
            s,
            s.len() - 1 - k,
        ),
    decreases k,
{
    if k > 0 {
        lemma_reverse_partial(m, s, n, k - 1);
        lemma_reverse_edges(m, s, n, k - 1);
    }
}

/// For a symmetric matrix, a route and its reversal have the same
/// distance; with an asymmetric matrix the two are distinct values.
pub proof fn lemma_route_cost_reverse(m: Seq<Vec<u64>>, s: Seq<usize>, n: int)
    requires
        s.len() >= 1,
        symmetric(m, n),
        entries_in_range(s, n),
    ensures
        route_cost(m, s.reverse()) == route_cost(m, s),
{
    let t = s.len() as int;
    let rev = s.reverse();
    lemma_reverse_partial(m, s, n, t - 1);
    lemma_mod_self_0(t);
    assert(rev[t - 1] == s[0]);
    assert(rev[0] == s[t - 1]);
    assert(edge_cost(m, rev, t - 1) == m[s[0] as int]@[s[t - 1] as int]) by {
        assert((t - 1 + 1) % t == 0);
    }
    assert(edge_cost(m, s, t - 1) == m[s[t - 1] as int]@[s[0] as int]) by {
        assert((t - 1 + 1) % t == 0);
    }
    assert(m[s[0] as int]@[s[t - 1] as int] == m[s[t - 1] as int]@[s[0] as int]);
}

/// Computes the distance objective of routes against one matrix.
pub struct DistancePenalizer {
    pub distance_matrix: DistanceMatrix,
}

impl DistancePenalizer {
    pub open spec fn wf(self) -> bool {
        self.distance_matrix.wf()
    }

    pub fn new(distance_matrix: DistanceMatrix) -> (r: DistancePenalizer)
        ensures
            r.distance_matrix == distance_matrix,
    {
        DistancePenalizer { distance_matrix }
    }

    /// The total distance of the cyclic route.
    pub fn penalize(&self, route: &Route) -> (r: u64)
        requires
            self.wf(),
            1 <= route.sequence@.len() <= MAX_LOCATIONS,
            forall|p: int|
                0 <= p < route.sequence@.len() ==> (#[trigger] route.sequence@[p])
                    < self.distance_matrix.n(),
        ensures
            r == route_cost(self.distance_matrix.matrix@, route.sequence@),
    {
        route.distance(&self.distance_matrix)
    }
}

} // verus!
