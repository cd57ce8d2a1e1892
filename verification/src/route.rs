//! A cyclic visiting sequence over the locations.

use vstd::prelude::*;

use crate::distance::{edge_cost, partial_cost, route_cost, DistanceMatrix};
use crate::limits::{MAX_DISTANCE, MAX_LOCATIONS};
use vstd::arithmetic::div_mod::{lemma_mod_self_0, lemma_small_mod};

verus! {

/// A sequence is a permutation of the locations `0..n`: it has length `n`,
/// every entry is a location, and no location repeats.
pub open spec fn is_permutation(s: Seq<usize>, n: int) -> bool {
    &&& s.len() == n
    &&& forall|p: int| 0 <= p < s.len() ==> (#[trigger] s[p]) < n
    &&& forall|p: int, q: int| 0 <= p < q < s.len() ==> s[p] != s[q]
}

/// A cyclic tour: the last location closes back to the first.
#[derive(Debug, Clone)]
pub struct Route {
    pub sequence: Vec<usize>,
}

impl Route {
    pub fn new(sequence: Vec<usize>) -> (r: Route)
        ensures
            r.sequence == sequence,
    {
        Route { sequence }
    }

    pub fn len(&self) -> (r: usize)
        ensures
            r == self.sequence@.len(),
    {
        self.sequence.len()
    }

    /// The total distance of the tour: every consecutive edge plus the edge
    /// from the last location back to the first.
    pub fn distance(&self, matrix: &DistanceMatrix) -> (r: u64)
        requires
            matrix.wf(),
            1 <= self.sequence@.len() <= MAX_LOCATIONS,
            forall|p: int|
                0 <= p < self.sequence@.len() ==> (#[trigger] self.sequence@[p]) < matrix.n(),
        ensures
            r == route_cost(matrix.matrix@, self.sequence@),
    {
        let ghost m = matrix.matrix@;
        let ghost s = self.sequence@;
        let n = self.sequence.len();
        let mut total: u64 = 0;
        let mut i: usize = 0;
        while i < n - 1
            invariant
                matrix.wf(),
                s == self.sequence@,
                m == matrix.matrix@,
                n == s.len() >= 1,
                n <= MAX_LOCATIONS,
                forall|p: int| 0 <= p < s.len() ==> (#[trigger] s[p]) < matrix.n(),
                0 <= i <= n - 1,
                total == partial_cost(m, s, i as int),
                total <= i * MAX_DISTANCE,
            decreases n - i,
        {
            let d = matrix.distance(self.sequence[i], self.sequence[i + 1]);
            proof {
                lemma_small_mod((i + 1) as nat, s.len());
                assert(edge_cost(m, s, i as int) == d);
            }
            total += d;
            i += 1;
        }
        let closing = matrix.distance(self.sequence[n - 1], self.sequence[0]);
        proof {
            lemma_mod_self_0(s.len() as int);
            assert((n - 1 + 1) % (s.len() as int) == 0);
            assert(edge_cost(m, s, n - 1) == closing);
            assert(total + closing <= MAX_LOCATIONS * MAX_DISTANCE);
        }
        total + closing
    }
}

} // verus!
