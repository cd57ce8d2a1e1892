//! Iterated local search: improve the current solution by neighborhood
//! moves until no move helps, fold it into the best solution found, and
//! restart from a random permutation while the wall-clock budget lasts.

use rand::seq::SliceRandom;

use vstd::prelude::*;

use crate::input::Input;
use crate::local_moves::{
    lemma_rotated_permutation, lemma_swap_permutation, lemma_two_opt_permutation, one_shift_left,
    one_shift_left_rel, one_shift_right, one_shift_right_rel, swap, swap_rel,
    three_shift_left, three_shift_left_rel, three_shift_right, three_shift_right_rel, two_opt,
    two_opt_rel, two_shift_left, two_shift_left_rel, two_shift_right, two_shift_right_rel,
};
use crate::output::{clone_solution, clone_usizes, key_le, key_lt, lemma_key_order, solution_key, Solution};
use crate::penalizer::{eval_key, solution_matches, spec_is_better, Penalizer};
use crate::route::{is_permutation, Route};
use crate::time::TimePenalizer;

verus! {

/// Hard ceiling on the iteration counter; the driver stops rather than let
/// the counter wrap.
pub const MAX_ITERATIONS: u64 = u64::MAX;

/// Relies on chrono's `Utc::now`: reads the wall clock as Unix seconds.
/// Nothing is assumed of the value it returns.
#[verifier::external_body]
fn now_seconds() -> i64 {
    chrono::Utc::now().timestamp()
}

/// The wall clock as a non-negative count of Unix seconds.
fn now_clamped() -> u64 {
    let t = now_seconds();
    if t < 0 {
        0
    } else {
        t as u64
    }
}

/// Relies on rand's `SliceRandom::shuffle`: an in-place Fisher-Yates
/// shuffle, which only exchanges elements, so the result holds exactly the
/// values of the input.
#[verifier::external_body]
fn shuffled(v: &Vec<usize>) -> (r: Vec<usize>)
    ensures
        r@.to_multiset() == v@.to_multiset(),
{
    let mut c = v.clone();
    c.shuffle(&mut rand::rng());
    c
}

/// A sequence holding the same values as a permutation is a permutation.
proof fn lemma_multiset_permutation(a: Seq<usize>, b: Seq<usize>, n: int)
    requires
        a.to_multiset() == b.to_multiset(),
        is_permutation(a, n),
    ensures
        is_permutation(b, n),
{
    broadcast use vstd::seq_lib::group_to_multiset_ensures;

    assert(a.no_duplicates());
    a.lemma_multiset_has_no_duplicates();
    b.lemma_multiset_has_no_duplicates_conv();
    assert(b.len() == b.to_multiset().len());
    assert(a.len() == a.to_multiset().len());
    assert forall|p: int| 0 <= p < b.len() implies (#[trigger] b[p]) < n by {
        assert(b.contains(b[p]));
        assert(b.to_multiset().count(b[p]) > 0);
        assert(a.contains(b[p]));
    }
    assert forall|p: int, q: int| 0 <= p < q < b.len() implies b[p] != b[q] by {
        assert(b.no_duplicates());
    }
}

/// The seven neighborhood moves, in the order the driver tries them.
pub enum MoveKind {
    TwoOpt,
    Swap,
    OneShiftLeft,
    OneShiftRight,
    TwoShiftLeft,
    TwoShiftRight,
    ThreeShiftLeft,
    ThreeShiftRight,
}

/// The least gap `j - i` a move needs to act on distinct elements.
pub open spec fn apply_gap(kind: MoveKind) -> int {
    match kind {
        MoveKind::TwoShiftLeft => 2,
        MoveKind::TwoShiftRight => 2,
        MoveKind::ThreeShiftLeft => 3,
        MoveKind::ThreeShiftRight => 3,
        _ => 1,
    }
}

/// What each move does to the route.
pub open spec fn move_rel(kind: MoveKind, pre: Seq<usize>, post: Seq<usize>, i: int, j: int) -> bool {
    match kind {
        MoveKind::TwoOpt => two_opt_rel(pre, post, i, j),
        MoveKind::Swap => swap_rel(pre, post, i, j),
        MoveKind::OneShiftLeft => one_shift_left_rel(pre, post, i, j),
        MoveKind::OneShiftRight => one_shift_right_rel(pre, post, i, j),
        MoveKind::TwoShiftLeft => two_shift_left_rel(pre, post, i, j),
        MoveKind::TwoShiftRight => two_shift_right_rel(pre, post, i, j),
        MoveKind::ThreeShiftLeft => three_shift_left_rel(pre, post, i, j),
        MoveKind::ThreeShiftRight => three_shift_right_rel(pre, post, i, j),
    }
}

/// Every move turns a permutation into a permutation.
pub proof fn lemma_move_permutation(
    kind: MoveKind,
    pre: Seq<usize>,
    post: Seq<usize>,
    i: int,
    j: int,
    n: int,
)
    requires
        move_rel(kind, pre, post, i, j),
        j - i >= apply_gap(kind),
        is_permutation(pre, n),
    ensures
        is_permutation(post, n),
{
    match kind {
        MoveKind::TwoOpt => lemma_two_opt_permutation(pre, post, i, j, n),
        MoveKind::Swap => lemma_swap_permutation(pre, post, i, j, n),
        MoveKind::OneShiftLeft => lemma_rotated_permutation(pre, post, i, j, j - i, n),
        MoveKind::OneShiftRight => lemma_rotated_permutation(pre, post, i, j, 1, n),
        MoveKind::TwoShiftLeft => lemma_rotated_permutation(pre, post, i, j, j - i - 1, n),
        MoveKind::TwoShiftRight => lemma_rotated_permutation(pre, post, i, j, 2, n),
        MoveKind::ThreeShiftLeft => lemma_rotated_permutation(pre, post, i, j, j - i - 2, n),
        MoveKind::ThreeShiftRight => lemma_rotated_permutation(pre, post, i, j, 3, n),
    }
}

/// The identity permutation as a sequence.
pub open spec fn identity_seq(n: int) -> Seq<usize> {
    Seq::new(n as nat, |k: int| k as usize)
}

/// The rotation offset of each shift move.
pub open spec fn rotation_offset(kind: MoveKind, i: int, j: int) -> int {
    match kind {
        MoveKind::OneShiftLeft => j - i,
        MoveKind::OneShiftRight => 1,
        MoveKind::TwoShiftLeft => j - i - 1,
        MoveKind::TwoShiftRight => 2,
        MoveKind::ThreeShiftLeft => j - i - 2,
        MoveKind::ThreeShiftRight => 3,
        _ => 0,
    }
}

/// The route a move produces, as a function of the route and the positions.
pub open spec fn moved_route(kind: MoveKind, s: Seq<usize>, i: int, j: int) -> Seq<usize> {
    match kind {
        MoveKind::TwoOpt => Seq::new(
            s.len(),
            |k: int|
                if i <= k <= j {
                    s[i + j - k]
                } else {
                    s[k]
                },
        ),
        MoveKind::Swap => Seq::new(
            s.len(),
            |k: int|
                if k == i {
                    s[j]
                } else if k == j {
                    s[i]
                } else {
                    s[k]
                },
        ),
        _ => Seq::new(
            s.len(),
            |k: int|
                if i <= k <= j {
                    s[i + ((k - i + rotation_offset(kind, i, j)) % (j - i + 1))]
                } else {
                    s[k]
                },
        ),
    }
}

/// Each move computes exactly its route function.
pub proof fn lemma_move_is_function(
    kind: MoveKind,
    pre: Seq<usize>,
    post: Seq<usize>,
    i: int,
    j: int,
)
    requires
        move_rel(kind, pre, post, i, j),
    ensures
        post == moved_route(kind, pre, i, j),
{
    let m = moved_route(kind, pre, i, j);
    assert forall|k: int| 0 <= k < post.len() implies post[k] == m[k] by {
        match kind {
            MoveKind::TwoOpt => {},
            MoveKind::Swap => {},
            _ => {
                if i <= k <= j {
                    assert(post[i + (k - i)] == pre[i + ((k - i + rotation_offset(kind, i, j)) % (
                    j - i + 1))]);
                }
            },
        }
    }
    assert(post =~= m);
}

/// Positions a move scan visits: both in range, at least the margin apart.
pub open spec fn admissible_pair(n: int, min_margin: int, i: int, j: int) -> bool {
    0 <= i && i + 1 + min_margin <= j && j < n
}

/// No admissible application of the move to the route evaluates strictly
/// better than the route itself.
pub open spec fn move_optimal(p: Penalizer, s: Seq<usize>, kind: MoveKind, min_margin: int) -> bool {
    forall|ii: int, jj: int|
        admissible_pair(s.len() as int, min_margin, ii, jj) ==> !key_lt(
            eval_key(p, #[trigger] moved_route(kind, s, ii, jj)),
            eval_key(p, s),
        )
}

/// The route is a local optimum of the whole neighborhood: no move of the
/// seven, at its scan margin, evaluates strictly better.
pub open spec fn locally_optimal(p: Penalizer, s: Seq<usize>) -> bool {
    &&& move_optimal(p, s, MoveKind::TwoOpt, 0)
    &&& move_optimal(p, s, MoveKind::Swap, 2)
    &&& move_optimal(p, s, MoveKind::OneShiftLeft, 1)
    &&& move_optimal(p, s, MoveKind::OneShiftRight, 1)
    &&& move_optimal(p, s, MoveKind::TwoShiftLeft, 2)
    &&& move_optimal(p, s, MoveKind::TwoShiftRight, 3)
    &&& move_optimal(p, s, MoveKind::ThreeShiftLeft, 4)
    &&& move_optimal(p, s, MoveKind::ThreeShiftRight, 5)
}

/// Applies one move in place.
fn apply_move(route: &mut Route, kind: &MoveKind, i: usize, j: usize)
    requires
        i < j < old(route).sequence@.len(),
        j - i >= apply_gap(*kind),
    ensures
        move_rel(*kind, old(route).sequence@, final(route).sequence@, i as int, j as int),
{
    match kind {
        MoveKind::TwoOpt => two_opt(route, i, j),
        MoveKind::Swap => swap(route, i, j),
        MoveKind::OneShiftLeft => one_shift_left(route, i, j),
        MoveKind::OneShiftRight => one_shift_right(route, i, j),
        MoveKind::TwoShiftLeft => two_shift_left(route, i, j),
        MoveKind::TwoShiftRight => two_shift_right(route, i, j),
        MoveKind::ThreeShiftLeft => three_shift_left(route, i, j),
        MoveKind::ThreeShiftRight => three_shift_right(route, i, j),
    }
}

/// The iterated local-search driver.
pub struct Solver {
    pub n: usize,
    pub penalizer: Penalizer,
    pub current_solution: Solution,
    pub best_solution: Solution,
    pub time_limit: Option<u64>,
    pub start: u64,
    pub iterations: u64,
    pub time_taken: u64,
    /// The comparison keys of every solution the driver has held as its
    /// current solution.
    pub history: Ghost<Seq<(int, int, int, int, int, int)>>,
}

impl Solver {
    /// The solutions match the configuration, and the best solution is, or
    /// the current solution still is, at least as good as every solution
    /// ever held.
    pub open spec fn wf(self) -> bool {
        &&& self.penalizer.wf()
        &&& self.n == self.penalizer.n()
        &&& self.n >= 1
        &&& is_permutation(self.current_solution.route.sequence@, self.n as int)
        &&& is_permutation(self.best_solution.route.sequence@, self.n as int)
        &&& self.current_solution.time_report.is_some() == self.penalizer.time_penalizer.is_some()
        &&& self.best_solution.time_report.is_some() == self.penalizer.time_penalizer.is_some()
        &&& solution_matches(self.penalizer, self.current_solution)
        &&& solution_matches(self.penalizer, self.best_solution)
        &&& forall|k: int|
            0 <= k < self.history@.len() ==> (key_le(
                solution_key(self.best_solution),
                #[trigger] self.history@[k],
            ) || key_le(solution_key(self.current_solution), self.history@[k]))
    }

    /// With matching reports, the executable comparison agrees with the
    /// six-key order.
    proof fn lemma_better_is_key_lt(self, a: Solution, b: Solution)
        requires
            a.time_report.is_some() == self.penalizer.time_penalizer.is_some(),
            b.time_report.is_some() == self.penalizer.time_penalizer.is_some(),
        ensures
            spec_is_better(self.penalizer, a, b) == key_lt(solution_key(a), solution_key(b)),
    {
    }

    /// Builds the driver: the initial solution is the given route, or the
    /// identity permutation when none is given.
    pub fn new(input: Input) -> (r: Solver)
        requires
            input.wf(),
        ensures
            r.wf(),
            r.n == input.distance_matrix.n(),
            r.penalizer.distance_penalizer.distance_matrix == input.distance_matrix,
            r.penalizer.time_penalizer.is_some() == input.time_input.is_some(),
            r.time_limit == input.time_limit,
            r.iterations == 1,
            r.current_solution.route.sequence@ == (match input.init_route {
                Some(ir) => ir.sequence@,
                None => identity_seq(input.distance_matrix.n()),
            }),
            r.best_solution.route.sequence@ == r.current_solution.route.sequence@,
            solution_key(r.best_solution) == solution_key(r.current_solution),
            solution_key(r.current_solution) == eval_key(
                r.penalizer,
                r.current_solution.route.sequence@,
            ),
    {
        let n = input.distance_matrix.len();
        let distance_matrix = input.distance_matrix;
        let time_limit = input.time_limit;
        let penalizer = Penalizer::new(
            crate::distance::DistancePenalizer::new(distance_matrix),
            match input.time_input {
                Some(ti) => Some(TimePenalizer::new(ti)),
                None => None,
            },
        );
        let route = match input.init_route {
            Some(route) => route,
            None => identity_route(n),
        };
        let current_solution = penalizer.penalize(route, false);
        let best_solution = clone_solution(&current_solution);
        let start = now_clamped();
        let ghost history = seq![solution_key(current_solution)];
        Solver {
            n,
            penalizer,
            current_solution,
            best_solution,
            time_limit,
            start,
            iterations: 1,
            time_taken: 0,
            history: Ghost(history),
        }
    }

    /// A fresh random permutation, evaluated.
    fn generate_initial_solution(&self) -> (r: Solution)
        requires
            self.wf(),
        ensures
            is_permutation(r.route.sequence@, self.n as int),
            r.time_report.is_some() == self.penalizer.time_penalizer.is_some(),
            solution_matches(self.penalizer, r),
    {
        let identity = identity_route(self.n);
        let sequence = shuffled(&identity.sequence);
        proof {
            lemma_multiset_permutation(identity.sequence@, sequence@, self.n as int);
        }
        let route = Route::new(sequence);
        self.penalizer.penalize(route, false)
    }

    /// Counts one more evaluated solution, stopping at the ceiling.
    fn note_iteration(&mut self)
        ensures
            final(self).n == old(self).n,
            final(self).penalizer == old(self).penalizer,
            final(self).current_solution == old(self).current_solution,
            final(self).best_solution == old(self).best_solution,
            final(self).time_limit == old(self).time_limit,
            final(self).start == old(self).start,
            final(self).time_taken == old(self).time_taken,
            final(self).history == old(self).history,
            old(self).iterations <= final(self).iterations,
            final(self).iterations <= old(self).iterations + 1,
            old(self).iterations < MAX_ITERATIONS ==> final(self).iterations == old(
                self,
            ).iterations + 1,
    {
        if self.iterations < MAX_ITERATIONS {
            self.iterations += 1;
        }
    }

    /// Scans all admissible position pairs of one move, accepting every
    /// strictly improving neighbor; within the scan the current solution
    /// never worsens, and when no improvement is reported, no admissible
    /// application of the move evaluates better than the current solution.
    pub fn run_move(&mut self, kind: &MoveKind, min_margin: usize) -> (improved: bool)
        requires
            old(self).wf(),
            apply_gap(*kind) <= min_margin + 1,
            min_margin <= 8,
        ensures
            final(self).wf(),
            final(self).penalizer == old(self).penalizer,
            final(self).n == old(self).n,
            final(self).time_limit == old(self).time_limit,
            final(self).start == old(self).start,
            final(self).best_solution == old(self).best_solution,
            final(self).time_taken == old(self).time_taken,
            final(self).iterations >= old(self).iterations,
            old(self).n >= 2 + min_margin && old(self).iterations < MAX_ITERATIONS
                ==> final(self).iterations > old(self).iterations,
            improved ==> key_lt(
                solution_key(final(self).current_solution),
                solution_key(old(self).current_solution),
            ),
            !improved ==> final(self).current_solution == old(self).current_solution,
            !improved ==> move_optimal(
                old(self).penalizer,
                old(self).current_solution.route.sequence@,
                *kind,
                min_margin as int,
            ),
            key_le(
                solution_key(final(self).current_solution),
                solution_key(old(self).current_solution),
            ),
    {
        let ghost entry = *self;
        let ghost p = entry.penalizer;
        let ghost s0 = entry.current_solution.route.sequence@;
        let mut improved = false;
        let n = self.n;
        let mut i: usize = 0;
        while i < n
            invariant
                self.wf(),
                self.penalizer == entry.penalizer,
                self.n == entry.n,
                n == entry.n,
                self.time_limit == entry.time_limit,
                self.start == entry.start,
                self.best_solution == entry.best_solution,
                self.time_taken == entry.time_taken,
                self.iterations >= entry.iterations,
                min_margin <= 8,
                apply_gap(*kind) <= min_margin + 1,
                improved ==> key_lt(
                    solution_key(self.current_solution),
                    solution_key(entry.current_solution),
                ),
                !improved ==> self.current_solution == entry.current_solution,
                s0 == entry.current_solution.route.sequence@,
                p == entry.penalizer,
                s0.len() == n,
                !improved ==> forall|ii: int, jj: int|
                    ii < i && admissible_pair(n as int, min_margin as int, ii, jj) ==> !key_lt(
                        eval_key(p, #[trigger] moved_route(*kind, s0, ii, jj)),
                        eval_key(p, s0),
                    ),
                entry.iterations < MAX_ITERATIONS && n >= 2 + min_margin && i > 0
                    ==> self.iterations > entry.iterations,
            decreases n - i,
        {
            let mut j = i + 1 + min_margin;
            while j < n
                invariant
                    self.wf(),
                    self.penalizer == entry.penalizer,
                    self.n == entry.n,
                    n == entry.n,
                    self.time_limit == entry.time_limit,
                    self.start == entry.start,
                    self.best_solution == entry.best_solution,
                    self.time_taken == entry.time_taken,
                    self.iterations >= entry.iterations,
                    i < n,
                    j >= i + 1 + min_margin,
                    min_margin <= 8,
                    apply_gap(*kind) <= min_margin + 1,
                    improved ==> key_lt(
                        solution_key(self.current_solution),
                        solution_key(entry.current_solution),
                    ),
                    !improved ==> self.current_solution == entry.current_solution,
                    s0 == entry.current_solution.route.sequence@,
                    p == entry.penalizer,
                    s0.len() == n,
                    !improved ==> forall|ii: int, jj: int|
                        ii < i && admissible_pair(n as int, min_margin as int, ii, jj) ==> !key_lt(
                            eval_key(p, #[trigger] moved_route(*kind, s0, ii, jj)),
                            eval_key(p, s0),
                        ),
                    !improved ==> forall|jj: int|
                        i + 1 + min_margin <= jj < j ==> !key_lt(
                            eval_key(p, #[trigger] moved_route(*kind, s0, i as int, jj)),
                            eval_key(p, s0),
                        ),
                    entry.iterations < MAX_ITERATIONS && n >= 2 + min_margin && (i > 0 || j > i
                        + 1 + min_margin) ==> self.iterations > entry.iterations,
                decreases n - j,
            {
                let mut new_route = Route {
                    sequence: clone_usizes(&self.current_solution.route.sequence),
                };
                apply_move(&mut new_route, kind, i, j);
                proof {
                    assert(j - i >= apply_gap(*kind));
                    lemma_move_permutation(
                        *kind,
                        self.current_solution.route.sequence@,
                        new_route.sequence@,
                        i as int,
                        j as int,
                        self.n as int,
                    );
                }
                let new_solution = self.penalizer.penalize(new_route, false);
                self.note_iteration();
                proof {
                    lemma_move_is_function(
                        *kind,
                        self.current_solution.route.sequence@,
                        new_route.sequence@,
                        i as int,
                        j as int,
                    );
                }
                let better = self.penalizer.is_better(&new_solution, &self.current_solution);
                proof {
                    self.lemma_better_is_key_lt(new_solution, self.current_solution);
                    if !improved && !better {
                        assert(self.current_solution == entry.current_solution);
                        assert(new_route.sequence@ == moved_route(*kind, s0, i as int, j as int));
                        assert(solution_key(new_solution) == eval_key(
                            p,
                            moved_route(*kind, s0, i as int, j as int),
                        ));
                        assert(solution_key(self.current_solution) == eval_key(p, s0));
                        assert(!key_lt(
                            eval_key(p, moved_route(*kind, s0, i as int, j as int)),
                            eval_key(p, s0),
                        ));
                    }
                }
                if better {
                    proof {
                        self.lemma_better_is_key_lt(new_solution, self.current_solution);
                        let new_key = solution_key(new_solution);
                        let cur_key = solution_key(self.current_solution);
                        let entry_key = solution_key(entry.current_solution);
                        lemma_key_order(new_key, cur_key, entry_key);
                    }
                    let ghost old_history = self.history@;
                    let ghost prev_cur_key = solution_key(self.current_solution);
                    self.history = Ghost(self.history@.push(solution_key(new_solution)));
                    self.current_solution = new_solution;
                    improved = true;
                    proof {
                        let nk = solution_key(self.current_solution);
                        assert forall|k: int| 0 <= k < self.history@.len() implies (key_le(
                            solution_key(self.best_solution),
                            #[trigger] self.history@[k],
                        ) || key_le(nk, self.history@[k])) by {
                            if k < old_history.len() {
                                assert(old_history.push(nk)[k] == old_history[k]);
                                lemma_key_order(nk, prev_cur_key, old_history[k]);
                            } else {
                                assert(old_history.push(nk)[k] == nk);
                                lemma_key_order(nk, nk, nk);
                            }
                        }
                        lemma_key_order(
                            nk,
                            prev_cur_key,
                            solution_key(entry.current_solution),
                        );
                    }
                }
                j += 1;
            }
            proof {
                if !improved {
                    assert forall|ii: int, jj: int|
                        ii < i + 1 && admissible_pair(n as int, min_margin as int, ii, jj)
                            implies !key_lt(
                        eval_key(p, #[trigger] moved_route(*kind, s0, ii, jj)),
                        eval_key(p, s0),
                    ) by {
                        if ii == i {
                            assert(i + 1 + min_margin <= jj < n);
                        }
                    }
                }
            }
            i += 1;
        }
        improved
    }

    /// One full pass over all seven moves; the current solution never
    /// worsens, strictly improves when any move was accepted, and is a
    /// local optimum of the whole neighborhood when none was.
    pub fn run_heuristics(&mut self) -> (improved: bool)
        requires
            old(self).wf(),
        ensures
            final(self).wf(),
            final(self).penalizer == old(self).penalizer,
            final(self).n == old(self).n,
            final(self).time_limit == old(self).time_limit,
            final(self).start == old(self).start,
            final(self).best_solution == old(self).best_solution,
            final(self).time_taken == old(self).time_taken,
            final(self).iterations >= old(self).iterations,
            old(self).n >= 2 && old(self).iterations < MAX_ITERATIONS ==> final(self).iterations
                > old(self).iterations,
            improved ==> key_lt(
                solution_key(final(self).current_solution),
                solution_key(old(self).current_solution),
            ),
            !improved ==> final(self).current_solution == old(self).current_solution,
            !improved ==> locally_optimal(
                old(self).penalizer,
                old(self).current_solution.route.sequence@,
            ),
    {
        let ghost entry = *self;
        let mut improved = false;
        let ghost c1 = *self;
        let r1 = self.run_move(&MoveKind::TwoOpt, 0);
        proof {
            if r1 {
                lemma_key_order(
                    solution_key(self.current_solution),
                    solution_key(c1.current_solution),
                    solution_key(entry.current_solution),
                );
            }
        }
        improved = improved || r1;
        // a smaller margin would repeat a transform an earlier move in this
        // pass already enumerates under another name
        let ghost c2 = *self;
        let r2 = self.run_move(&MoveKind::Swap, 2);
        proof {
            if r2 {
                lemma_key_order(
                    solution_key(self.current_solution),
                    solution_key(c2.current_solution),
                    solution_key(entry.current_solution),
                );
            }
        }
        improved = improved || r2;
        let ghost c3 = *self;
        let r3 = self.run_move(&MoveKind::OneShiftLeft, 1);
        proof {
            if r3 {
                lemma_key_order(
                    solution_key(self.current_solution),
                    solution_key(c3.current_solution),
                    solution_key(entry.current_solution),
                );
            }
        }
        improved = improved || r3;
        let ghost c4 = *self;
        let r4 = self.run_move(&MoveKind::OneShiftRight, 1);
        proof {
            if r4 {
                lemma_key_order(
                    solution_key(self.current_solution),
                    solution_key(c4.current_solution),
                    solution_key(entry.current_solution),
                );
            }
        }
        improved = improved || r4;
        let ghost c5 = *self;
        let r5 = self.run_move(&MoveKind::TwoShiftLeft, 2);
        proof {
            if r5 {
                lemma_key_order(
                    solution_key(self.current_solution),
                    solution_key(c5.current_solution),
                    solution_key(entry.current_solution),
                );
            }
        }
        improved = improved || r5;
        let ghost c6 = *self;
        let r6 = self.run_move(&MoveKind::TwoShiftRight, 3);
        proof {
            if r6 {
                lemma_key_order(
                    solution_key(self.current_solution),
                    solution_key(c6.current_solution),
                    solution_key(entry.current_solution),
                );
            }
        }
        improved = improved || r6;
        let ghost c7 = *self;
        let r7 = self.run_move(&MoveKind::ThreeShiftLeft, 4);
        proof {
            if r7 {
                lemma_key_order(
                    solution_key(self.current_solution),
                    solution_key(c7.current_solution),
                    solution_key(entry.current_solution),
                );
            }
        }
        improved = improved || r7;
        let ghost c8 = *self;
        let r8 = self.run_move(&MoveKind::ThreeShiftRight, 5);
        proof {
            if r8 {
                lemma_key_order(
                    solution_key(self.current_solution),
                    solution_key(c8.current_solution),
                    solution_key(entry.current_solution),
                );
            }
        }
        improved = improved || r8;
        proof {
            if !improved {
                assert(self.current_solution == entry.current_solution);
                assert(locally_optimal(entry.penalizer, entry.current_solution.route.sequence@));
            }
        }
        improved
    }

    /// Whether the wall-clock budget is exhausted; with no budget the
    /// driver stops after one pass instead.
    fn termination_criterion(&self) -> (r: bool)
        ensures
            self.time_limit is None ==> r == false,
    {
        match self.time_limit {
            Some(limit) => {
                let now = now_clamped();
                let elapsed = if now > self.start {
                    now - self.start
                } else {
                    0
                };
                elapsed >= limit
            },
            None => false,
        }
    }

    fn one_time(&self) -> (r: bool)
        ensures
            r == (self.time_limit is None),
    {
        match self.time_limit {
            Some(_) => false,
            None => true,
        }
    }

    /// Runs the search: improvement passes until none helps, fold the
    /// current solution into the best, and restart from a random
    /// permutation until the budget runs out.  Afterwards the best solution
    /// ranks at least as good as every solution the driver ever held, and
    /// with no budget it ranks at least as good as a local optimum of the
    /// whole neighborhood.
    #[verifier::rlimit(100)]
    pub fn solve(&mut self)
        requires
            old(self).wf(),
        ensures
            final(self).wf(),
            final(self).time_limit == old(self).time_limit,
            final(self).penalizer == old(self).penalizer,
            final(self).n == old(self).n,
            key_le(
                solution_key(final(self).best_solution),
                solution_key(old(self).best_solution),
            ),
            forall|k: int|
                0 <= k < final(self).history@.len() ==> key_le(
                    solution_key(final(self).best_solution),
                    #[trigger] final(self).history@[k],
                ),
            final(self).iterations >= old(self).iterations,
            old(self).time_limit is None && old(self).iterations < MAX_ITERATIONS
                ==> final(self).iterations > old(self).iterations,
            old(self).time_limit is None ==> exists|sw: Seq<usize>|
                is_permutation(sw, old(self).n as int) && #[trigger] locally_optimal(
                    old(self).penalizer,
                    sw,
                ) && key_le(
                    solution_key(final(self).best_solution),
                    eval_key(old(self).penalizer, sw),
                ),
    {
        let ghost entry = *self;
        self.start = now_clamped();
        loop
            invariant
                self.wf(),
                self.penalizer == entry.penalizer,
                self.n == entry.n,
                self.time_limit == entry.time_limit,
                self.iterations >= entry.iterations,
                key_le(solution_key(self.best_solution), solution_key(entry.best_solution)),
            ensures
                self.wf(),
                self.penalizer == entry.penalizer,
                self.n == entry.n,
                self.time_limit == entry.time_limit,
                key_le(solution_key(self.best_solution), solution_key(entry.best_solution)),
                forall|k: int|
                    0 <= k < self.history@.len() ==> key_le(
                        solution_key(self.best_solution),
                        #[trigger] self.history@[k],
                    ),
                self.iterations >= entry.iterations,
                entry.time_limit is None && entry.iterations < MAX_ITERATIONS
                    ==> self.iterations > entry.iterations,
                entry.time_limit is None ==> exists|sw: Seq<usize>|
                    is_permutation(sw, entry.n as int) && #[trigger] locally_optimal(
                        entry.penalizer,
                        sw,
                    ) && key_le(
                        solution_key(self.best_solution),
                        eval_key(entry.penalizer, sw),
                    ),
            decreases MAX_ITERATIONS - self.iterations,
        {
            let ghost round = *self;
            let mut improved = true;
            while improved && !self.termination_criterion()
                invariant
                    self.wf(),
                    self.penalizer == round.penalizer,
                    self.n == round.n,
                    self.time_limit == round.time_limit,
                    self.best_solution == round.best_solution,
                    self.iterations >= round.iterations,
                    self.iterations >= entry.iterations,
                    !improved ==> locally_optimal(
                        self.penalizer,
                        self.current_solution.route.sequence@,
                    ),
                decreases
                    solution_key(self.current_solution).0,
                    solution_key(self.current_solution).1,
                    solution_key(self.current_solution).2,
                    solution_key(self.current_solution).3,
                    solution_key(self.current_solution).4,
                    solution_key(self.current_solution).5,
                    (if improved { 1int } else { 0int }),
            {
                improved = self.run_heuristics();
            }
            proof {
                if self.time_limit is None {
                    assert(!improved);
                }
            }
            // fold the current solution into the best
            if self.penalizer.is_better(&self.current_solution, &self.best_solution) {
                proof {
                    self.lemma_better_is_key_lt(self.current_solution, self.best_solution);
                }
                self.best_solution = clone_solution(&self.current_solution);
            }
            proof {
                self.lemma_better_is_key_lt(self.current_solution, self.best_solution);
                assert forall|k: int| 0 <= k < self.history@.len() implies key_le(
                    solution_key(self.best_solution),
                    #[trigger] self.history@[k],
                ) by {
                    lemma_key_order(
                        solution_key(self.best_solution),
                        solution_key(round.best_solution),
                        self.history@[k],
                    );
                    lemma_key_order(
                        solution_key(self.best_solution),
                        solution_key(self.current_solution),
                        self.history@[k],
                    );
                }
                lemma_key_order(
                    solution_key(self.best_solution),
                    solution_key(round.best_solution),
                    solution_key(entry.best_solution),
                );
            }
            // in one-pass mode the pass has converged: the current
            // solution is a local optimum of the whole neighborhood
            let ghost wit = self.current_solution.route.sequence@;
            let ghost bk = solution_key(self.best_solution);
            proof {
                if self.time_limit is None {
                    assert(locally_optimal(entry.penalizer, wit));
                    assert(solution_key(self.current_solution) == eval_key(
                        entry.penalizer,
                        wit,
                    ));
                    assert(key_le(bk, solution_key(self.current_solution)));
                    assert(key_le(bk, eval_key(entry.penalizer, wit)));
                    assert(is_permutation(wit, entry.n as int));
                }
            }
            if self.iterations >= MAX_ITERATIONS {
                proof {
                    if self.time_limit is None {
                        assert(is_permutation(wit, entry.n as int) && locally_optimal(
                            entry.penalizer,
                            wit,
                        ) && key_le(
                            solution_key(self.best_solution),
                            eval_key(entry.penalizer, wit),
                        ));
                    }
                }
                break;
            }
            if self.termination_criterion() {
                break;
            }
            // restart from a random permutation
            let sol = self.generate_initial_solution();
            self.note_iteration();
            proof {
                self.history@ = self.history@.push(solution_key(sol));
            }
            self.current_solution = sol;
            if self.penalizer.is_better(&self.current_solution, &self.best_solution) {
                proof {
                    self.lemma_better_is_key_lt(self.current_solution, self.best_solution);
                }
                self.best_solution = clone_solution(&self.current_solution);
            }
            proof {
                self.lemma_better_is_key_lt(self.current_solution, self.best_solution);
                assert forall|k: int| 0 <= k < self.history@.len() implies (key_le(
                    solution_key(self.best_solution),
                    #[trigger] self.history@[k],
                ) || key_le(solution_key(self.current_solution), self.history@[k])) by {
                    if k < self.history@.len() - 1 {
                        lemma_key_order(
                            solution_key(self.best_solution),
                            solution_key(round.best_solution),
                            self.history@[k],
                        );
                    } else {
                        assert(self.history@[k] == solution_key(self.current_solution));
                        lemma_key_order(
                            solution_key(self.current_solution),
                            solution_key(self.current_solution),
                            solution_key(self.current_solution),
                        );
                    }
                }
                lemma_key_order(
                    solution_key(self.best_solution),
                    solution_key(round.best_solution),
                    solution_key(entry.best_solution),
                );
            }
            if self.one_time() {
                proof {
                    lemma_key_order(
                        solution_key(self.best_solution),
                        bk,
                        eval_key(entry.penalizer, wit),
                    );
                    assert(is_permutation(wit, entry.n as int) && locally_optimal(
                        entry.penalizer,
                        wit,
                    ) && key_le(
                        solution_key(self.best_solution),
                        eval_key(entry.penalizer, wit),
                    ));
                }
                break;
            }
        }
        let now = now_clamped();
        self.time_taken = if now > self.start {
            now - self.start
        } else {
            0
        };
    }

    /// The best tour found.
    pub fn get_best_sequence(&self) -> (r: Vec<usize>)
        ensures
            r@ == self.best_solution.route.sequence@,
    {
        clone_usizes(&self.best_solution.route.sequence)
    }
}

/// The identity permutation over `n` locations.
fn identity_route(n: usize) -> (r: Route)
    requires
        n >= 1,
    ensures
        is_permutation(r.sequence@, n as int),
        r.sequence@ == identity_seq(n as int),
{
    let mut sequence: Vec<usize> = Vec::new();
    let mut k: usize = 0;
    while k < n
        invariant
            k <= n,
            sequence@.len() == k,
            forall|p: int| 0 <= p < k ==> #[trigger] sequence@[p] == p,
        decreases n - k,
    {
        sequence.push(k);
        k += 1;
    }
    proof {
        assert(sequence@ =~= identity_seq(n as int));
    }
    Route { sequence }
}

} // verus!
