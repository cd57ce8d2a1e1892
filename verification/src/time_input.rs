//! The bundle of time-related inputs: travel durations, job durations,
//! per-location time windows and optional operating hours.

use vstd::prelude::*;

use crate::input::SolverError;
use crate::limits::{MAX_LOCATIONS, MAX_TOTAL_DURATION, MAX_WINDOW_TIME, SECONDS_PER_DAY};
use crate::operation_times::OperationTimes;
use crate::sums::{
    all_nonneg, lemma_sum_entry, lemma_sum_take_le, lemma_sum_take_step, sum_ints, to_ints,
};
use crate::time_windows::{windows_bounded, TimeWindow, TimeWindows};

verus! {

/// Per-row sums of a duration matrix.
pub open spec fn row_sums(m: Seq<Vec<u64>>) -> Seq<int> {
    Seq::new(m.len(), |i: int| sum_ints(to_ints(m[i]@)))
}

/// Sum of every entry of a duration matrix.
pub open spec fn matrix_total(m: Seq<Vec<u64>>) -> int {
    sum_ints(row_sums(m))
}

/// Inputs for the schedule evaluation.
pub struct TimeInput {
    pub duration_matrix: Vec<Vec<u64>>,
    pub job_durations: Vec<u64>,
    pub time_windows: Vec<TimeWindows>,
    pub operation_times: Option<OperationTimes>,
    pub travel_duration_until_break: Option<u64>,
    pub break_duration: Option<u64>,
}

impl TimeInput {
    /// The number of locations.
    pub open spec fn n(self) -> int {
        self.duration_matrix@.len() as int
    }

    /// The matrix is square, the per-location tables have matching lengths,
    /// each location has at least one well-formed window list within the
    /// input horizon, the operating hours are well formed, and the combined
    /// work and travel durations respect the global budget.
    pub open spec fn wf(self) -> bool {
        &&& 1 <= self.n() <= MAX_LOCATIONS
        &&& forall|i: int|
            0 <= i < self.n() ==> (#[trigger] self.duration_matrix@[i])@.len() == self.n()
        &&& self.job_durations@.len() == self.n()
        &&& self.time_windows@.len() == self.n()
        &&& forall|i: int| 0 <= i < self.n() ==> (#[trigger] self.time_windows@[i]).wf()
        &&& forall|i: int|
            0 <= i < self.n() ==> windows_bounded((#[trigger] self.time_windows@[i]).windows@)
        &&& forall|i: int|
            0 <= i < self.n() ==> (#[trigger] self.time_windows@[i]).windows@.len() > 0
        &&& match self.operation_times {
            Some(ot) => ot.wf(),
            None => true,
        }
        &&& sum_ints(to_ints(self.job_durations@)) + matrix_total(self.duration_matrix@)
            <= MAX_TOTAL_DURATION
    }

    /// Every single job duration stays within the global budget.
    pub proof fn lemma_job_bound(self, loc: int)
        requires
            self.wf(),
            0 <= loc < self.n(),
        ensures
            self.job_durations@[loc] <= MAX_TOTAL_DURATION,
    {
        let jd = to_ints(self.job_durations@);
        lemma_sum_entry(jd, loc);
        lemma_matrix_total_nonneg(self.duration_matrix@);
    }

    /// Every single travel duration stays within the global budget.
    pub proof fn lemma_travel_bound(self, from: int, to: int)
        requires
            self.wf(),
            0 <= from < self.n(),
            0 <= to < self.n(),
        ensures
            self.duration_matrix@[from]@[to] <= MAX_TOTAL_DURATION,
    {
        let m = self.duration_matrix@;
        let row = to_ints(m[from]@);
        lemma_sum_entry(row, to);
        lemma_row_sums_nonneg(m);
        lemma_sum_entry(row_sums(m), from);
        assert(row_sums(m)[from] == sum_ints(row));
        assert(sum_ints(to_ints(self.job_durations@)) >= 0) by {
            crate::sums::lemma_sum_nonneg(to_ints(self.job_durations@));
        }
    }

    /// The travel duration from one location to another.
    pub fn travel_time(&self, from: usize, to: usize) -> (r: u64)
        requires
            self.wf(),
            from < self.n(),
            to < self.n(),
        ensures
            r == self.duration_matrix@[from as int]@[to as int],
            r <= MAX_TOTAL_DURATION,
    {
        proof {
            self.lemma_travel_bound(from as int, to as int);
        }
        self.duration_matrix[from][to]
    }
}

/// Whether raw operating hours restrict anything: a pair is inert when its
/// ends coincide or it spans a whole day, and absent hours restrict
/// nothing.
pub open spec fn op_raw_active(operation_times: Option<(u64, u64)>) -> bool {
    match operation_times {
        Some((s, e)) => s != e && e - s != SECONDS_PER_DAY,
        None => false,
    }
}

/// Active operating hours must lie inside one day, start before end.
pub open spec fn op_bounds_ok(operation_times: Option<(u64, u64)>) -> bool {
    op_raw_active(operation_times) ==> {
        let (s, e) = operation_times.unwrap();
        s < e <= SECONDS_PER_DAY
    }
}

/// A working-days vector that matters must cover the seven weekdays.
pub open spec fn wd_shape_ok(
    operation_times: Option<(u64, u64)>,
    working_days: Option<Vec<bool>>,
) -> bool {
    (op_raw_active(operation_times) && working_days is Some) ==> working_days.unwrap()@.len() == 7
}

/// A working-days vector that matters must mark at least one day.
pub open spec fn wd_nonempty_ok(
    operation_times: Option<(u64, u64)>,
    working_days: Option<Vec<bool>>,
) -> bool {
    (op_raw_active(operation_times) && working_days is Some) ==> exists|d: int|
        0 <= d < 7 && working_days.unwrap()@[d]
}

/// The time tables agree in shape: a square duration matrix over at least
/// one location, one job duration and one non-empty window list per
/// location.
pub open spec fn time_shape_ok(
    duration_matrix: Seq<Vec<u64>>,
    job_durations: Seq<u64>,
    time_windows: Seq<Vec<(u64, u64)>>,
) -> bool {
    &&& duration_matrix.len() >= 1
    &&& forall|i: int|
        0 <= i < duration_matrix.len() ==> (#[trigger] duration_matrix[i])@.len()
            == duration_matrix.len()
    &&& job_durations.len() == duration_matrix.len()
    &&& time_windows.len() == duration_matrix.len()
    &&& forall|i: int| 0 <= i < time_windows.len() ==> (#[trigger] time_windows[i])@.len() >= 1
}

/// Every location's window pairs are chronological and non-overlapping.
pub open spec fn windows_order_ok(time_windows: Seq<Vec<(u64, u64)>>) -> bool {
    &&& forall|i: int, k: int|
        0 <= i < time_windows.len() && 0 <= k < time_windows[i]@.len()
            ==> (#[trigger] time_windows[i]@[k]).0 <= time_windows[i]@[k].1
    &&& forall|i: int, k: int|
        0 <= i < time_windows.len() && 0 <= k && k + 1 < time_windows[i]@.len()
            ==> (#[trigger] time_windows[i]@[k]).1 <= time_windows[i]@[k + 1].0
}

/// The capacity limits: few enough locations, windows within the horizon,
/// and the combined duration budget respected.
pub open spec fn time_bounds_ok(
    duration_matrix: Seq<Vec<u64>>,
    job_durations: Seq<u64>,
    time_windows: Seq<Vec<(u64, u64)>>,
) -> bool {
    &&& duration_matrix.len() <= MAX_LOCATIONS
    &&& forall|i: int, k: int|
        0 <= i < time_windows.len() && 0 <= k < time_windows[i]@.len()
            ==> (#[trigger] time_windows[i]@[k]).1 <= MAX_WINDOW_TIME
    &&& sum_ints(to_ints(job_durations)) + matrix_total(duration_matrix) <= MAX_TOTAL_DURATION
}

/// Row sums of a duration matrix are non-negative.
pub proof fn lemma_row_sums_nonneg(m: Seq<Vec<u64>>)
    ensures
        all_nonneg(row_sums(m)),
{
    assert forall|i: int| 0 <= i < row_sums(m).len() implies #[trigger] row_sums(m)[i] >= 0 by {
        crate::sums::lemma_sum_nonneg(to_ints(m[i]@));
    }
}

/// The total of a duration matrix is non-negative.
pub proof fn lemma_matrix_total_nonneg(m: Seq<Vec<u64>>)
    ensures
        matrix_total(m) >= 0,
{
    lemma_row_sums_nonneg(m);
    crate::sums::lemma_sum_nonneg(row_sums(m));
}

/// Whether the combined duration budget is respected.
fn check_budget(duration_matrix: &Vec<Vec<u64>>, job_durations: &Vec<u64>) -> (r: bool)
    ensures
        r == (sum_ints(to_ints(job_durations@)) + matrix_total(duration_matrix@)
            <= MAX_TOTAL_DURATION),
{
    let ghost jd = to_ints(job_durations@);
    let ghost rs = row_sums(duration_matrix@);
    let mut total: u64 = 0;
    let mut k: usize = 0;
    while k < job_durations.len()
        invariant
            k <= job_durations@.len(),
            jd == to_ints(job_durations@),
            total == sum_ints(jd.take(k as int)),
            total <= MAX_TOTAL_DURATION,
        decreases job_durations@.len() - k,
    {
        let v = job_durations[k];
        proof {
            lemma_sum_take_step(jd, k as int);
        }
        if v > MAX_TOTAL_DURATION - total {
            proof {
                assert(all_nonneg(jd));
                lemma_sum_take_le(jd, k + 1);
                lemma_matrix_total_nonneg(duration_matrix@);
            }
            return false;
        }
        total += v;
        k += 1;
    }
    proof {
        assert(jd.take(job_durations@.len() as int) == jd);
    }
    let ghost jobs_total = sum_ints(jd);
    let mut i: usize = 0;
    while i < duration_matrix.len()
        invariant
            i <= duration_matrix@.len(),
            jd == to_ints(job_durations@),
            rs == row_sums(duration_matrix@),
            jobs_total == sum_ints(jd),
            total == jobs_total + sum_ints(rs.take(i as int)),
            total <= MAX_TOTAL_DURATION,
        decreases duration_matrix@.len() - i,
    {
        let row = &duration_matrix[i];
        let mut c: usize = 0;
        let ghost ri = to_ints(row@);
        while c < row.len()
            invariant
                c <= row@.len(),
                jd == to_ints(job_durations@),
                rs == row_sums(duration_matrix@),
                jobs_total == sum_ints(jd),
                i < duration_matrix@.len(),
                row == &duration_matrix@[i as int],
                ri == to_ints(row@),
                total == jobs_total + sum_ints(rs.take(i as int)) + sum_ints(ri.take(c as int)),
                total <= MAX_TOTAL_DURATION,
            decreases row@.len() - c,
        {
            let v = row[c];
            proof {
                lemma_sum_take_step(ri, c as int);
            }
            if v > MAX_TOTAL_DURATION - total {
                proof {
                    assert(all_nonneg(ri));
                    lemma_sum_take_le(ri, c + 1);
                    assert(rs[i as int] == sum_ints(ri));
                    assert(all_nonneg(rs)) by {
                        lemma_row_sums_nonneg(duration_matrix@);
                    }
                    lemma_sum_take_step(rs, i as int);
                    lemma_sum_take_le(rs, i + 1);
                }
                return false;
            }
            total += v;
            c += 1;
        }
        proof {
            assert(ri.take(row@.len() as int) == ri);
            assert(rs[i as int] == sum_ints(ri));
            lemma_sum_take_step(rs, i as int);
        }
        i += 1;
    }
    proof {
        assert(rs.take(duration_matrix@.len() as int) == rs);
    }
    true
}

/// Whether every row of the matrix has the matrix's length.
fn check_square(m: &Vec<Vec<u64>>) -> (r: bool)
    ensures
        r == forall|i: int| 0 <= i < m@.len() ==> (#[trigger] m@[i])@.len() == m@.len(),
{
    let n = m.len();
    let mut i: usize = 0;
    while i < n
        invariant
            i <= n,
            n == m@.len(),
            forall|x: int| 0 <= x < i ==> (#[trigger] m@[x])@.len() == n,
        decreases n - i,
    {
        if m[i].len() != n {
            return false;
        }
        i += 1;
    }
    true
}

/// Whether every location has at least one window pair.
fn check_windows_nonempty(tw: &Vec<Vec<(u64, u64)>>) -> (r: bool)
    ensures
        r == forall|i: int| 0 <= i < tw@.len() ==> (#[trigger] tw@[i])@.len() >= 1,
{
    let n = tw.len();
    let mut i: usize = 0;
    while i < n
        invariant
            i <= n,
            n == tw@.len(),
            forall|x: int| 0 <= x < i ==> (#[trigger] tw@[x])@.len() >= 1,
        decreases n - i,
    {
        if tw[i].len() < 1 {
            return false;
        }
        i += 1;
    }
    true
}

/// Whether every location's window pairs are chronological and
/// non-overlapping.
fn check_windows_order(tw: &Vec<Vec<(u64, u64)>>) -> (r: bool)
    ensures
        r == windows_order_ok(tw@),
{
    let n = tw.len();
    let mut i: usize = 0;
    while i < n
        invariant
            i <= n,
            n == tw@.len(),
            forall|x: int, k: int|
                0 <= x < i && 0 <= k < tw@[x]@.len() ==> (#[trigger] tw@[x]@[k]).0 <= tw@[x]@[k].1,
            forall|x: int, k: int|
                0 <= x < i && 0 <= k && k + 1 < tw@[x]@.len() ==> (#[trigger] tw@[x]@[k]).1
                    <= tw@[x]@[k + 1].0,
        decreases n - i,
    {
        let pairs = &tw[i];
        let mut k: usize = 0;
        while k < pairs.len()
            invariant
                k <= pairs@.len(),
                i < n == tw@.len(),
                pairs == &tw@[i as int],
                forall|x: int| 0 <= x < k ==> (#[trigger] pairs@[x]).0 <= pairs@[x].1,
                forall|x: int|
                    0 <= x < k && x + 1 < pairs@.len() ==> (#[trigger] pairs@[x]).1 <= pairs@[x
                        + 1].0,
            decreases pairs@.len() - k,
        {
            let (s, e) = pairs[k];
            if s > e {
                return false;
            }
            if k + 1 < pairs.len() {
                let (s2, _e2) = pairs[k + 1];
                if e > s2 {
                    return false;
                }
            }
            k += 1;
        }
        i += 1;
    }
    true
}

/// Whether every window lies within the input horizon.
fn check_windows_bounds(tw: &Vec<Vec<(u64, u64)>>) -> (r: bool)
    ensures
        r == time_bounds_ok_windows(tw@),
{
    let n = tw.len();
    let mut i: usize = 0;
    while i < n
        invariant
            i <= n,
            n == tw@.len(),
            forall|x: int, k: int|
                0 <= x < i && 0 <= k < tw@[x]@.len() ==> (#[trigger] tw@[x]@[k]).1
                    <= MAX_WINDOW_TIME,
        decreases n - i,
    {
        let pairs = &tw[i];
        let mut k: usize = 0;
        while k < pairs.len()
            invariant
                k <= pairs@.len(),
                i < n == tw@.len(),
                pairs == &tw@[i as int],
                forall|x: int| 0 <= x < k ==> (#[trigger] pairs@[x]).1 <= MAX_WINDOW_TIME,
            decreases pairs@.len() - k,
        {
            let (_s, e) = pairs[k];
            if e > MAX_WINDOW_TIME {
                return false;
            }
            k += 1;
        }
        i += 1;
    }
    true
}

/// Whether any of the seven weekdays is marked working.
fn check_any_day(days: &Vec<bool>) -> (r: bool)
    requires
        days@.len() == 7,
    ensures
        r == exists|d: int| 0 <= d < 7 && days@[d],
{
    let mut any: bool = false;
    let mut d: usize = 0;
    while d < 7
        invariant
            d <= 7,
            days@.len() == 7,
            any == exists|x: int| 0 <= x < d && days@[x],
        decreases 7 - d,
    {
        if days[d] {
            any = true;
            proof {
                assert(0 <= d < d + 1 && days@[d as int]);
            }
        }
        d += 1;
    }
    any
}

/// The list of weekday indices the mask marks as working.
fn working_day_list(days: &Vec<bool>) -> (r: Vec<u8>)
    requires
        days@.len() == 7,
        exists|d: int| 0 <= d < 7 && days@[d],
    ensures
        r@.len() >= 1,
        forall|m: int| 0 <= m < r@.len() ==> (#[trigger] r@[m]) < 7,
        forall|x: int| 0 <= x < 7 ==> ((#[trigger] r@.contains(x as u8)) <==> days@[x]),
{
    let mut v: Vec<u8> = Vec::new();
    let mut d: usize = 0;
    while d < 7
        invariant
            d <= 7,
            days@.len() == 7,
            forall|m: int| 0 <= m < v@.len() ==> (#[trigger] v@[m]) < 7,
            forall|x: int|
                0 <= x < 7 ==> ((#[trigger] v@.contains(x as u8)) <==> (x < d && days@[x])),
        decreases 7 - d,
    {
        if days[d] {
            let ghost prev = v@;
            let item = d as u8;
            v.push(item);
            proof {
                assert(v@ == prev.push(item));
                assert(v@.len() == prev.len() + 1);
                assert forall|x: int|
                    0 <= x < 7 implies ((#[trigger] v@.contains(x as u8)) <==> (x < d + 1 && days@[x])) by {
                    if x == d {
                        assert(prev.push(item)[prev.len() as int] == item);
                        assert(v@[prev.len() as int] == x as u8);
                        assert(v@.contains(x as u8));
                    } else {
                        assert(x as u8 != item);
                        if v@.contains(x as u8) {
                            let m = choose|m: int| 0 <= m < v@.len() && v@[m] == x as u8;
                            if m < prev.len() {
                                assert(prev.push(item)[m] == prev[m]);
                                assert(prev.contains(x as u8));
                            } else {
                                assert(prev.push(item)[m] == item);
                                assert(false);
                            }
                        }
                        if x < d + 1 && days@[x] {
                            assert(prev.contains(x as u8));
                            let m = choose|m: int| 0 <= m < prev.len() && prev[m] == x as u8;
                            assert(prev.push(item)[m] == prev[m]);
                            assert(v@.contains(x as u8));
                        }
                    }
                }
            }
        } else {
            proof {
                assert forall|x: int|
                    0 <= x < 7 implies ((#[trigger] v@.contains(x as u8)) <==> (x < d + 1 && days@[x])) by {
                    if x == d {
                        assert(!days@[x]);
                    }
                }
            }
        }
        d += 1;
    }
    proof {
        let x = choose|x: int| 0 <= x < 7 && days@[x];
        assert(v@.contains(x as u8));
    }
    v
}

/// Builds the per-location window collections from validated pairs.
fn build_windows(tw: &Vec<Vec<(u64, u64)>>) -> (r: Vec<TimeWindows>)
    requires
        windows_order_ok(tw@),
        time_bounds_ok_windows(tw@),
    ensures
        r@.len() == tw@.len(),
        forall|x: int| 0 <= x < tw@.len() ==> (#[trigger] r@[x]).windows@.len() == tw@[x]@.len(),
        forall|x: int, k: int|
            0 <= x < tw@.len() && 0 <= k < tw@[x]@.len() ==> (#[trigger] r@[x].windows@[k]).start
                == tw@[x]@[k].0 && r@[x].windows@[k].end == tw@[x]@[k].1,
        forall|x: int| 0 <= x < tw@.len() ==> (#[trigger] r@[x]).wf(),
        forall|x: int|
            0 <= x < tw@.len() ==> windows_bounded((#[trigger] r@[x]).windows@),
{
    let n = tw.len();
    let mut built: Vec<TimeWindows> = Vec::new();
    let mut i: usize = 0;
    while i < n
        invariant
            i <= n,
            n == tw@.len(),
            windows_order_ok(tw@),
            time_bounds_ok_windows(tw@),
            built@.len() == i,
            forall|x: int| 0 <= x < i ==> (#[trigger] built@[x]).windows@.len() == tw@[x]@.len(),
            forall|x: int, k: int|
                0 <= x < i && 0 <= k < tw@[x]@.len()
                    ==> (#[trigger] built@[x].windows@[k]).start == tw@[x]@[k].0
                    && built@[x].windows@[k].end == tw@[x]@[k].1,
            forall|x: int| 0 <= x < i ==> (#[trigger] built@[x]).wf(),
            forall|x: int| 0 <= x < i ==> windows_bounded((#[trigger] built@[x]).windows@),
        decreases n - i,
    {
        let pairs = &tw[i];
        let mut ws: Vec<TimeWindow> = Vec::new();
        let mut k: usize = 0;
        while k < pairs.len()
            invariant
                k <= pairs@.len(),
                i < n == tw@.len(),
                pairs == &tw@[i as int],
                windows_order_ok(tw@),
                time_bounds_ok_windows(tw@),
                ws@.len() == k,
                forall|x: int|
                    0 <= x < k ==> (#[trigger] ws@[x]).start == pairs@[x].0 && ws@[x].end
                        == pairs@[x].1,
            decreases pairs@.len() - k,
        {
            let (s, e) = pairs[k];
            proof {
                assert(pairs@[k as int].0 <= pairs@[k as int].1);
            }
            ws.push(TimeWindow { start: s, end: e });
            k += 1;
        }
        proof {
            assert(crate::time_windows::windows_sorted(ws@)) by {
                assert forall|x: int| 0 <= x < ws@.len() implies (#[trigger] ws@[x]).wf() by {
                    assert(ws@[x].start == pairs@[x].0 && ws@[x].end == pairs@[x].1);
                    assert(pairs@[x].0 <= pairs@[x].1);
                }
                assert forall|x: int|
                    0 <= x && x + 1 < ws@.len() implies (#[trigger] ws@[x]).end <= ws@[x
                    + 1].start by {
                    assert(pairs@[x].1 <= pairs@[x + 1].0);
                }
            }
            assert(windows_bounded(ws@)) by {
                assert forall|x: int|
                    0 <= x < ws@.len() implies (#[trigger] ws@[x]).end <= MAX_WINDOW_TIME by {
                    assert(pairs@[x].1 <= MAX_WINDOW_TIME);
                }
            }
        }
        built.push(TimeWindows { windows: ws });
        i += 1;
    }
    built
}

/// Validates and converts the raw time inputs.  Time mode is active only
/// when the duration matrix, the job durations and the time windows are
/// all present; operating hours that span a whole day or nothing collapse
/// to no restriction.  Invalid inputs are rejected with the matching error
/// kind before anything is built.
#[verifier::rlimit(100)]
pub fn transform(
    duration_matrix: Option<Vec<Vec<u64>>>,
    job_durations: Option<Vec<u64>>,
    time_windows: Option<Vec<Vec<(u64, u64)>>>,
    operation_times: Option<(u64, u64)>,
    working_days: Option<Vec<bool>>,
    travel_duration_until_break: Option<u64>,
    break_duration: Option<u64>,
) -> (r: Result<Option<TimeInput>, SolverError>)
    ensures
        !op_bounds_ok(operation_times) ==> r == Err::<Option<TimeInput>, SolverError>(
            SolverError::BoundsError,
        ),
        op_bounds_ok(operation_times) && !wd_shape_ok(operation_times, working_days) ==> r
            == Err::<Option<TimeInput>, SolverError>(SolverError::ShapeError),
        op_bounds_ok(operation_times) && wd_shape_ok(operation_times, working_days)
            && !wd_nonempty_ok(operation_times, working_days) ==> r == Err::<
            Option<TimeInput>,
            SolverError,
        >(SolverError::BoundsError),
        ({
            let op_ok = op_bounds_ok(operation_times) && wd_shape_ok(operation_times, working_days)
                && wd_nonempty_ok(operation_times, working_days);
            let mode = duration_matrix is Some && job_durations is Some && time_windows is Some;
            &&& (op_ok && !mode ==> r == Ok::<Option<TimeInput>, SolverError>(None))
            &&& (op_ok && mode ==> {
                let dm = duration_matrix.unwrap();
                let jd = job_durations.unwrap();
                let tw = time_windows.unwrap();
                &&& (!time_shape_ok(dm@, jd@, tw@) ==> r == Err::<Option<TimeInput>, SolverError>(
                    SolverError::ShapeError,
                ))
                &&& (time_shape_ok(dm@, jd@, tw@) && !windows_order_ok(tw@) ==> r == Err::<
                    Option<TimeInput>,
                    SolverError,
                >(SolverError::OrderError))
                &&& (time_shape_ok(dm@, jd@, tw@) && windows_order_ok(tw@) && !time_bounds_ok(
                    dm@,
                    jd@,
                    tw@,
                ) ==> r == Err::<Option<TimeInput>, SolverError>(SolverError::BoundsError))
                &&& (time_shape_ok(dm@, jd@, tw@) && windows_order_ok(tw@) && time_bounds_ok(
                    dm@,
                    jd@,
                    tw@,
                ) ==> {
                    &&& r is Ok
                    &&& r.unwrap() is Some
                    &&& {
                        let ti = r.unwrap().unwrap();
                        &&& ti.wf()
                        &&& ti.duration_matrix == dm
                        &&& ti.job_durations == jd
                        &&& ti.time_windows@.len() == tw@.len()
                        &&& forall|i: int, k: int|
                            0 <= i < tw@.len() && 0 <= k < tw@[i]@.len()
                                ==> (#[trigger] ti.time_windows@[i].windows@[k]).start
                                == tw@[i]@[k].0 && ti.time_windows@[i].windows@[k].end
                                == tw@[i]@[k].1
                        &&& forall|i: int|
                            0 <= i < tw@.len() ==> (#[trigger] ti.time_windows@[i]).windows@.len()
                                == tw@[i]@.len()
                        &&& ti.operation_times.is_some() == op_raw_active(operation_times)
                        &&& (op_raw_active(operation_times) ==> {
                            let ot = ti.operation_times.unwrap();
                            &&& ot.daily_start == operation_times.unwrap().0
                            &&& ot.daily_end == operation_times.unwrap().1
                            &&& forall|d: int|
                                0 <= d < 7 ==> (ot.spec_working(d) <==> match working_days {
                                    None => true,
                                    Some(days) => days@[d],
                                })
                        })
                        &&& ti.travel_duration_until_break == travel_duration_until_break
                        &&& ti.break_duration == break_duration
                    }
                })
            })
        }),
{
    // Validate the operating hours and the working-days mask first; they
    // are inspected even when time mode is off.
    let active = match &operation_times {
        Some((s, e)) => !(*s == *e) && !(*e >= *s && *e - *s == SECONDS_PER_DAY),
        None => false,
    };
    proof {
        assert(active == op_raw_active(operation_times));
    }
    if active {
        let (s, e) = operation_times.unwrap();
        if !(s < e && e <= SECONDS_PER_DAY) {
            return Err(SolverError::BoundsError);
        }
        match &working_days {
            Some(days) => {
                if days.len() != 7 {
                    return Err(SolverError::ShapeError);
                }
                if !check_any_day(days) {
                    return Err(SolverError::BoundsError);
                }
            },
            None => {},
        }
    }
    proof {
        assert(op_bounds_ok(operation_times));
        assert(wd_shape_ok(operation_times, working_days));
        assert(wd_nonempty_ok(operation_times, working_days));
    }
    // Time mode needs all three tables.
    let (dm, jd, tw) = match (duration_matrix, job_durations, time_windows) {
        (Some(dm), Some(jd), Some(tw)) => (dm, jd, tw),
        _ => {
            return Ok(None);
        },
    };
    // Shapes.
    let n = dm.len();
    if n < 1 || jd.len() != n || tw.len() != n || !check_square(&dm) || !check_windows_nonempty(
        &tw,
    ) {
        return Err(SolverError::ShapeError);
    }
    // Chronological order of every window list.
    if !check_windows_order(&tw) {
        return Err(SolverError::OrderError);
    }
    // Capacity limits.
    if n > MAX_LOCATIONS || !check_windows_bounds(&tw) || !check_budget(&dm, &jd) {
        return Err(SolverError::BoundsError);
    }
    // Build the window collections and the operating hours.
    let built_windows = build_windows(&tw);
    let built_op: Option<OperationTimes> = if active {
        let (s, e) = operation_times.unwrap();
        let wd_list: Option<Vec<u8>> = match &working_days {
            None => None,
            Some(days) => Some(working_day_list(days)),
        };
        Some(OperationTimes::new(s, e, wd_list))
    } else {
        None
    };
    proof {
        match &built_op {
            Some(ot) => {
                assert(ot.wf());
            },
            None => {},
        }
    }
    let ti = TimeInput {
        duration_matrix: dm,
        job_durations: jd,
        time_windows: built_windows,
        operation_times: built_op,
        travel_duration_until_break,
        break_duration,
    };
    proof {
        assert(ti.wf());
    }
    Ok(Some(ti))
}

/// The window part of the capacity limits.
pub open spec fn time_bounds_ok_windows(time_windows: Seq<Vec<(u64, u64)>>) -> bool {
    forall|i: int, k: int|
        0 <= i < time_windows.len() && 0 <= k < time_windows[i]@.len()
            ==> (#[trigger] time_windows[i]@[k]).1 <= MAX_WINDOW_TIME
}

} // verus!
