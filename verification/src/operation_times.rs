//! Daily operating hours with an optional working-days mask.
//!
//! Instants are UTC Unix seconds.  The day number of an instant is its
//! quotient by the seconds of a day, its time of day the remainder, and its
//! weekday follows from the day number: day zero of the epoch was a Thursday,
//! three steps past Monday.

use vstd::arithmetic::div_mod::{
    lemma_add_mod_noop, lemma_fundamental_div_mod, lemma_mod_multiples_vanish, lemma_small_mod,
};
use vstd::pervasive::VecAdditionalExecFns;
use vstd::prelude::*;

use crate::limits::{EVAL_TIME_BOUND, MAX_TOTAL_DURATION, MAX_WAIT_JUMP, SECONDS_PER_DAY};
use crate::time_windows::TimeWindow;

verus! {

/// Seconds past midnight of an instant.
pub open spec fn spec_time_of_day(t: u64) -> int {
    t as int % (SECONDS_PER_DAY as int)
}

/// Days since the epoch of an instant.
pub open spec fn spec_day_of(t: u64) -> int {
    t as int / (SECONDS_PER_DAY as int)
}

/// Weekday of a day number, with zero for Monday.
pub open spec fn spec_weekday_of_day(d: int) -> int {
    (d + 3) % 7
}

/// An instant splits into its day and its time of day.
pub proof fn lemma_day_split(t: u64)
    ensures
        t == SECONDS_PER_DAY * spec_day_of(t) + spec_time_of_day(t),
        0 <= spec_time_of_day(t) < SECONDS_PER_DAY,
        spec_day_of(t) >= 0,
{
    lemma_fundamental_div_mod(t as int, SECONDS_PER_DAY as int);
}

/// Recombining a day number with a time of day inverts the split.
pub proof fn lemma_day_combine(d: int, x: int)
    requires
        d >= 0,
        0 <= x < SECONDS_PER_DAY,
    ensures
        (SECONDS_PER_DAY * d + x) / (SECONDS_PER_DAY as int) == d,
        (SECONDS_PER_DAY * d + x) % (SECONDS_PER_DAY as int) == x,
{
    assert((SECONDS_PER_DAY * d + x) / (SECONDS_PER_DAY as int) == d && (SECONDS_PER_DAY * d + x)
        % (SECONDS_PER_DAY as int) == x) by (nonlinear_arith)
        requires
            d >= 0,
            0 <= x < SECONDS_PER_DAY,
    ;
}

/// Stepping a non-negative number of days forward shifts the weekday by the
/// same amount modulo seven.
pub proof fn lemma_weekday_shift(d: int, u: int)
    requires
        u >= 0,
    ensures
        spec_weekday_of_day(d + u) == (spec_weekday_of_day(d) + u % 7) % 7,
{
    let wd = spec_weekday_of_day(d);
    lemma_add_mod_noop(d + 3, u, 7);
    assert(0 <= wd < 7) by {
        vstd::arithmetic::div_mod::lemma_mod_bound(d + 3, 7);
    }
    lemma_small_mod(wd as nat, 7);
    lemma_add_mod_noop(wd, u % 7, 7);
    assert((u % 7) % 7 == u % 7) by {
        vstd::arithmetic::div_mod::lemma_mod_bound(u, 7);
        lemma_small_mod((u % 7) as nat, 7);
    }
}

/// The number of forward steps, between one and seven, from weekday `i` to
/// the first weekday the mask marks as working; seven steps mean the same
/// weekday one week later.
pub open spec fn first_step_from(days: Seq<bool>, i: int, s: int) -> int
    decreases 8 - s,
{
    if s >= 7 {
        7
    } else if days[(i + s) % 7] {
        s
    } else {
        first_step_from(days, i, s + 1)
    }
}

pub open spec fn first_step(days: Seq<bool>, i: int) -> int {
    first_step_from(days, i, 1)
}

/// A step that hits a working day, with no working day on any earlier step,
/// is the first step.
proof fn lemma_first_step_is(days: Seq<bool>, i: int, s: int, u: int)
    requires
        1 <= u <= s <= 7,
        s < 7 ==> days[(i + s) % 7],
        forall|v: int| u <= v < s ==> !days[#[trigger] ((i + v) % 7)],
    ensures
        first_step_from(days, i, u) == s,
    decreases s - u,
{
    if u < s {
        lemma_first_step_is(days, i, s, u + 1);
    }
}

/// The first step is at least `u` and at most seven, and lands on a working
/// day whenever it lies strictly before seven.
proof fn lemma_first_step_bounds(days: Seq<bool>, i: int, u: int)
    requires
        1 <= u <= 7,
    ensures
        u <= first_step_from(days, i, u) <= 7,
        first_step_from(days, i, u) < 7 ==> days[(i + first_step_from(days, i, u)) % 7],
    decreases 8 - u,
{
    if u < 7 && !days[(i + u) % 7] {
        lemma_first_step_bounds(days, i, u + 1);
    }
}

/// No step strictly before the first step lands on a working day.
proof fn lemma_first_step_miss(days: Seq<bool>, i: int, u: int)
    requires
        1 <= u <= 7,
    ensures
        forall|v: int| u <= v < first_step_from(days, i, u) ==> !days[#[trigger] ((i + v) % 7)],
    decreases 8 - u,
{
    if u < 7 && !days[(i + u) % 7] {
        lemma_first_step_miss(days, i, u + 1);
    }
}

/// Every weekday is reached from `i` in one to seven forward steps.
proof fn lemma_weekday_coverage(i: int, d: int)
    requires
        0 <= i < 7,
        0 <= d < 7,
    ensures
        exists|u: int| 1 <= u <= 7 && #[trigger] ((i + u) % 7) == d,
{
    if d > i {
        let u = d - i;
        lemma_small_mod(d as nat, 7);
        assert(1 <= u <= 7 && (i + u) % 7 == d);
    } else {
        let u = d + 7 - i;
        lemma_mod_multiples_vanish(1, d, 7);
        lemma_small_mod(d as nat, 7);
        assert(1 <= u <= 7 && (i + u) % 7 == d);
    }
}

/// When some day works, the first step from any weekday lands on a working
/// day, and no earlier step does.
pub proof fn lemma_first_step_props(days: Seq<bool>, i: int)
    requires
        days.len() == 7,
        0 <= i < 7,
        exists|d: int| 0 <= d < 7 && days[d],
    ensures
        1 <= first_step(days, i) <= 7,
        days[(i + first_step(days, i)) % 7],
        forall|u: int| 1 <= u < first_step(days, i) ==> !days[#[trigger] ((i + u) % 7)],
{
    let s = first_step(days, i);
    lemma_first_step_bounds(days, i, 1);
    lemma_first_step_miss(days, i, 1);
    if s == 7 {
        let d = choose|d: int| 0 <= d < 7 && days[d];
        lemma_weekday_coverage(i, d);
        let u = choose|u: int| 1 <= u <= 7 && #[trigger] ((i + u) % 7) == d;
        if u < 7 {
            assert(!days[(i + u) % 7]);
            assert(false);
        } else {
            lemma_mod_multiples_vanish(1, i, 7);
            lemma_small_mod(i as nat, 7);
            assert((i + 7) % 7 == i);
            assert(days[(i + s) % 7]);
        }
    }
}

/// The working-days mask together with a cache of the first step from each
/// weekday to the next working weekday.
pub struct WorkingDays {
    pub days: Vec<bool>,
    pub next_step: Vec<u8>,
}

impl WorkingDays {
    pub open spec fn wf(self) -> bool {
        &&& self.days@.len() == 7
        &&& self.next_step@.len() == 7
        &&& exists|d: int| 0 <= d < 7 && self.days@[d]
        &&& forall|i: int|
            0 <= i < 7 ==> (#[trigger] self.next_step@[i]) as int == first_step(self.days@, i)
    }

    /// Builds the mask and the step cache from a non-empty list of working
    /// weekdays, each given as its index from Monday.
    pub fn new(working_days: Vec<u8>) -> (r: WorkingDays)
        requires
            working_days@.len() >= 1,
            forall|k: int| 0 <= k < working_days@.len() ==> (#[trigger] working_days@[k]) < 7,
        ensures
            r.wf(),
            forall|d: int|
                0 <= d < 7 ==> ((#[trigger] r.days@[d]) <==> working_days@.contains(d as u8)),
    {
        let mut days: Vec<bool> = Vec::new();
        let mut d: usize = 0;
        while d < 7
            invariant
                days@.len() == d <= 7,
                forall|j: int| 0 <= j < d ==> !(#[trigger] days@[j]),
            decreases 7 - d,
        {
            days.push(false);
            d += 1;
        }
        let mut k: usize = 0;
        while k < working_days.len()
            invariant
                days@.len() == 7,
                k <= working_days@.len(),
                forall|j: int| 0 <= j < working_days@.len() ==> (#[trigger] working_days@[j]) < 7,
                forall|j: int|
                    0 <= j < 7 ==> ((#[trigger] days@[j]) <==> exists|m: int|
                        0 <= m < k && working_days@[m] == j),
            decreases working_days@.len() - k,
        {
            let ghost prev = days@;
            let day = working_days[k];
            days.set(day as usize, true);
            proof {
                assert(days@ == prev.update(day as int, true));
                assert forall|j: int| 0 <= j < 7 implies ((#[trigger] days@[j]) <==> exists|m: int|
                    0 <= m < k + 1 && working_days@[m] == j) by {
                    if j == day as int {
                        assert(working_days@[k as int] == j);
                        assert(days@[j]);
                    } else {
                        assert(days@[j] == prev[j]);
                        if days@[j] {
                            let m = choose|m: int| 0 <= m < k && working_days@[m] == j;
                            assert(0 <= m < k + 1 && working_days@[m] == j);
                        }
                        if exists|m: int| 0 <= m < k + 1 && working_days@[m] == j {
                            let m = choose|m: int| 0 <= m < k + 1 && working_days@[m] == j;
                            assert(m < k);
                        }
                    }
                }
            }
            k += 1;
        }
        proof {
            let d0 = working_days@[0];
            assert(days@[d0 as int]);
        }
        let mut next_step: Vec<u8> = Vec::new();
        let mut i: usize = 0;
        while i < 7
            invariant
                days@.len() == 7,
                exists|d: int| 0 <= d < 7 && days@[d],
                next_step@.len() == i <= 7,
                forall|j: int|
                    0 <= j < i ==> (#[trigger] next_step@[j]) as int == first_step(days@, j),
            decreases 7 - i,
        {
            let mut j: u8 = 1;
            let mut found: bool = false;
            while j < 7 && !found
                invariant
                    1 <= j <= 7,
                    0 <= i < 7,
                    days@.len() == 7,
                    forall|v: int| 1 <= v < j ==> !days@[#[trigger] ((i + v) % 7)],
                    found ==> j < 7 && days@[(i + j as int) % 7],
                decreases 7 - j, (if found { 0int } else { 1int }),
            {
                let idx = (i + j as usize) % 7;
                if days[idx] {
                    found = true;
                } else {
                    j += 1;
                }
            }
            proof {
                lemma_first_step_props(days@, i as int);
                if found {
                    lemma_first_step_is(days@, i as int, j as int, 1);
                } else {
                    assert(j == 7);
                    lemma_first_step_is(days@, i as int, 7, 1);
                }
            }
            let ghost prev_steps = next_step@;
            next_step.push(j);
            proof {
                assert forall|jj: int|
                    0 <= jj < i + 1 implies (#[trigger] next_step@[jj]) as int == first_step(
                    days@,
                    jj,
                ) by {
                    if jj < i {
                        assert(prev_steps.push(j)[jj] == prev_steps[jj]);
                    } else {
                        assert(prev_steps.push(j)[jj] == j);
                    }
                }
            }
            i += 1;
        }
        let r = WorkingDays { days, next_step };
        proof {
            assert forall|d: int|
                0 <= d < 7 implies ((#[trigger] r.days@[d]) <==> working_days@.contains(
                d as u8,
            )) by {
                if r.days@[d] {
                    let m = choose|m: int| 0 <= m < working_days@.len() && working_days@[m] == d;
                    assert(working_days@[m] == d as u8);
                }
                if working_days@.contains(d as u8) {
                    let m = choose|m: int|
                        0 <= m < working_days@.len() && working_days@[m] == d as u8;
                    assert(0 <= m < working_days@.len() && working_days@[m] == d);
                }
            }
        }
        r
    }

    /// The first working day strictly after the given day number.
    pub fn next_working_day(&self, date: u64) -> (r: u64)
        requires
            self.wf(),
            date <= EVAL_TIME_BOUND,
        ensures
            r == date + first_step(self.days@, spec_weekday_of_day(date as int)),
            date < r <= date + 7,
            self.days@[spec_weekday_of_day(r as int)],
            forall|dd: int| date < dd < r ==> !self.days@[#[trigger] spec_weekday_of_day(dd)],
    {
        let wd = weekday_of_day(date);
        let step = self.next_step[wd as usize];
        proof {
            lemma_first_step_props(self.days@, wd as int);
            let s = step as int;
            lemma_weekday_shift(date as int, s);
            if s < 7 {
                lemma_small_mod(s as nat, 7);
                assert(spec_weekday_of_day(date as int + s) == (wd as int + s) % 7);
            } else {
                assert(s % 7 == 0) by {
                    lemma_mod_multiples_vanish(1, 0, 7);
                }
                lemma_small_mod(wd as nat, 7);
                lemma_mod_multiples_vanish(1, wd as int, 7);
                assert(spec_weekday_of_day(date as int + s) == wd as int);
                assert((wd as int + s) % 7 == wd as int) by {
                    lemma_mod_multiples_vanish(1, wd as int, 7);
                    lemma_small_mod(wd as nat, 7);
                }
            }
            assert(self.days@[spec_weekday_of_day(date as int + s)]);
            assert forall|dd: int| date < dd < date + s implies !self.days@[
                #[trigger] spec_weekday_of_day(dd)] by {
                let u = dd - date;
                lemma_weekday_shift(date as int, u);
                lemma_small_mod(u as nat, 7);
                assert(spec_weekday_of_day(dd) == (wd as int + u) % 7);
                assert(!self.days@[(wd as int + u) % 7]);
            }
        }
        date + step as u64
    }
}

/// Weekday of a day number given in days, with zero for Monday.
fn weekday_of_day(d: u64) -> (r: u8)
    requires
        d <= EVAL_TIME_BOUND,
    ensures
        r as int == spec_weekday_of_day(d as int),
        r < 7,
{
    ((d + 3) % 7) as u8
}

/// Global daily operating hours: a start and end time of day in seconds
/// past midnight, with an optional working-days mask.
pub struct OperationTimes {
    pub daily_start: u64,
    pub daily_end: u64,
    pub working_days: Option<WorkingDays>,
}

impl OperationTimes {
    pub open spec fn wf(self) -> bool {
        &&& self.daily_start < self.daily_end <= SECONDS_PER_DAY
        &&& match self.working_days {
            Some(wd) => wd.wf(),
            None => true,
        }
    }

    /// Whether the weekday index counts as working; with no mask every day
    /// works.
    pub open spec fn spec_working(self, wd: int) -> bool {
        match self.working_days {
            None => true,
            Some(w) => w.days@[wd],
        }
    }

    /// Whether an instant lies inside the operating hours: its time of day
    /// is within the daily interval and its weekday works.
    pub open spec fn spec_contains(self, t: u64) -> bool {
        &&& self.daily_start <= spec_time_of_day(t) < self.daily_end
        &&& self.spec_working(spec_weekday_of_day(spec_day_of(t)))
    }

    /// The first working day strictly after the given day number.
    pub open spec fn spec_next_day(self, d: int) -> int {
        match self.working_days {
            None => d + 1,
            Some(w) => d + first_step(w.days@, spec_weekday_of_day(d)),
        }
    }

    /// Seconds until the operating hours next contain an instant: zero
    /// inside them; until today's opening when that is still ahead on a
    /// working day; else until the next working day's opening.
    pub open spec fn spec_waiting(self, t: u64) -> int {
        if self.spec_contains(t) {
            0
        } else if spec_time_of_day(t) < self.daily_start && self.spec_working(
            spec_weekday_of_day(spec_day_of(t)),
        ) {
            self.daily_start - spec_time_of_day(t)
        } else {
            SECONDS_PER_DAY * self.spec_next_day(spec_day_of(t)) + self.daily_start - t
        }
    }

    /// The instant at which work arriving at `t` can begin.
    pub open spec fn spec_slot_start(self, t: u64) -> int {
        t + self.spec_waiting(t)
    }

    /// The close of the day an instant falls on.
    pub open spec fn spec_day_close(self, s: int) -> int {
        SECONDS_PER_DAY * (s / (SECONDS_PER_DAY as int)) + self.daily_end
    }

    /// The end of the interval offered to work arriving at `t`: the need is
    /// served until at latest the close of the slot's day.
    pub open spec fn spec_slot_end(self, t: u64, need: u64) -> int {
        let s = self.spec_slot_start(t);
        if s + need <= self.spec_day_close(s) {
            s + need
        } else {
            self.spec_day_close(s)
        }
    }

    /// What the hours search returns, as a function of its inputs: the
    /// clipped slot when splitting is allowed or the slot holds the whole
    /// need, nothing when no single day can hold the need, and otherwise
    /// the opening of the next working day.
    pub open spec fn spec_find(self, t: u64, need: u64, must_fit: bool) -> Option<TimeWindow> {
        let s = self.spec_slot_start(t);
        let e = self.spec_slot_end(t, need);
        if !must_fit {
            Some(TimeWindow { start: s as u64, end: e as u64 })
        } else if e - s == need {
            Some(TimeWindow { start: s as u64, end: e as u64 })
        } else if need > self.daily_end - self.daily_start {
            None
        } else {
            let s2 = SECONDS_PER_DAY * self.spec_next_day(spec_day_of(t)) + self.daily_start;
            Some(TimeWindow { start: s2 as u64, end: (s2 + need) as u64 })
        }
    }

    /// An interval lies inside the operating hours: it begins at a contained
    /// instant and ends by the close of that instant's day.
    pub open spec fn spec_covers(self, w: TimeWindow) -> bool {
        &&& self.spec_contains(w.start)
        &&& w.end <= self.spec_day_close(w.start as int)
    }

    /// Creates operating hours from a daily interval in seconds past
    /// midnight and an optional non-empty list of working weekdays.
    pub fn new(daily_start: u64, daily_end: u64, working_days: Option<Vec<u8>>) -> (r:
        OperationTimes)
        requires
            daily_start < daily_end <= SECONDS_PER_DAY,
            match working_days {
                Some(v) => v@.len() >= 1 && forall|k: int|
                    0 <= k < v@.len() ==> (#[trigger] v@[k]) < 7,
                None => true,
            },
        ensures
            r.wf(),
            r.daily_start == daily_start,
            r.daily_end == daily_end,
            r.working_days.is_some() == working_days.is_some(),
            match working_days {
                Some(v) => forall|d: int|
                    0 <= d < 7 ==> (r.spec_working(d) <==> v@.contains(d as u8)),
                None => true,
            },
    {
        let wd = match working_days {
            Some(v) => Some(WorkingDays::new(v)),
            None => None,
        };
        OperationTimes { daily_start, daily_end, working_days: wd }
    }

    /// Length of the daily interval.
    pub fn duration(&self) -> (r: u64)
        requires
            self.wf(),
        ensures
            r == self.daily_end - self.daily_start,
    {
        self.daily_end - self.daily_start
    }

    pub fn start(&self) -> (r: u64)
        ensures
            r == self.daily_start,
    {
        self.daily_start
    }

    pub fn end(&self) -> (r: u64)
        ensures
            r == self.daily_end,
    {
        self.daily_end
    }

    /// Whether the instant lies inside the operating hours.
    pub fn contains(&self, time: u64) -> (r: bool)
        requires
            self.wf(),
            time <= EVAL_TIME_BOUND,
        ensures
            r == self.spec_contains(time),
    {
        let tod = time % SECONDS_PER_DAY;
        if !(self.daily_start <= tod && tod < self.daily_end) {
            return false;
        }
        match &self.working_days {
            None => true,
            Some(w) => {
                let wd = weekday_of_day(time / SECONDS_PER_DAY);
                w.days[wd as usize]
            },
        }
    }

    /// The first working day strictly after the instant's day.
    pub fn next_day(&self, current_time: u64) -> (r: u64)
        requires
            self.wf(),
            current_time <= EVAL_TIME_BOUND,
        ensures
            r == self.spec_next_day(spec_day_of(current_time)),
            spec_day_of(current_time) < r <= spec_day_of(current_time) + 7,
            self.spec_working(spec_weekday_of_day(r as int)),
    {
        let date = current_time / SECONDS_PER_DAY;
        match &self.working_days {
            None => date + 1,
            Some(w) => w.next_working_day(date),
        }
    }

    /// The opening instant of the first working day strictly after the
    /// instant's day.
    pub fn start_next_day(&self, current_time: u64) -> (r: u64)
        requires
            self.wf(),
            current_time <= EVAL_TIME_BOUND,
        ensures
            r == SECONDS_PER_DAY * self.spec_next_day(spec_day_of(current_time))
                + self.daily_start,
            current_time < r <= current_time + MAX_WAIT_JUMP,
            self.spec_contains(r),
            spec_time_of_day(r) == self.daily_start,
            spec_day_of(r) == self.spec_next_day(spec_day_of(current_time)),
    {
        let nd = self.next_day(current_time);
        let r = nd * SECONDS_PER_DAY + self.daily_start;
        proof {
            lemma_day_split(current_time);
            lemma_day_combine(nd as int, self.daily_start as int);
        }
        r
    }

    /// Seconds until the operating hours next contain the instant.
    pub fn waiting_time(&self, current_time: u64) -> (r: u64)
        requires
            self.wf(),
            current_time <= EVAL_TIME_BOUND,
        ensures
            r == self.spec_waiting(current_time),
            r <= MAX_WAIT_JUMP,
            self.spec_contains((current_time + r) as u64),
            (r == 0) == self.spec_contains(current_time),
    {
        proof {
            lemma_day_split(current_time);
        }
        if self.contains(current_time) {
            0
        } else {
            let tod = current_time % SECONDS_PER_DAY;
            let today_working = match &self.working_days {
                None => true,
                Some(w) => {
                    let wd = weekday_of_day(current_time / SECONDS_PER_DAY);
                    w.days[wd as usize]
                },
            };
            if tod < self.daily_start && today_working {
                let r = self.daily_start - tod;
                proof {
                    lemma_day_combine(spec_day_of(current_time), self.daily_start as int);
                    assert(current_time + r == SECONDS_PER_DAY * spec_day_of(current_time)
                        + self.daily_start);
                }
                r
            } else {
                let s = self.start_next_day(current_time);
                s - current_time
            }
        }
    }

    /// Finds the earliest interval in which work arriving at `current_time`
    /// can be placed inside the operating hours.  With `must_fit` the
    /// interval must hold the whole job within one day, possibly starting on
    /// the next working day; without it the interval is clipped to the close
    /// of the day it starts on.
    pub fn find_next_fitting_time(
        &self,
        current_time: u64,
        job_duration: u64,
        must_fit: bool,
    ) -> (r: Option<TimeWindow>)
        requires
            self.wf(),
            current_time <= EVAL_TIME_BOUND,
            job_duration <= MAX_TOTAL_DURATION,
        ensures
            r == self.spec_find(current_time, job_duration, must_fit),
            ({
                let s = self.spec_slot_start(current_time);
                let e = self.spec_slot_end(current_time, job_duration);
                if !must_fit {
                    r matches Some(w) && w.start == s && w.end == e
                } else if e - s == job_duration {
                    r matches Some(w) && w.start == s && w.end == e
                } else if job_duration > self.daily_end - self.daily_start {
                    r is None
                } else {
                    r matches Some(w) && w.start == SECONDS_PER_DAY * self.spec_next_day(
                        spec_day_of(current_time),
                    ) + self.daily_start && w.end == w.start + job_duration
                }
            }),
            r matches Some(w) ==> {
                &&& w.wf()
                &&& self.spec_covers(w)
                &&& w.start >= current_time
                &&& w.start <= current_time + MAX_WAIT_JUMP
                &&& w.spec_duration() <= job_duration
                &&& (job_duration > 0 ==> w.end > w.start)
                &&& (must_fit ==> w.spec_duration() == job_duration)
            },
            must_fit && r is None ==> job_duration > self.daily_end - self.daily_start,
    {
        let waiting = self.waiting_time(current_time);
        let start_time = current_time + waiting;
        proof {
            lemma_day_split(start_time);
        }
        let close = (start_time / SECONDS_PER_DAY) * SECONDS_PER_DAY + self.daily_end;
        assert(close == self.spec_day_close(start_time as int));
        assert(start_time < close);
        let end_time = if job_duration <= close - start_time {
            start_time + job_duration
        } else {
            close
        };
        if !must_fit {
            return Some(TimeWindow::new(start_time, end_time));
        }
        if end_time - start_time == job_duration {
            return Some(TimeWindow::new(start_time, end_time));
        }
        if job_duration > self.daily_end - self.daily_start {
            return None;
        }
        let s2 = self.start_next_day(current_time);
        let w = TimeWindow::new(s2, s2 + job_duration);
        proof {
            lemma_day_split(s2);
            assert(spec_day_of((s2 + job_duration) as u64) >= spec_day_of(s2));
            assert(w.end <= self.spec_day_close(w.start as int));
        }
        Some(w)
    }
}

} // verus!
