//! The schedule accumulator: running totals of waiting, working and
//! traveling time, lateness and job splits, with an optional event log.

use vstd::prelude::*;

use crate::time_windows::TimeWindow;

verus! {

/// One entry of the schedule: an interval spent working at a location,
/// traveling, or waiting.
#[derive(Debug, Clone, Copy, PartialEq, Eq, Structural)]
pub enum Event {
    Work(TimeWindow, usize),
    Travel(TimeWindow),
    Wait(TimeWindow),
}

/// The interval an event occupies.
pub open spec fn event_window(e: Event) -> TimeWindow {
    match e {
        Event::Work(w, _) => w,
        Event::Travel(w) => w,
        Event::Wait(w) => w,
    }
}

/// The waiting seconds an event contributes.
pub open spec fn wait_part(e: Event) -> int {
    match e {
        Event::Wait(w) => w.spec_duration(),
        _ => 0,
    }
}

/// The working seconds an event contributes.
pub open spec fn work_part(e: Event) -> int {
    match e {
        Event::Work(w, _) => w.spec_duration(),
        _ => 0,
    }
}

/// The traveling seconds an event contributes.
pub open spec fn travel_part(e: Event) -> int {
    match e {
        Event::Travel(w) => w.spec_duration(),
        _ => 0,
    }
}

/// Sum of a per-event quantity over a log.
pub open spec fn sum_parts(s: Seq<Event>, f: spec_fn(Event) -> int) -> int
    decreases s.len(),
{
    if s.len() == 0 {
        0
    } else {
        sum_parts(s.drop_last(), f) + f(s.last())
    }
}

/// Appending an event adds its contribution to the sum.
pub proof fn lemma_sum_parts_push(s: Seq<Event>, f: spec_fn(Event) -> int, e: Event)
    ensures
        sum_parts(s.push(e), f) == sum_parts(s, f) + f(e),
{
    assert(s.push(e).drop_last() == s);
    assert(s.push(e).last() == e);
}

/// The events of a log are contiguous: each one's interval is well formed,
/// the first starts at the schedule's start, and every later one starts
/// where its predecessor ends.
pub open spec fn events_contiguous(s: Seq<Event>, start: u64) -> bool {
    forall|i: int|
        0 <= i < s.len() ==> {
            &&& (#[trigger] event_window(s[i])).wf()
            &&& event_window(s[i]).start == if i == 0 {
                start as int
            } else {
                event_window(s[i - 1]).end as int
            }
        }
}

/// A finished schedule is feasible when no job had to be split and no
/// work ran past its location's windows.
pub open spec fn feasible(r: TimeOutput<Complete>) -> bool {
    r.job_splits == 0 && r.lateness == 0
}

/// Marker for a schedule still being built.
pub enum Incomplete {
    Marker,
}

/// Marker for a finished schedule, safe to read in comparisons.
#[derive(Debug, Clone)]
pub enum Complete {
    Marker,
}

/// The two completion states a schedule can be in.
pub trait CompletionState {}

impl CompletionState for Incomplete {}

impl CompletionState for Complete {}

/// Running totals of one schedule evaluation.  The `S` parameter marks
/// whether the schedule is still being built or frozen.
#[derive(Debug)]
pub struct TimeOutput<S: CompletionState> {
    pub start_time: u64,
    pub end_time: u64,
    pub duration: u64,
    pub lateness: u64,
    pub working_time: u64,
    pub waiting_time: u64,
    pub traveling_time: u64,
    pub job_splits: u32,
    pub schedule: Vec<Event>,
    pub phantom: core::marker::PhantomData<S>,
}

impl<S: CompletionState> TimeOutput<S> {
    /// The accumulators balance: the total duration splits into waiting,
    /// working and traveling, the end time is the start time plus the
    /// duration, and the logged events are contiguous and end by the end
    /// time.
    pub open spec fn wf(self) -> bool {
        &&& self.duration == self.waiting_time + self.working_time + self.traveling_time
        &&& self.end_time == self.start_time + self.duration
        &&& events_contiguous(self.schedule@, self.start_time)
        &&& self.schedule@.len() > 0 ==> event_window(self.schedule@.last()).end <= self.end_time
    }

    /// When the log is kept it accounts for the whole span: it reaches
    /// exactly to the end time, and each accumulator equals the sum of its
    /// events' durations.
    pub open spec fn log_complete(self) -> bool {
        &&& if self.schedule@.len() == 0 {
            self.end_time == self.start_time
        } else {
            event_window(self.schedule@.last()).end == self.end_time
        }
        &&& self.waiting_time == sum_parts(self.schedule@, |e: Event| wait_part(e))
        &&& self.working_time == sum_parts(self.schedule@, |e: Event| work_part(e))
        &&& self.traveling_time == sum_parts(self.schedule@, |e: Event| travel_part(e))
    }
}

impl TimeOutput<Incomplete> {
    /// A fresh accumulator: the schedule begins and ends at its start time
    /// with every total zero.
    pub fn new(start_time: u64) -> (r: TimeOutput<Incomplete>)
        ensures
            r.start_time == start_time,
            r.end_time == start_time,
            r.duration == 0,
            r.lateness == 0,
            r.working_time == 0,
            r.waiting_time == 0,
            r.traveling_time == 0,
            r.job_splits == 0,
            r.schedule@.len() == 0,
            r.wf(),
            r.log_complete(),
    {
        TimeOutput {
            start_time,
            end_time: start_time,
            duration: 0,
            lateness: 0,
            working_time: 0,
            waiting_time: 0,
            traveling_time: 0,
            job_splits: 0,
            schedule: Vec::new(),
            phantom: core::marker::PhantomData,
        }
    }

    /// Extends the schedule by one waiting interval starting at its end.
    pub fn add_waiting(&mut self, time_window: TimeWindow, build_schedule: bool)
        requires
            old(self).wf(),
            time_window.wf(),
            time_window.start == old(self).end_time,
            build_schedule ==> old(self).log_complete(),
        ensures
            final(self).wf(),
            final(self).end_time == time_window.end,
            final(self).waiting_time == old(self).waiting_time + time_window.spec_duration(),
            final(self).duration == old(self).duration + time_window.spec_duration(),
            final(self).working_time == old(self).working_time,
            final(self).traveling_time == old(self).traveling_time,
            final(self).lateness == old(self).lateness,
            final(self).job_splits == old(self).job_splits,
            final(self).start_time == old(self).start_time,
            final(self).schedule@ == if build_schedule {
                old(self).schedule@.push(Event::Wait(time_window))
            } else {
                old(self).schedule@
            },
            build_schedule ==> final(self).log_complete(),
    {
        let ghost prev = *self;
        let d = time_window.duration();
        self.waiting_time += d;
        self.end_time += d;
        self.duration += d;
        if build_schedule {
            self.schedule.push(Event::Wait(time_window));
            proof {
                lemma_log_extend(prev, *self, Event::Wait(time_window));
            }
        }
    }

    /// Extends the schedule by one traveling interval starting at its end.
    pub fn add_traveling(&mut self, time_window: TimeWindow, build_schedule: bool)
        requires
            old(self).wf(),
            time_window.wf(),
            time_window.start == old(self).end_time,
            build_schedule ==> old(self).log_complete(),
        ensures
            final(self).wf(),
            final(self).end_time == time_window.end,
            final(self).traveling_time == old(self).traveling_time + time_window.spec_duration(),
            final(self).duration == old(self).duration + time_window.spec_duration(),
            final(self).working_time == old(self).working_time,
            final(self).waiting_time == old(self).waiting_time,
            final(self).lateness == old(self).lateness,
            final(self).job_splits == old(self).job_splits,
            final(self).start_time == old(self).start_time,
            final(self).schedule@ == if build_schedule {
                old(self).schedule@.push(Event::Travel(time_window))
            } else {
                old(self).schedule@
            },
            build_schedule ==> final(self).log_complete(),
    {
        let ghost prev = *self;
        let d = time_window.duration();
        self.traveling_time += d;
        self.end_time += d;
        self.duration += d;
        if build_schedule {
            self.schedule.push(Event::Travel(time_window));
            proof {
                lemma_log_extend(prev, *self, Event::Travel(time_window));
            }
        }
    }

    /// Extends the schedule by one working interval at a location, starting
    /// at its end.
    pub fn add_working(&mut self, location: usize, time_window: TimeWindow, build_schedule: bool)
        requires
            old(self).wf(),
            time_window.wf(),
            time_window.start == old(self).end_time,
            build_schedule ==> old(self).log_complete(),
        ensures
            final(self).wf(),
            final(self).end_time == time_window.end,
            final(self).working_time == old(self).working_time + time_window.spec_duration(),
            final(self).duration == old(self).duration + time_window.spec_duration(),
            final(self).traveling_time == old(self).traveling_time,
            final(self).waiting_time == old(self).waiting_time,
            final(self).lateness == old(self).lateness,
            final(self).job_splits == old(self).job_splits,
            final(self).start_time == old(self).start_time,
            final(self).schedule@ == if build_schedule {
                old(self).schedule@.push(Event::Work(time_window, location))
            } else {
                old(self).schedule@
            },
            build_schedule ==> final(self).log_complete(),
    {
        let ghost prev = *self;
        let d = time_window.duration();
        self.working_time += d;
        self.end_time += d;
        self.duration += d;
        if build_schedule {
            self.schedule.push(Event::Work(time_window, location));
            proof {
                lemma_log_extend(prev, *self, Event::Work(time_window, location));
            }
        }
    }

    /// Counts one more job split.
    pub fn add_split(&mut self)
        requires
            old(self).wf(),
            old(self).job_splits < u32::MAX,
        ensures
            final(self).wf(),
            final(self).job_splits == old(self).job_splits + 1,
            final(self).start_time == old(self).start_time,
            final(self).end_time == old(self).end_time,
            final(self).duration == old(self).duration,
            final(self).lateness == old(self).lateness,
            final(self).working_time == old(self).working_time,
            final(self).waiting_time == old(self).waiting_time,
            final(self).traveling_time == old(self).traveling_time,
            final(self).schedule == old(self).schedule,
            old(self).log_complete() ==> final(self).log_complete(),
    {
        self.job_splits += 1;
    }

    /// Accrues lateness.
    pub fn add_lateness(&mut self, lateness: u64)
        requires
            old(self).wf(),
            old(self).lateness + lateness <= u64::MAX,
        ensures
            final(self).wf(),
            final(self).lateness == old(self).lateness + lateness,
            final(self).start_time == old(self).start_time,
            final(self).end_time == old(self).end_time,
            final(self).duration == old(self).duration,
            final(self).job_splits == old(self).job_splits,
            final(self).working_time == old(self).working_time,
            final(self).waiting_time == old(self).waiting_time,
            final(self).traveling_time == old(self).traveling_time,
            final(self).schedule == old(self).schedule,
            old(self).log_complete() ==> final(self).log_complete(),
    {
        self.lateness += lateness;
    }

    /// Freezes the schedule.
    pub fn complete(self) -> (r: TimeOutput<Complete>)
        ensures
            r.start_time == self.start_time,
            r.end_time == self.end_time,
            r.duration == self.duration,
            r.lateness == self.lateness,
            r.working_time == self.working_time,
            r.waiting_time == self.waiting_time,
            r.traveling_time == self.traveling_time,
            r.job_splits == self.job_splits,
            r.schedule == self.schedule,
            self.wf() ==> r.wf(),
            self.log_complete() ==> r.log_complete(),
    {
        TimeOutput {
            start_time: self.start_time,
            end_time: self.end_time,
            duration: self.duration,
            lateness: self.lateness,
            working_time: self.working_time,
            waiting_time: self.waiting_time,
            traveling_time: self.traveling_time,
            job_splits: self.job_splits,
            schedule: self.schedule,
            phantom: core::marker::PhantomData,
        }
    }
}

/// Pushing an event whose interval begins at the previous end keeps the
/// events contiguous and the log complete.
proof fn lemma_log_extend(
    prev: TimeOutput<Incomplete>,
    cur: TimeOutput<Incomplete>,
    e: Event,
)
    requires
        prev.wf(),
        prev.log_complete(),
        event_window(e).wf(),
        event_window(e).start == prev.end_time,
        cur.start_time == prev.start_time,
        cur.end_time == event_window(e).end,
        cur.schedule@ == prev.schedule@.push(e),
        cur.waiting_time == prev.waiting_time + wait_part(e),
        cur.working_time == prev.working_time + work_part(e),
        cur.traveling_time == prev.traveling_time + travel_part(e),
    ensures
        events_contiguous(cur.schedule@, cur.start_time),
        cur.schedule@.len() > 0 ==> event_window(cur.schedule@.last()).end <= cur.end_time,
        cur.log_complete(),
{
    let s = prev.schedule@;
    let s2 = cur.schedule@;
    lemma_sum_parts_push(s, |ev: Event| wait_part(ev), e);
    lemma_sum_parts_push(s, |ev: Event| work_part(ev), e);
    lemma_sum_parts_push(s, |ev: Event| travel_part(ev), e);
    assert(s2.last() == e);
    assert forall|i: int| 0 <= i < s2.len() implies {
        &&& (#[trigger] event_window(s2[i])).wf()
        &&& event_window(s2[i]).start == if i == 0 {
            cur.start_time as int
        } else {
            event_window(s2[i - 1]).end as int
        }
    } by {
        if i < s.len() {
            assert(s2[i] == s[i]);
            assert(event_window(s[i]).wf());
            if i > 0 {
                assert(s2[i - 1] == s[i - 1]);
            }
        } else {
            assert(s2[i] == e);
            if i > 0 {
                assert(s2[i - 1] == s[i - 1]);
                assert(event_window(s[i - 1]).end == prev.end_time);
            }
        }
    }
}

} // verus!
