//! Time windows: closed intervals of absolute time during which a location
//! is receptive, and per-location ordered collections of them.

use vstd::prelude::*;

use crate::limits::{EVAL_TIME_BOUND, MAX_TOTAL_DURATION, MAX_WINDOW_TIME};

verus! {

/// A time window with a start and end time, both absolute UTC instants in
/// whole seconds.  The interval is closed: both endpoints belong to it.
#[derive(Debug, Clone, Copy, PartialEq, Eq, Structural)]
pub struct TimeWindow {
    pub start: u64,
    pub end: u64,
}

impl TimeWindow {
    /// A well-formed window does not end before it starts.
    pub open spec fn wf(self) -> bool {
        self.start <= self.end
    }

    /// The length of the window in seconds.
    pub open spec fn spec_duration(self) -> int {
        self.end - self.start
    }

    /// Creates a new time window with the given start and end time.
    /// The start time must not be after the end time.
    pub fn new(start: u64, end: u64) -> (r: TimeWindow)
        requires
            start <= end,
        ensures
            r == (TimeWindow { start, end }),
    {
        TimeWindow { start, end }
    }

    /// Whether the instant lies inside the closed interval.
    pub fn contains(&self, time: u64) -> (r: bool)
        ensures
            r == (self.start <= time && time <= self.end),
    {
        self.start <= time && time <= self.end
    }

    pub fn duration(&self) -> (r: u64)
        requires
            self.wf(),
        ensures
            r == self.spec_duration(),
    {
        self.end - self.start
    }

    /// How far the instant lies past the end of the window.
    pub fn lateness(&self, time: u64) -> (r: u64)
        ensures
            r == window_lateness(*self, time),
    {
        if time > self.end {
            time - self.end
        } else {
            0
        }
    }
}

/// How far an instant lies past the end of a window; zero when it does not.
pub open spec fn window_lateness(w: TimeWindow, time: u64) -> int {
    if time > w.end {
        time - w.end
    } else {
        0
    }
}

/// The windows are each well formed and strictly chronological: every window
/// ends no later than the next one starts, so windows never overlap.
pub open spec fn windows_sorted(s: Seq<TimeWindow>) -> bool {
    &&& forall|i: int| 0 <= i < s.len() ==> (#[trigger] s[i]).wf()
    &&& forall|i: int| 0 <= i && i + 1 < s.len() ==> (#[trigger] s[i]).end <= s[i + 1].start
}

/// Every window ends by the global input horizon.
pub open spec fn windows_bounded(s: Seq<TimeWindow>) -> bool {
    forall|i: int| 0 <= i < s.len() ==> (#[trigger] s[i]).end <= MAX_WINDOW_TIME
}

/// In a sorted collection the window ends are non-decreasing.
pub proof fn lemma_sorted_ends(s: Seq<TimeWindow>, i: int, j: int)
    requires
        windows_sorted(s),
        0 <= i <= j < s.len(),
    ensures
        s[i].end <= s[j].end,
    decreases j - i,
{
    if i < j {
        lemma_sorted_ends(s, i + 1, j);
    }
}

/// A window is a candidate for placing `need` seconds of work after `t`:
/// it must end strictly after `t`, and when the work may not be split it
/// must be long enough to hold all of it.
pub open spec fn window_candidate(
    s: Seq<TimeWindow>,
    t: u64,
    need: u64,
    must_fit: bool,
    k: int,
) -> bool {
    s[k].end > t && (must_fit ==> s[k].spec_duration() >= need)
}

/// The start of the interval offered by window `k` for work arriving at `t`.
pub open spec fn offered_start(s: Seq<TimeWindow>, t: u64, k: int) -> int {
    if s[k].start > t {
        s[k].start as int
    } else {
        t as int
    }
}

/// The length of the interval offered by window `k`: the whole need when the
/// work may not be split, else as much as the window's full length allows.
pub open spec fn offered_len(s: Seq<TimeWindow>, need: u64, must_fit: bool, k: int) -> int {
    if must_fit {
        need as int
    } else if s[k].spec_duration() < need {
        s[k].spec_duration()
    } else {
        need as int
    }
}

/// The first candidate window at or after index `k`, or the length when
/// none remains.
pub open spec fn first_candidate_from(
    s: Seq<TimeWindow>,
    t: u64,
    need: u64,
    must_fit: bool,
    k: int,
) -> int
    decreases s.len() - k when 0 <= k <= s.len()
{
    if k >= s.len() {
        s.len() as int
    } else if window_candidate(s, t, need, must_fit, k) {
        k
    } else {
        first_candidate_from(s, t, need, must_fit, k + 1)
    }
}

/// What the window search returns, as a function of its inputs: the first
/// candidate window's offer, or nothing when no candidate remains.
pub open spec fn spec_find_window(
    s: Seq<TimeWindow>,
    t: u64,
    need: u64,
    must_fit: bool,
) -> Option<TimeWindow> {
    let k = first_candidate_from(s, t, need, must_fit, 0);
    if k == s.len() {
        None
    } else {
        let start = offered_start(s, t, k);
        Some(
            TimeWindow {
                start: start as u64,
                end: (start + offered_len(s, need, must_fit, k)) as u64,
            },
        )
    }
}

/// An index that is a candidate, with no candidate before it, is the first
/// candidate; when no index is a candidate the search runs off the end.
pub proof fn lemma_first_candidate_is(
    s: Seq<TimeWindow>,
    t: u64,
    need: u64,
    must_fit: bool,
    lo: int,
    k: int,
)
    requires
        0 <= lo <= k <= s.len(),
        k < s.len() ==> window_candidate(s, t, need, must_fit, k),
        forall|j: int| lo <= j < k ==> !window_candidate(s, t, need, must_fit, j),
    ensures
        first_candidate_from(s, t, need, must_fit, lo) == k,
    decreases k - lo,
{
    if lo < k {
        lemma_first_candidate_is(s, t, need, must_fit, lo + 1, k);
    }
}

/// A collection of time windows for one location.
/// Windows are kept in chronological order and do not overlap.
#[derive(Debug, Clone)]
pub struct TimeWindows {
    pub windows: Vec<TimeWindow>,
}

impl TimeWindows {
    pub open spec fn wf(self) -> bool {
        windows_sorted(self.windows@)
    }

    /// Creates a collection from windows already in chronological order.
    pub fn new(windows: Vec<TimeWindow>) -> (r: TimeWindows)
        requires
            windows_sorted(windows@),
        ensures
            r.windows == windows,
            r.wf(),
    {
        TimeWindows { windows }
    }

    /// Adds a new time window to the collection.  It must start no earlier
    /// than the last stored window ends.
    pub fn add_window(&mut self, time_window: TimeWindow)
        requires
            old(self).wf(),
            time_window.wf(),
            old(self).windows@.len() > 0 ==> old(self).windows@.last().end <= time_window.start,
        ensures
            final(self).windows@ == old(self).windows@.push(time_window),
            final(self).wf(),
    {
        let ghost s_old = self.windows@;
        self.windows.push(time_window);
        proof {
            let s_new = self.windows@;
            assert(s_new == s_old.push(time_window));
            assert(s_new.len() == s_old.len() + 1);
            assert forall|i: int| 0 <= i && i + 1 < s_new.len() implies (#[trigger] s_new[i]).end
                <= s_new[i + 1].start by {
                if i + 1 < s_old.len() {
                    assert(s_old.push(time_window)[i] == s_old[i]);
                    assert(s_old.push(time_window)[i + 1] == s_old[i + 1]);
                    assert(s_old[i].end <= s_old[i + 1].start);
                } else {
                    assert(s_new.len() == s_old.len() + 1);
                    assert(i == s_old.len() - 1);
                    assert(s_old.push(time_window)[i] == s_old[s_old.len() - 1]);
                    assert(s_old.push(time_window)[i + 1] == time_window);
                }
            }
            assert forall|i: int| 0 <= i < s_new.len() implies (#[trigger] s_new[i]).wf() by {
                if i < s_old.len() {
                    assert(s_old.push(time_window)[i] == s_old[i]);
                    assert(s_old[i].wf());
                } else {
                    assert(s_old.push(time_window)[i] == time_window);
                }
            }
        }
    }

    pub fn is_empty(&self) -> (r: bool)
        ensures
            r == (self.windows@.len() == 0),
    {
        self.windows.len() == 0
    }

    pub fn len(&self) -> (r: usize)
        ensures
            r == self.windows@.len(),
    {
        self.windows.len()
    }

    /// Finds the earliest interval in which work arriving at `current_time`
    /// can be placed.  With `must_fit` the interval must hold the whole job
    /// in one piece; otherwise the first window ending after `current_time`
    /// offers whatever its full length allows.
    #[verifier::rlimit(100)]
    pub fn find_next_fitting_time(
        &self,
        current_time: u64,
        job_duration: u64,
        must_fit: bool,
    ) -> (r: Option<TimeWindow>)
        requires
            self.wf(),
            windows_bounded(self.windows@),
            current_time <= EVAL_TIME_BOUND,
            job_duration <= MAX_TOTAL_DURATION,
        ensures
            r == spec_find_window(self.windows@, current_time, job_duration, must_fit),
            ({
                let s = self.windows@;
                match r {
                    None => forall|k: int|
                        0 <= k < s.len() ==> !window_candidate(
                            s,
                            current_time,
                            job_duration,
                            must_fit,
                            k,
                        ),
                    Some(tw) => exists|k: int|
                        {
                            &&& 0 <= k < s.len()
                            &&& #[trigger] window_candidate(s, current_time, job_duration, must_fit, k)
                            &&& forall|j: int|
                                0 <= j < k ==> !window_candidate(
                                    s,
                                    current_time,
                                    job_duration,
                                    must_fit,
                                    j,
                                )
                            &&& tw.start == offered_start(s, current_time, k)
                            &&& tw.end == tw.start + offered_len(s, job_duration, must_fit, k)
                            &&& s[k].start <= tw.start <= s[k].end
                            &&& tw.start >= current_time
                            &&& tw.wf()
                        },
                }
            }),
    {
        let ghost s = self.windows@;
        let n = self.windows.len();
        if n == 0 {
            proof {
                lemma_first_candidate_is(s, current_time, job_duration, must_fit, 0, 0);
            }
            return None;
        }
        // Find the first index whose window ends strictly after the current
        // time; window ends are non-decreasing, so we can halve the range.
        let mut lo: usize = 0;
        let mut hi: usize = n;
        while lo < hi
            invariant
                0 <= lo <= hi <= n,
                n == s.len(),
                s == self.windows@,
                windows_sorted(s),
                forall|k: int| 0 <= k < lo ==> (#[trigger] s[k]).end <= current_time,
                forall|k: int| hi <= k < n ==> (#[trigger] s[k]).end > current_time,
            decreases hi - lo,
        {
            let mid = lo + (hi - lo) / 2;
            if self.windows[mid].end > current_time {
                assert forall|k: int| mid <= k < n implies (#[trigger] s[k]).end > current_time by {
                    lemma_sorted_ends(s, mid as int, k);
                }
                hi = mid;
            } else {
                assert forall|k: int| 0 <= k <= mid implies (#[trigger] s[k]).end <= current_time by {
                    lemma_sorted_ends(s, k, mid as int);
                }
                lo = mid + 1;
            }
        }
        let index = lo;
        if index == n {
            proof {
                lemma_first_candidate_is(s, current_time, job_duration, must_fit, 0, n as int);
            }
            return None;
        }
        if !must_fit {
            let w = self.windows[index];
            let start = if w.start > current_time {
                w.start
            } else {
                current_time
            };
            let avail = w.end - w.start;
            let len = if avail < job_duration {
                avail
            } else {
                job_duration
            };
            let tw = TimeWindow::new(start, start + len);
            proof {
                let k = index as int;
                assert(window_candidate(s, current_time, job_duration, must_fit, k));
                assert(tw.start == offered_start(s, current_time, k));
                assert(tw.end == tw.start + offered_len(s, job_duration, must_fit, k));
                assert(s[k].start <= tw.start <= s[k].end);
                lemma_first_candidate_is(s, current_time, job_duration, must_fit, 0, k);
            }
            return Some(tw);
        }
        // The job may not be split: scan forward for the first window long
        // enough to hold the whole of it.
        let mut j = index;
        while j < n
            invariant
                index <= j <= n,
                n == s.len(),
                s == self.windows@,
                windows_sorted(s),
                windows_bounded(s),
                current_time <= EVAL_TIME_BOUND,
                job_duration <= MAX_TOTAL_DURATION,
                must_fit,
                forall|k: int| 0 <= k < index ==> (#[trigger] s[k]).end <= current_time,
                forall|k: int| index <= k < n ==> (#[trigger] s[k]).end > current_time,
                forall|k: int|
                    0 <= k < j ==> !window_candidate(s, current_time, job_duration, must_fit, k),
            decreases n - j,
        {
            let w = self.windows[j];
            if w.end - w.start >= job_duration {
                let start = if w.start > current_time {
                    w.start
                } else {
                    current_time
                };
                let tw = TimeWindow::new(start, start + job_duration);
                proof {
                    let k = j as int;
                    assert(window_candidate(s, current_time, job_duration, must_fit, k));
                    assert(tw.start == offered_start(s, current_time, k));
                    assert(tw.end == tw.start + offered_len(s, job_duration, must_fit, k));
                    assert(s[k].start <= tw.start <= s[k].end);
                    lemma_first_candidate_is(s, current_time, job_duration, must_fit, 0, k);
                }
                return Some(tw);
            }
            j += 1;
        }
        proof {
            lemma_first_candidate_is(s, current_time, job_duration, must_fit, 0, n as int);
        }
        None
    }

    /// Lateness of an instant against the last window; zero when there are
    /// no windows.
    pub fn lateness(&self, time: u64) -> (r: u64)
        ensures
            r == seq_lateness(self.windows@, time),
    {
        if self.windows.len() == 0 {
            return 0;
        }
        let last = self.windows[self.windows.len() - 1];
        last.lateness(time)
    }
}

/// The instant lies inside one of the windows.
pub open spec fn in_some_window(s: Seq<TimeWindow>, t: u64) -> bool {
    exists|k: int| 0 <= k < s.len() && (#[trigger] s[k]).start <= t <= s[k].end
}

/// No window ending after the instant is long enough to hold `need` seconds
/// in one piece.
pub open spec fn no_fitting_window(s: Seq<TimeWindow>, t: u64, need: u64) -> bool {
    forall|k: int|
        0 <= k < s.len() ==> !((#[trigger] s[k]).end > t && s[k].spec_duration() >= need)
}

/// Lateness of an instant against the last window of a collection.
pub open spec fn seq_lateness(s: Seq<TimeWindow>, time: u64) -> int {
    if s.len() == 0 {
        0
    } else {
        window_lateness(s.last(), time)
    }
}

} // verus!
