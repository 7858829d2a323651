//! The histogram buffer: one count per day, from day 0 up to a fixed horizon.

use crate::clock::{Days, MAX_DAY};
use vstd::prelude::*;

verus! {

/// The largest horizon a histogram can have: one cell for every day that has a
/// calendar date.
pub const MAX_HORIZON: usize = 95_009_801;

/// The sum of the cells `from .. to` of `cells`; zero where the span is empty.
pub open spec fn span_sum(cells: Seq<u64>, from: int, to: int) -> int
    decreases to - from,
{
    if to <= from {
        0
    } else {
        span_sum(cells, from, to - 1) + cells[to - 1]
    }
}

/// A span splits at any point inside it.
pub proof fn lemma_span_split(cells: Seq<u64>, from: int, mid: int, to: int)
    requires
        from <= mid <= to,
    ensures
        span_sum(cells, from, to) == span_sum(cells, from, mid) + span_sum(cells, mid, to),
    decreases to - mid,
{
    if mid < to {
        lemma_span_split(cells, from, mid, to - 1);
    }
}

/// A span's sum is never negative, and grows with the span.
pub proof fn lemma_span_monotonic(cells: Seq<u64>, from: int, mid: int, to: int)
    requires
        from <= mid <= to,
    ensures
        0 <= span_sum(cells, from, mid) <= span_sum(cells, from, to),
    decreases to - from,
{
    if from < mid {
        lemma_span_monotonic(cells, from, mid - 1, mid - 1);
    }
    if mid < to {
        lemma_span_monotonic(cells, from, mid, to - 1);
    }
}

/// Two sequences that agree on a span have the same sum over it.
pub proof fn lemma_span_agrees(a: Seq<u64>, b: Seq<u64>, from: int, to: int)
    requires
        forall|i: int| from <= i < to ==> a[i] == b[i],
    ensures
        span_sum(a, from, to) == span_sum(b, from, to),
    decreases to - from,
{
    if from < to {
        lemma_span_agrees(a, b, from, to - 1);
    }
}

/// Raising one cell inside a span by one raises the span's sum by one.
pub proof fn lemma_span_bump(cells: Seq<u64>, day: int, from: int, to: int)
    requires
        0 <= from <= day < to <= cells.len(),
        cells[day] < u64::MAX,
    ensures
        span_sum(cells.update(day, (cells[day] + 1) as u64), from, to) == span_sum(cells, from, to)
            + 1,
{
    let bumped = cells.update(day, (cells[day] + 1) as u64);
    lemma_span_split(cells, from, day, to);
    lemma_span_split(cells, day, day + 1, to);
    lemma_span_split(bumped, from, day, to);
    lemma_span_split(bumped, day, day + 1, to);
    lemma_span_agrees(cells, bumped, from, day);
    lemma_span_agrees(cells, bumped, day + 1, to);
    assert(span_sum(cells, day, day + 1) == cells[day]) by {
        assert(span_sum(cells, day, day) == 0);
    }
    assert(span_sum(bumped, day, day + 1) == bumped[day]) by {
        assert(span_sum(bumped, day, day) == 0);
    }
}

/// Counts of events per day, for the days `0 .. horizon`.
pub struct Histogram {
    cells: Vec<u64>,
    total: u64,
}

impl View for Histogram {
    type V = Seq<u64>;

    /// The counts, indexed by day.
    closed spec fn view(&self) -> Seq<u64> {
        self.cells@
    }
}

impl Histogram {
    /// The invariant: the horizon is one every day of which has a date, and
    /// the count of all events fits in a `u64`.
    pub closed spec fn wf(&self) -> bool {
        &&& self.cells@.len() <= MAX_HORIZON
        &&& self.total == span_sum(self.cells@, 0, self.cells@.len() as int)
    }

    /// The number of events counted so far: the sum of all cells.
    pub open spec fn sum(&self) -> int {
        span_sum(self@, 0, self@.len() as int)
    }

    /// In a well-formed histogram the horizon is bounded and the sum fits.
    pub proof fn lemma_wf(&self)
        requires
            self.wf(),
        ensures
            self@.len() <= MAX_HORIZON,
            0 <= self.sum() <= u64::MAX,
    {
        lemma_span_monotonic(self@, 0, 0, self@.len() as int);
    }

    /// A histogram of `horizon` days, every count zero.
    pub fn new(horizon: usize) -> (r: Histogram)
        requires
            horizon <= MAX_HORIZON,
        ensures
            r.wf(),
            r@.len() == horizon,
            forall|d: int| 0 <= d < horizon ==> r@[d] == 0,
            r.sum() == 0,
    {
        let mut cells: Vec<u64> = Vec::new();
        let mut i: usize = 0;
        while i < horizon
            invariant
                i <= horizon,
                cells@.len() == i,
                forall|d: int| 0 <= d < i ==> cells@[d] == 0,
                span_sum(cells@, 0, i as int) == 0,
            decreases horizon - i,
        {
            let ghost before = cells@;
            cells.push(0);
            proof {
                lemma_span_agrees(before, cells@, 0, i as int);
            }
            i = i + 1;
        }
        Histogram { cells, total: 0 }
    }

    /// The number of days the histogram covers.
    pub fn horizon(&self) -> (r: usize)
        ensures
            r == self@.len(),
    {
        self.cells.len()
    }

    /// The number of events counted so far.
    pub fn total(&self) -> (r: u64)
        requires
            self.wf(),
        ensures
            r == self.sum(),
    {
        self.total
    }

    /// The number of events the histogram can still count.
    pub fn room(&self) -> (r: u64)
        requires
            self.wf(),
        ensures
            r == u64::MAX - self.sum(),
    {
        u64::MAX - self.total
    }

    /// The count of `day`; zero for a day at or beyond the horizon.
    pub fn count(&self, day: Days) -> (r: u64)
        ensures
            day.0 < self@.len() ==> r == self@[day.0 as int],
            day.0 >= self@.len() ==> r == 0,
    {
        if day.0 < self.cells.len() as u64 {
            self.cells[day.0 as usize]
        } else {
            0
        }
    }

    /// Counts one more event on `day`.
    pub fn increment(&mut self, day: Days)
        requires
            old(self).wf(),
            day.0 < old(self)@.len(),
            old(self).sum() < u64::MAX,
        ensures
            final(self).wf(),
            final(self)@ == old(self)@.update(day.0 as int, (old(self)@[day.0 as int] + 1) as u64),
            old(self)@[day.0 as int] < u64::MAX,
            final(self).sum() == old(self).sum() + 1,
    {
        let index: usize = day.0 as usize;
        let current: u64 = self.cells[index];
        proof {
            let cells = self.cells@;
            let len = cells.len() as int;
            lemma_span_split(cells, 0, index as int, len);
            lemma_span_split(cells, index as int, index + 1, len);
            lemma_span_monotonic(cells, 0, index as int, index as int);
            lemma_span_monotonic(cells, index + 1, len, len);
            assert(span_sum(cells, index as int, index + 1) == cells[index as int]) by {
                assert(span_sum(cells, index as int, index as int) == 0);
            }
            lemma_span_bump(cells, index as int, 0, len);
        }
        self.cells.set(index, current + 1);
        self.total = self.total + 1;
    }

    /// The latest day with a count above zero, if any day has one.
    pub fn latest(&self) -> (r: Option<Days>)
        ensures
            match r {
                Some(day) => {
                    &&& day.0 < self@.len()
                    &&& self@[day.0 as int] > 0
                    &&& forall|d: int| day.0 < d < self@.len() ==> self@[d] == 0
                },
                None => forall|d: int| 0 <= d < self@.len() ==> self@[d] == 0,
            },
    {
        let mut i: usize = self.cells.len();
        while i > 0
            invariant
                i <= self.cells@.len(),
                forall|d: int| i <= d < self.cells@.len() ==> self.cells@[d] == 0,
            decreases i,
        {
            i = i - 1;
            if self.cells[i] > 0 {
                return Some(Days(i as u64));
            }
        }
        None
    }

    /// The floor of a window that starts at `start`: the number of events on
    /// the days before it.
    pub fn floor(&self, start: Days) -> (r: u64)
        requires
            self.wf(),
        ensures
            r == span_sum(self@, 0, if start.0 < self@.len() { start.0 as int } else { self@.len() as int }),
    {
        let len: usize = self.cells.len();
        let end: usize = if start.0 < len as u64 { start.0 as usize } else { len };
        let mut sum: u64 = 0;
        let mut i: usize = 0;
        while i < end
            invariant
                i <= end <= len,
                len == self.cells@.len(),
                self.wf(),
                sum == span_sum(self.cells@, 0, i as int),
            decreases end - i,
        {
            proof {
                lemma_span_monotonic(self.cells@, 0, i + 1, len as int);
            }
            sum = sum + self.cells[i];
            i = i + 1;
        }
        sum
    }
}

} // verus!
