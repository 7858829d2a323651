//! The series builder: a window of the histogram, as plain or running
//! counts, each day paired with its label.

use crate::clock::Days;
use crate::error::Error;
use crate::histogram::{lemma_span_monotonic, lemma_span_split, span_sum, Histogram};
use crate::period::{text_of, Period};
use std::string::String;
use vstd::prelude::*;
use vstd::string::StringExecFns;

verus! {

/// The days `start .. end` that a series covers. A window whose end does not
/// lie after its start is empty.
#[derive(Clone, Copy, Debug, PartialEq, Eq, Structural)]
pub struct Window {
    pub start: Days,
    pub end: Days,
}

impl Window {
    /// The number of days in the window.
    pub open spec fn len_spec(self) -> int {
        if self.end.0 > self.start.0 {
            self.end.0 - self.start.0
        } else {
            0
        }
    }

    /// The window that ends before `end` and starts at the later of the
    /// earliest day the source can hold and the period's lower bound.
    pub fn new(earliest: Days, lower_bound: Days, end: Days) -> (r: Window)
        ensures
            r.start.0 == if earliest.0 >= lower_bound.0 {
                earliest.0
            } else {
                lower_bound.0
            },
            r.end == end,
    {
        let start: Days = if earliest.0 >= lower_bound.0 {
            earliest
        } else {
            lower_bound
        };
        Window { start, end }
    }

    /// The number of days in the window.
    pub fn len(&self) -> (r: u64)
        ensures
            r == self.len_spec(),
    {
        if self.end.0 > self.start.0 {
            self.end.0 - self.start.0
        } else {
            0
        }
    }

    /// Whether the window holds no day.
    pub fn is_empty(&self) -> (r: bool)
        ensures
            r <==> self.len_spec() == 0,
    {
        self.end.0 <= self.start.0
    }
}

/// One entry of a series: the value of a day and the label it carries, if
/// any.
#[derive(Debug, PartialEq, Eq)]
pub struct Point {
    pub label: Option<String>,
    pub value: u64,
}

/// The value a series shows for `day` in a window that starts at `start`:
/// the day's own count, or, for a cumulative series, the floor of the window
/// and on top of it every count from the window's start up to and including
/// that day.
pub open spec fn value_at(cells: Seq<u64>, start: int, day: int, cumulative: bool) -> int {
    if cumulative {
        span_sum(cells, 0, start) + span_sum(cells, start, day + 1)
    } else {
        cells[day] as int
    }
}

/// The values of a cumulative series never decrease from one day to a later
/// one.
pub proof fn lemma_cumulative_monotonic(cells: Seq<u64>, start: int, earlier: int, later: int)
    requires
        start <= earlier <= later,
    ensures
        value_at(cells, start, earlier, true) <= value_at(cells, start, later, true),
{
    lemma_span_monotonic(cells, start, earlier + 1, later + 1);
}

/// The first value of a cumulative series already holds the floor: it is the
/// floor and the first day's own count.
pub proof fn lemma_floor_folded_in(cells: Seq<u64>, start: int)
    ensures
        value_at(cells, start, start, true) == span_sum(cells, 0, start) + cells[start],
{
    assert(span_sum(cells, start, start) == 0);
}

/// Builds the series of `window` from a finished histogram: one point per
/// day, in order. A window that reaches beyond the horizon is refused; an
/// empty window gives an empty series.
pub fn build(hist: &Histogram, window: Window, period: Period, cumulative: bool) -> (r: Result<
    Vec<Point>,
    Error,
>)
    requires
        hist.wf(),
    ensures
        r is Err <==> window.len_spec() > 0 && window.end.0 > hist@.len(),
        r matches Err(e) ==> e == Error::HistogramBounds,
        r matches Ok(points) ==> {
            &&& points@.len() == window.len_spec()
            &&& forall|i: int|
                0 <= i < points@.len() ==> {
                    &&& (#[trigger] points@[i]).value == value_at(
                        hist@,
                        window.start.0 as int,
                        window.start.0 + i,
                        cumulative,
                    )
                    &&& text_of(points@[i].label) == period.label_spec(window.start.0 + i)
                }
            &&& cumulative ==> forall|i: int, j: int|
                0 <= i <= j < points@.len() ==> (#[trigger] points@[i]).value <= (
                #[trigger] points@[j]).value
        },
{
    let mut points: Vec<Point> = Vec::new();
    if window.is_empty() {
        return Ok(points);
    }
    if window.end.0 > hist.horizon() as u64 {
        return Err(Error::HistogramBounds);
    }
    proof {
        hist.lemma_wf();
    }
    let start: u64 = window.start.0;
    let end: u64 = window.end.0;
    let mut running: u64 = hist.floor(window.start);
    let mut day: u64 = start;
    while day < end
        invariant
            hist.wf(),
            start == window.start.0,
            end == window.end.0,
            start <= day <= end <= hist@.len(),
            hist@.len() <= crate::histogram::MAX_HORIZON,
            points@.len() == day - start,
            running == span_sum(hist@, 0, day as int),
            forall|i: int|
                0 <= i < points@.len() ==> {
                    &&& (#[trigger] points@[i]).value == value_at(
                        hist@,
                        start as int,
                        start + i,
                        cumulative,
                    )
                    &&& text_of(points@[i].label) == period.label_spec(start + i)
                },
        decreases end - day,
    {
        let count: u64 = hist.count(Days(day));
        proof {
            hist.lemma_wf();
            lemma_span_monotonic(hist@, 0, day + 1, hist@.len() as int);
            lemma_span_split(hist@, 0, start as int, day + 1);
        }
        running = running + count;
        let value: u64 = if cumulative {
            running
        } else {
            count
        };
        points.push(Point { label: period.label(Days(day)), value });
        day = day + 1;
    }
    proof {
        if cumulative {
            assert forall|i: int, j: int| 0 <= i <= j < points@.len() implies (
            #[trigger] points@[i]).value <= (#[trigger] points@[j]).value by {
                lemma_cumulative_monotonic(hist@, start as int, start + i, start + j);
            }
        }
    }
    Ok(points)
}

/// The character that writes the digit `d`.
pub open spec fn digit_char(d: int) -> char {
    if d == 0 {
        '0'
    } else if d == 1 {
        '1'
    } else if d == 2 {
        '2'
    } else if d == 3 {
        '3'
    } else if d == 4 {
        '4'
    } else if d == 5 {
        '5'
    } else if d == 6 {
        '6'
    } else if d == 7 {
        '7'
    } else if d == 8 {
        '8'
    } else {
        '9'
    }
}

/// The decimal digits of `n`, most significant first, without leading zeros.
pub open spec fn decimal_spec(n: nat) -> Seq<char>
    decreases n,
{
    if n < 10 {
        seq![digit_char(n as int)]
    } else {
        decimal_spec(n / 10).push(digit_char((n % 10) as int))
    }
}

/// The record that carries a point to the renderer: the label, or nothing
/// where there is none, then a comma, then the value in decimal digits.
pub open spec fn line_spec(label: Option<Seq<char>>, value: u64) -> Seq<char> {
    let text = match label {
        Some(t) => t,
        None => Seq::<char>::empty(),
    };
    text + seq![','] + decimal_spec(value as nat)
}

fn digit_text(d: u64) -> (r: &'static str)
    requires
        d < 10,
    ensures
        r@ == seq![digit_char(d as int)],
{
    proof {
        reveal_strlit("0");
        reveal_strlit("1");
        reveal_strlit("2");
        reveal_strlit("3");
        reveal_strlit("4");
        reveal_strlit("5");
        reveal_strlit("6");
        reveal_strlit("7");
        reveal_strlit("8");
        reveal_strlit("9");
    }
    let r: &'static str = if d == 0 {
        "0"
    } else if d == 1 {
        "1"
    } else if d == 2 {
        "2"
    } else if d == 3 {
        "3"
    } else if d == 4 {
        "4"
    } else if d == 5 {
        "5"
    } else if d == 6 {
        "6"
    } else if d == 7 {
        "7"
    } else if d == 8 {
        "8"
    } else {
        "9"
    };
    assert(r@ =~= seq![digit_char(d as int)]);
    r
}

/// Writes `n` in decimal digits.
pub fn decimal(n: u64) -> (r: String)
    ensures
        r@ == decimal_spec(n as nat),
    decreases n,
{
    if n < 10 {
        String::from_str(digit_text(n))
    } else {
        let mut text: String = decimal(n / 10);
        text.append(digit_text(n % 10));
        assert(text@ =~= decimal_spec(n as nat));
        text
    }
}

impl Point {
    /// The record that carries this point to the renderer.
    pub fn line(&self) -> (r: String)
        ensures
            r@ == line_spec(text_of(self.label), self.value),
    {
        let mut text: String = match &self.label {
            Some(label) => label.clone(),
            None => String::new(),
        };
        proof {
            reveal_strlit(",");
        }
        text.append(",");
        let digits: String = decimal(self.value);
        text.append(digits.as_str());
        assert(text@ =~= line_spec(text_of(self.label), self.value));
        text
    }
}

} // verus!
