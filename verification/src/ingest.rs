//! The ingestor: what happens to each event of a stream, and to the
//! histogram, as a stream is consumed newest first.

use crate::clock::{day_of, Days, EPOCH_OFFSET};
use crate::error::Error;
use crate::histogram::Histogram;
use vstd::prelude::*;

verus! {

/// The number of streams that are read at the same time, at most.
pub const MAX_CONCURRENT_STREAMS: usize = 32;

/// One event of a stream: when it happened, and whether the source counts it.
#[derive(Clone, Copy, Debug, PartialEq, Eq, Structural)]
pub struct Event {
    pub timestamp: i64,
    pub countable: bool,
}

/// What becomes of one event.
#[derive(Clone, Copy, Debug, PartialEq, Eq, Structural)]
pub enum Fate {
    /// The source does not count it; it is passed over.
    Skipped,
    /// It is counted on this day.
    Counted(Days),
    /// It is older than the cutoff: it, and all that follows it, is of no
    /// interest.
    BelowCutoff,
    /// It cannot be binned.
    Failed(Error),
}

/// What the consumer of a stream does next.
#[derive(Clone, Copy, Debug, PartialEq, Eq, Structural)]
pub enum Step {
    /// Go on to the next event.
    Continue,
    /// Read no further.
    Stop,
}

/// What the source handed over when asked for the next event.
#[derive(Clone, Copy, Debug, PartialEq, Eq, Structural)]
pub enum Fetched {
    Item(Event),
    /// The stream has no more events.
    End,
    /// The fetch failed.
    Failed,
}

/// How far a run over a sequence of events got.
#[derive(Clone, Copy, Debug, PartialEq, Eq, Structural)]
pub struct Progress {
    /// The number of events looked at, the one that stopped the run included.
    pub consumed: usize,
    /// `Stop` where an event below the cutoff ended the run, `Continue`
    /// where the events ran out first.
    pub step: Step,
}

/// What becomes of `event` under a cutoff and a horizon. An event that the
/// source does not count is skipped unread; of the others, one before the
/// epoch fails, one before the cutoff ends the stream, one at or beyond the
/// horizon fails, and the rest are counted on their day.
pub open spec fn fate(event: Event, cutoff: Days, horizon: int) -> Fate {
    if !event.countable {
        Fate::Skipped
    } else if event.timestamp < EPOCH_OFFSET {
        Fate::Failed(Error::InvalidTimestamp)
    } else if day_of(event.timestamp as int) < cutoff.0 {
        Fate::BelowCutoff
    } else if day_of(event.timestamp as int) >= horizon {
        Fate::Failed(Error::HistogramBounds)
    } else {
        Fate::Counted(Days(day_of(event.timestamp as int) as u64))
    }
}

/// Whether an event with this fate ends the run.
pub open spec fn halts(f: Fate) -> bool {
    f is BelowCutoff || f is Failed
}

/// The index of the first event at or after `from` that ends the run, or the
/// number of events where none does.
pub open spec fn halt_index(events: Seq<Event>, cutoff: Days, horizon: int, from: int) -> int
    decreases events.len() - from,
{
    if from >= events.len() {
        events.len() as int
    } else if halts(fate(events[from], cutoff, horizon)) {
        from
    } else {
        halt_index(events, cutoff, horizon, from + 1)
    }
}

/// The index of the first event that ends the run, or the number of events
/// where none does.
pub open spec fn first_halt(events: Seq<Event>, cutoff: Days, horizon: int) -> int {
    halt_index(events, cutoff, horizon, 0)
}

/// Whether an event with this fate is counted on `day`.
pub open spec fn counted_on(f: Fate, day: int) -> bool {
    f matches Fate::Counted(d) && d.0 == day
}

/// The number of events among the first `upto` that are counted on `day`.
pub open spec fn tally(events: Seq<Event>, cutoff: Days, horizon: int, upto: int, day: int) -> int
    decreases upto,
{
    if upto <= 0 {
        0
    } else {
        tally(events, cutoff, horizon, upto - 1, day) + if counted_on(
            fate(events[upto - 1], cutoff, horizon),
            day,
        ) {
            1int
        } else {
            0int
        }
    }
}

/// The number of events among the first `upto` that the source counts.
pub open spec fn countable_among(events: Seq<Event>, upto: int) -> int
    decreases upto,
{
    if upto <= 0 {
        0
    } else {
        countable_among(events, upto - 1) + if events[upto - 1].countable {
            1int
        } else {
            0int
        }
    }
}

/// The histogram `cells` after a run over `events`: each day has gained the
/// events counted on it before the run ended.
pub open spec fn ingested(cells: Seq<u64>, events: Seq<Event>, cutoff: Days) -> Seq<u64> {
    let horizon = cells.len() as int;
    Seq::new(
        cells.len(),
        |d: int|
            (cells[d] + tally(events, cutoff, horizon, first_halt(events, cutoff, horizon), d))
                as u64,
    )
}

/// What a run over `events` returns: the error of the first event that
/// fails, if one fails before any falls below the cutoff; else how far the
/// run got.
pub open spec fn run_result(events: Seq<Event>, cutoff: Days, horizon: int) -> Result<
    Progress,
    Error,
> {
    let k = first_halt(events, cutoff, horizon);
    if k >= events.len() {
        Ok(Progress { consumed: events.len() as usize, step: Step::Continue })
    } else {
        match fate(events[k], cutoff, horizon) {
            Fate::Failed(e) => Err(e),
            _ => Ok(Progress { consumed: (k + 1) as usize, step: Step::Stop }),
        }
    }
}

/// Where no event from `from` up to `k` ends the run, and the one at `k` does
/// or `k` is the end, the run ends at `k`.
pub proof fn lemma_halt_index(events: Seq<Event>, cutoff: Days, horizon: int, from: int, k: int)
    requires
        0 <= from <= k <= events.len(),
        forall|j: int| from <= j < k ==> !halts(fate(#[trigger] events[j], cutoff, horizon)),
        k < events.len() ==> halts(fate(events[k], cutoff, horizon)),
    ensures
        halt_index(events, cutoff, horizon, from) == k,
    decreases k - from,
{
    if from < k {
        lemma_halt_index(events, cutoff, horizon, from + 1, k);
    }
}

/// The run ends inside the sequence or at its end; the event it ends on ends
/// it, and none before does.
pub proof fn lemma_first_halt(events: Seq<Event>, cutoff: Days, horizon: int)
    ensures
        0 <= first_halt(events, cutoff, horizon) <= events.len(),
        first_halt(events, cutoff, horizon) < events.len() ==> halts(
            fate(events[first_halt(events, cutoff, horizon)], cutoff, horizon),
        ),
        forall|j: int|
            0 <= j < first_halt(events, cutoff, horizon) ==> !halts(
                fate(#[trigger] events[j], cutoff, horizon),
            ),
{
    lemma_halt_index_from(events, cutoff, horizon, 0);
}

proof fn lemma_halt_index_from(events: Seq<Event>, cutoff: Days, horizon: int, from: int)
    requires
        0 <= from,
    ensures
        from <= halt_index(events, cutoff, horizon, from) || events.len() <= from,
        halt_index(events, cutoff, horizon, from) <= events.len() || events.len() <= from,
        halt_index(events, cutoff, horizon, from) < events.len() ==> halts(
            fate(events[halt_index(events, cutoff, horizon, from)], cutoff, horizon),
        ),
        forall|j: int|
            from <= j < halt_index(events, cutoff, horizon, from) ==> !halts(
                fate(#[trigger] events[j], cutoff, horizon),
            ),
    decreases events.len() - from,
{
    if from < events.len() && !halts(fate(events[from], cutoff, horizon)) {
        lemma_halt_index_from(events, cutoff, horizon, from + 1);
    }
}

/// A tally is never negative and never more than the events looked at.
pub proof fn lemma_tally_bounds(events: Seq<Event>, cutoff: Days, horizon: int, upto: int, day: int)
    requires
        0 <= upto,
    ensures
        0 <= tally(events, cutoff, horizon, upto, day) <= upto,
    decreases upto,
{
    if upto > 0 {
        lemma_tally_bounds(events, cutoff, horizon, upto - 1, day);
    }
}

/// Decides what becomes of `event`.
pub fn classify(event: &Event, cutoff: Days, horizon: usize) -> (r: Fate)
    ensures
        r == fate(*event, cutoff, horizon as int),
{
    if !event.countable {
        return Fate::Skipped;
    }
    match Days::from_timestamp(event.timestamp) {
        Err(e) => Fate::Failed(e),
        Ok(day) => {
            if day.0 < cutoff.0 {
                Fate::BelowCutoff
            } else if day.0 >= horizon as u64 {
                Fate::Failed(Error::HistogramBounds)
            } else {
                Fate::Counted(day)
            }
        },
    }
}

/// What the consumer is told after an event with fate `f`.
pub open spec fn verdict(f: Fate) -> Result<Step, Error> {
    match f {
        Fate::Skipped => Ok(Step::Continue),
        Fate::Counted(_) => Ok(Step::Continue),
        Fate::BelowCutoff => Ok(Step::Stop),
        Fate::Failed(e) => Err(e),
    }
}

/// The histogram `cells` after one event with fate `f`: a counted event adds
/// one to its day, any other leaves the histogram as it was.
pub open spec fn observed(cells: Seq<u64>, f: Fate) -> Seq<u64> {
    match f {
        Fate::Counted(day) => cells.update(day.0 as int, (cells[day.0 as int] + 1) as u64),
        _ => cells,
    }
}

/// Takes one event of a stream into the histogram and says whether to read
/// on.
pub fn observe(hist: &mut Histogram, cutoff: Days, event: &Event) -> (r: Result<Step, Error>)
    requires
        old(hist).wf(),
        old(hist).sum() < u64::MAX,
    ensures
        final(hist).wf(),
        r == verdict(fate(*event, cutoff, old(hist)@.len() as int)),
        final(hist)@ == observed(old(hist)@, fate(*event, cutoff, old(hist)@.len() as int)),
        fate(*event, cutoff, old(hist)@.len() as int) matches Fate::Counted(day) ==> old(hist)@[day.0 as int]
            < u64::MAX,
        final(hist).sum() == old(hist).sum() + if fate(*event, cutoff, old(hist)@.len() as int)
            is Counted {
            1int
        } else {
            0int
        },
{
    match classify(event, cutoff, hist.horizon()) {
        Fate::Skipped => Ok(Step::Continue),
        Fate::BelowCutoff => Ok(Step::Stop),
        Fate::Failed(e) => Err(e),
        Fate::Counted(day) => {
            hist.increment(day);
            Ok(Step::Continue)
        },
    }
}

/// Reacts to what the source handed over: an event is observed, the end of
/// the stream stops the consumer, and a failed fetch fails the whole run.
pub fn step(hist: &mut Histogram, cutoff: Days, fetched: &Fetched) -> (r: Result<Step, Error>)
    requires
        old(hist).wf(),
        old(hist).sum() < u64::MAX,
    ensures
        final(hist).wf(),
        match *fetched {
            Fetched::End => r == Ok::<Step, Error>(Step::Stop) && final(hist)@ == old(hist)@,
            Fetched::Failed => r == Err::<Step, Error>(Error::StreamTransport) && final(hist)@
                == old(hist)@,
            Fetched::Item(event) => {
                &&& r == verdict(fate(event, cutoff, old(hist)@.len() as int))
                &&& final(hist)@ == observed(
                    old(hist)@,
                    fate(event, cutoff, old(hist)@.len() as int),
                )
            },
        },
{
    match fetched {
        Fetched::End => Ok(Step::Stop),
        Fetched::Failed => Err(Error::StreamTransport),
        Fetched::Item(event) => observe(hist, cutoff, event),
    }
}

/// The countable events among the first `upto` are no more than `upto`.
pub proof fn lemma_countable_bounds(events: Seq<Event>, upto: int)
    requires
        0 <= upto,
    ensures
        0 <= countable_among(events, upto) <= upto,
    decreases upto,
{
    if upto > 0 {
        lemma_countable_bounds(events, upto - 1);
    }
}

/// Runs over `events` in order, newest first, until they run out or one
/// ends the run. Every event before that one is skipped or counted; the one
/// that ends the run, and all after it, leave the histogram untouched.
pub fn ingest(hist: &mut Histogram, cutoff: Days, events: &[Event]) -> (r: Result<Progress, Error>)
    requires
        old(hist).wf(),
        old(hist).sum() + events@.len() <= u64::MAX,
    ensures
        final(hist).wf(),
        r == run_result(events@, cutoff, old(hist)@.len() as int),
        final(hist)@ == ingested(old(hist)@, events@, cutoff),
        forall|d: int|
            0 <= d < old(hist)@.len() ==> #[trigger] final(hist)@[d] == old(hist)@[d] + tally(
                events@,
                cutoff,
                old(hist)@.len() as int,
                first_halt(events@, cutoff, old(hist)@.len() as int),
                d,
            ),
        final(hist).sum() == old(hist).sum() + countable_among(
            events@,
            first_halt(events@, cutoff, old(hist)@.len() as int),
        ),
{
    let ghost before = hist@;
    let ghost horizon = hist@.len() as int;
    let ghost start = hist.sum();
    let mut i: usize = 0;
    while i < events.len()
        invariant
            i <= events@.len(),
            hist.wf(),
            hist@.len() == horizon,
            before == old(hist)@,
            before.len() == horizon,
            start == old(hist).sum(),
            start + events@.len() <= u64::MAX,
            forall|j: int| 0 <= j < i ==> !halts(fate(#[trigger] events@[j], cutoff, horizon)),
            forall|d: int|
                0 <= d < horizon ==> #[trigger] hist@[d] == before[d] + tally(
                    events@,
                    cutoff,
                    horizon,
                    i as int,
                    d,
                ),
            hist.sum() == start + countable_among(events@, i as int),
        decreases events@.len() - i,
    {
        let ghost prev = hist@;
        let ghost f = fate(events@[i as int], cutoff, horizon);
        proof {
            lemma_countable_bounds(events@, i as int);
            hist.lemma_wf();
        }
        match observe(hist, cutoff, &events[i]) {
            Err(e) => {
                proof {
                    lemma_halt_index(events@, cutoff, horizon, 0, i as int);
                    assert(hist@ =~= ingested(before, events@, cutoff));
                }
                return Err(e);
            },
            Ok(Step::Stop) => {
                proof {
                    lemma_halt_index(events@, cutoff, horizon, 0, i as int);
                    assert(hist@ =~= ingested(before, events@, cutoff));
                }
                return Ok(Progress { consumed: i + 1, step: Step::Stop });
            },
            Ok(Step::Continue) => {
                proof {
                    assert forall|d: int| 0 <= d < horizon implies #[trigger] hist@[d] == before[d]
                        + tally(events@, cutoff, horizon, i + 1, d) by {
                        assert(prev[d] == before[d] + tally(events@, cutoff, horizon, i as int, d));
                        if counted_on(f, d) {
                            assert(hist@[d] == prev[d] + 1);
                        } else {
                            assert(hist@[d] == prev[d]);
                        }
                    }
                }
                i = i + 1;
            },
        }
    }
    proof {
        lemma_halt_index(events@, cutoff, horizon, 0, events@.len() as int);
        assert(hist@ =~= ingested(before, events@, cutoff));
    }
    Ok(Progress { consumed: events.len(), step: Step::Continue })
}

/// Two events may be observed in either order: the histogram comes out the
/// same. So it does for every interleaving of the events of several streams.
pub proof fn lemma_observations_commute(cells: Seq<u64>, f: Fate, g: Fate)
    requires
        f matches Fate::Counted(d) ==> d.0 < cells.len() && cells[d.0 as int] + 2 <= u64::MAX,
        g matches Fate::Counted(d) ==> d.0 < cells.len() && cells[d.0 as int] + 2 <= u64::MAX,
    ensures
        observed(observed(cells, f), g) == observed(observed(cells, g), f),
{
    assert(observed(observed(cells, f), g) =~= observed(observed(cells, g), f));
}

/// A stream in which no event ends the run is consumed whole, and adds
/// every event that its source counts.
pub proof fn lemma_consumed_whole(events: Seq<Event>, cutoff: Days, horizon: int)
    requires
        forall|j: int| 0 <= j < events.len() ==> !halts(fate(#[trigger] events[j], cutoff, horizon)),
        events.len() <= usize::MAX,
    ensures
        first_halt(events, cutoff, horizon) == events.len(),
        run_result(events, cutoff, horizon) == Ok::<Progress, Error>(
            Progress { consumed: events.len() as usize, step: Step::Continue },
        ),
{
    lemma_halt_index(events, cutoff, horizon, 0, events.len() as int);
}

/// An event older than the cutoff is never counted: a run leaves every day
/// before the cutoff as it was.
pub proof fn lemma_nothing_below_cutoff(
    events: Seq<Event>,
    cutoff: Days,
    horizon: int,
    upto: int,
    day: int,
)
    requires
        0 <= day < cutoff.0,
    ensures
        tally(events, cutoff, horizon, upto, day) == 0,
    decreases upto,
{
    if upto > 0 {
        lemma_nothing_below_cutoff(events, cutoff, horizon, upto - 1, day);
    }
}

/// Nothing after the first event below the cutoff is counted, whatever
/// follows it: two streams that agree up to and including that event leave
/// the same histogram and return the same result.
pub proof fn lemma_early_exit(
    cells: Seq<u64>,
    events: Seq<Event>,
    others: Seq<Event>,
    cutoff: Days,
)
    requires
        first_halt(events, cutoff, cells.len() as int) < events.len(),
        others.len() > first_halt(events, cutoff, cells.len() as int),
        forall|j: int|
            0 <= j <= first_halt(events, cutoff, cells.len() as int) ==> events[j] == others[j],
    ensures
        first_halt(others, cutoff, cells.len() as int) == first_halt(
            events,
            cutoff,
            cells.len() as int,
        ),
        ingested(cells, others, cutoff) == ingested(cells, events, cutoff),
        run_result(others, cutoff, cells.len() as int) == run_result(
            events,
            cutoff,
            cells.len() as int,
        ),
{
    let horizon = cells.len() as int;
    let k = first_halt(events, cutoff, horizon);
    lemma_first_halt(events, cutoff, horizon);
    lemma_halt_index(others, cutoff, horizon, 0, k);
    assert forall|d: int| 0 <= d < horizon implies tally(others, cutoff, horizon, k, d) == tally(
        events,
        cutoff,
        horizon,
        k,
        d,
    ) by {
        lemma_tally_agrees(events, others, cutoff, horizon, k, d);
    }
    assert(ingested(cells, others, cutoff) =~= ingested(cells, events, cutoff));
}

/// Two sequences that agree on their first `upto` events have the same
/// tallies over them.
pub proof fn lemma_tally_agrees(
    a: Seq<Event>,
    b: Seq<Event>,
    cutoff: Days,
    horizon: int,
    upto: int,
    day: int,
)
    requires
        forall|j: int| 0 <= j < upto ==> a[j] == b[j],
    ensures
        tally(a, cutoff, horizon, upto, day) == tally(b, cutoff, horizon, upto, day),
    decreases upto,
{
    if upto > 0 {
        lemma_tally_agrees(a, b, cutoff, horizon, upto - 1, day);
    }
}

/// The order in which two streams are taken in does not matter: either way
/// each day gains what both streams count on it.
pub proof fn lemma_order_independent(
    cells: Seq<u64>,
    first: Seq<Event>,
    second: Seq<Event>,
    cutoff: Days,
)
    requires
        forall|d: int| 0 <= d < cells.len() ==> cells[d] + first.len() + second.len() <= u64::MAX,
    ensures
        ingested(ingested(cells, first, cutoff), second, cutoff) == ingested(
            ingested(cells, second, cutoff),
            first,
            cutoff,
        ),
{
    let horizon = cells.len() as int;
    let a = ingested(cells, first, cutoff);
    let b = ingested(cells, second, cutoff);
    let ab = ingested(a, second, cutoff);
    let ba = ingested(b, first, cutoff);
    lemma_first_halt(first, cutoff, horizon);
    lemma_first_halt(second, cutoff, horizon);
    assert forall|d: int| 0 <= d < horizon implies ab[d] == ba[d] by {
        lemma_tally_bounds(first, cutoff, horizon, first_halt(first, cutoff, horizon), d);
        lemma_tally_bounds(second, cutoff, horizon, first_halt(second, cutoff, horizon), d);
    }
    assert(ab =~= ba);
}

/// The histogram `cells` after runs over the first `n` of `streams`, one
/// after another.
pub open spec fn ingested_all(cells: Seq<u64>, streams: Seq<Vec<Event>>, cutoff: Days, n: int) -> Seq<
    u64,
>
    decreases n,
{
    if n <= 0 {
        cells
    } else {
        ingested(ingested_all(cells, streams, cutoff, n - 1), streams[n - 1]@, cutoff)
    }
}

/// The number of events in the first `n` of `streams`.
pub open spec fn events_in(streams: Seq<Vec<Event>>, n: int) -> int
    decreases n,
{
    if n <= 0 {
        0
    } else {
        events_in(streams, n - 1) + streams[n - 1]@.len()
    }
}

/// The number of events that the source counts and that lie before the end
/// of their run, over the first `n` of `streams`.
pub open spec fn counted_in(streams: Seq<Vec<Event>>, cutoff: Days, horizon: int, n: int) -> int
    decreases n,
{
    if n <= 0 {
        0
    } else {
        counted_in(streams, cutoff, horizon, n - 1) + countable_among(
            streams[n - 1]@,
            first_halt(streams[n - 1]@, cutoff, horizon),
        )
    }
}

/// The first streams hold no more events than all of them.
pub proof fn lemma_events_in_monotonic(streams: Seq<Vec<Event>>, n: int, m: int)
    requires
        0 <= n <= m,
    ensures
        0 <= events_in(streams, n) <= events_in(streams, m),
    decreases m,
{
    if n < m {
        lemma_events_in_monotonic(streams, n, m - 1);
    } else if n > 0 {
        lemma_events_in_monotonic(streams, n - 1, n - 1);
    }
}

/// No more events are counted than there are.
pub proof fn lemma_counted_in_bounds(streams: Seq<Vec<Event>>, cutoff: Days, horizon: int, n: int)
    requires
        0 <= n,
    ensures
        0 <= counted_in(streams, cutoff, horizon, n) <= events_in(streams, n),
    decreases n,
{
    if n > 0 {
        lemma_counted_in_bounds(streams, cutoff, horizon, n - 1);
        let events = streams[n - 1]@;
        lemma_first_halt(events, cutoff, horizon);
        lemma_countable_bounds(events, first_halt(events, cutoff, horizon));
    }
}

/// Runs over every stream in turn and returns when all of them have run out
/// or stopped. The first stream that fails ends the whole run with its error:
/// what was counted up to then stays in the histogram, which is then no
/// result to show.
pub fn ingest_all(hist: &mut Histogram, cutoff: Days, streams: &[Vec<Event>]) -> (r: Result<
    (),
    Error,
>)
    requires
        old(hist).wf(),
        old(hist).sum() + events_in(streams@, streams@.len() as int) <= u64::MAX,
    ensures
        final(hist).wf(),
        final(hist)@.len() == old(hist)@.len(),
        r is Ok <==> forall|s: int|
            0 <= s < streams@.len() ==> run_result(
                (#[trigger] streams@[s])@,
                cutoff,
                old(hist)@.len() as int,
            ) is Ok,
        r is Ok ==> {
            &&& final(hist)@ == ingested_all(old(hist)@, streams@, cutoff, streams@.len() as int)
            &&& final(hist).sum() == old(hist).sum() + counted_in(
                streams@,
                cutoff,
                old(hist)@.len() as int,
                streams@.len() as int,
            )
        },
        r matches Err(e) ==> exists|f: int|
            {
                &&& 0 <= f < streams@.len()
                &&& run_result((#[trigger] streams@[f])@, cutoff, old(hist)@.len() as int) == Err::<
                    Progress,
                    Error,
                >(e)
                &&& forall|s: int|
                    0 <= s < f ==> run_result(
                        (#[trigger] streams@[s])@,
                        cutoff,
                        old(hist)@.len() as int,
                    ) is Ok
                &&& final(hist)@ == ingested_all(old(hist)@, streams@, cutoff, f + 1)
            },
{
    let ghost before = hist@;
    let ghost horizon = hist@.len() as int;
    let ghost start = hist.sum();
    let mut s: usize = 0;
    while s < streams.len()
        invariant
            s <= streams@.len(),
            hist.wf(),
            hist@.len() == horizon,
            before == old(hist)@,
            before.len() == horizon,
            start == old(hist).sum(),
            start + events_in(streams@, streams@.len() as int) <= u64::MAX,
            hist@ == ingested_all(before, streams@, cutoff, s as int),
            hist.sum() == start + counted_in(streams@, cutoff, horizon, s as int),
            forall|t: int|
                0 <= t < s ==> run_result((#[trigger] streams@[t])@, cutoff, horizon) is Ok,
        decreases streams@.len() - s,
    {
        proof {
            lemma_counted_in_bounds(streams@, cutoff, horizon, s as int);
            lemma_events_in_monotonic(streams@, s + 1, streams@.len() as int);
        }
        match ingest(hist, cutoff, streams[s].as_slice()) {
            Err(e) => {
                return Err(e);
            },
            Ok(_) => {
                s = s + 1;
            },
        }
    }
    Ok(())
}

} // verus!
