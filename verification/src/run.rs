//! The order in which the program does things.

use vstd::prelude::*;

verus! {

/// How long it is from one picture to the next, in hours.
pub const PERIOD: u64 = 24;

/// What the program is doing.
#[derive(Debug, Clone, Copy, PartialEq, Eq, Structural)]
pub enum Step {
    /// Connecting to the compositor, and asking for its registry.
    Connect,
    /// Waiting until the compositor has answered all requests, and handling its
    /// events.
    Roundtrip,
    /// Opening the window.
    OpenWindow,
    /// Waiting for events, and handling them.
    AwaitEvents,
    /// Handling the events that are there.
    Dispatch,
    /// Sending the requests that were collected.
    Flush,
    /// Waiting for the compositor or for the clock, whichever comes first.
    Wait,
    /// Searching for a picture, and showing it.
    Tick,
    /// Handling the events that ended the wait.
    DispatchArrived,
}

/// How a step ended.
#[derive(Debug, Clone, Copy, PartialEq, Eq, Structural)]
pub enum StepEnd {
    /// It is done.
    Done,
    /// This many events were handled.
    Dispatched { count: usize },
    /// It is time for another picture.
    TimeIsUp,
    /// There is something to read from the compositor, or there are events already.
    Arrived,
}

/// Whether a step can end this way.
pub open spec fn can_end(step: Step, end: StepEnd) -> bool {
    match step {
        Step::Dispatch => end is Dispatched,
        Step::Wait => end is TimeIsUp || end is Arrived,
        _ => end is Done,
    }
}

/// The step after `step`.
pub open spec fn following(step: Step, end: StepEnd) -> Step {
    match step {
        Step::Connect => Step::Roundtrip,
        Step::Roundtrip => Step::OpenWindow,
        Step::OpenWindow => Step::AwaitEvents,
        Step::AwaitEvents => Step::Dispatch,
        Step::Dispatch => if end == (StepEnd::Dispatched { count: 0 }) {
            Step::Flush
        } else {
            Step::Dispatch
        },
        Step::Flush => Step::Wait,
        Step::Wait => if end is TimeIsUp {
            Step::Tick
        } else {
            Step::DispatchArrived
        },
        Step::Tick => Step::Dispatch,
        Step::DispatchArrived => Step::Dispatch,
    }
}

impl Step {
    /// The first step.
    pub fn first() -> (step: Step)
        ensures
            step == Step::Connect,
    {
        Step::Connect
    }

    /// The step after this one.
    pub fn next(self, end: StepEnd) -> (step: Step)
        requires
            can_end(self, end),
        ensures
            step == following(self, end),
    {
        match self {
            Step::Connect => Step::Roundtrip,
            Step::Roundtrip => Step::OpenWindow,
            Step::OpenWindow => Step::AwaitEvents,
            Step::AwaitEvents => Step::Dispatch,
            Step::Dispatch => match end {
                StepEnd::Dispatched { count } => if count > 0 {
                    Step::Dispatch
                } else {
                    Step::Flush
                },
                _ => Step::Dispatch,
            },
            Step::Flush => Step::Wait,
            Step::Wait => match end {
                StepEnd::TimeIsUp => Step::Tick,
                _ => Step::DispatchArrived,
            },
            Step::Tick => Step::Dispatch,
            Step::DispatchArrived => Step::Dispatch,
        }
    }
}

/// Whether the step at place `i` is the one after the step before it.
pub open spec fn comes_after(steps: Seq<Step>, ends: Seq<StepEnd>, i: int) -> bool {
    can_end(steps[i - 1], ends[i - 1]) && steps[i] == following(steps[i - 1], ends[i - 1])
}

/// Whether `steps` is a beginning of a run, where the step at each place ends as
/// `ends` says.
pub open spec fn is_run(steps: Seq<Step>, ends: Seq<StepEnd>) -> bool {
    &&& steps.len() > 0
    &&& ends.len() + 1 >= steps.len()
    &&& steps[0] == Step::Connect
    &&& forall|i: int| 0 < i < steps.len() ==> #[trigger] comes_after(steps, ends, i)
}

/// The program never waits with events that it has not handled or with requests that
/// it has not sent: before each wait the requests were sent, and before that no
/// event was left.
pub proof fn lemma_wait_is_clean(steps: Seq<Step>, ends: Seq<StepEnd>, i: int)
    requires
        is_run(steps, ends),
        0 <= i < steps.len(),
        steps[i] == Step::Wait,
    ensures
        i >= 2,
        steps[i - 1] == Step::Flush,
        steps[i - 2] == Step::Dispatch,
        ends[i - 2] == (StepEnd::Dispatched { count: 0 }),
{
    assert(comes_after(steps, ends, i));
    assert(comes_after(steps, ends, i - 1));
}

/// The window is opened once, right after the compositor has announced its globals.
pub proof fn lemma_window_is_opened_once(steps: Seq<Step>, ends: Seq<StepEnd>, i: int)
    requires
        is_run(steps, ends),
        0 <= i < steps.len(),
    ensures
        steps[i] == Step::OpenWindow <==> i == 2,
        i == 1 ==> steps[i] == Step::Roundtrip,
        i == 3 ==> steps[i] == Step::AwaitEvents,
        i > 3 ==> !(steps[i] is Connect || steps[i] is Roundtrip || steps[i] is OpenWindow
            || steps[i] is AwaitEvents),
    decreases i,
{
    if i > 0 {
        lemma_window_is_opened_once(steps, ends, i - 1);
        assert(comes_after(steps, ends, i));
        if i > 1 {
            lemma_window_is_opened_once(steps, ends, i - 2);
        }
    }
}

/// A picture is searched for only when the time is up during a wait.
pub proof fn lemma_tick_follows_wait(steps: Seq<Step>, ends: Seq<StepEnd>, i: int)
    requires
        is_run(steps, ends),
        0 <= i < steps.len(),
        steps[i] == Step::Tick,
    ensures
        i >= 1,
        steps[i - 1] == Step::Wait,
        ends[i - 1] == StepEnd::TimeIsUp,
{
    assert(comes_after(steps, ends, i));
}

/// How many of `steps` are searches.
pub open spec fn searches(steps: Seq<Step>) -> nat
    decreases steps.len(),
{
    if steps.len() == 0 {
        0
    } else {
        searches(steps.drop_last()) + if steps.last() == Step::Tick {
            1nat
        } else {
            0nat
        }
    }
}

/// How many of the steps that ended as `ends` says did so because the time was up.
pub open spec fn times_up(ends: Seq<StepEnd>) -> nat
    decreases ends.len(),
{
    if ends.len() == 0 {
        0
    } else {
        times_up(ends.drop_last()) + if ends.last() == StepEnd::TimeIsUp {
            1nat
        } else {
            0nat
        }
    }
}

/// Each time that the time is up there is one search, right after the wait, and there
/// is no other.
pub proof fn lemma_one_search_each_time(steps: Seq<Step>, ends: Seq<StepEnd>)
    requires
        is_run(steps, ends),
        ends.len() + 1 == steps.len(),
    ensures
        searches(steps) == times_up(ends),
        forall|i: int|
            0 <= i < ends.len() ==> (#[trigger] ends[i] == StepEnd::TimeIsUp <==> steps[i + 1]
                == Step::Tick),
    decreases steps.len(),
{
    assert forall|i: int| 0 <= i < ends.len() implies (#[trigger] ends[i] == StepEnd::TimeIsUp
        <==> steps[i + 1] == Step::Tick) by {
        assert(comes_after(steps, ends, i + 1));
    }
    if steps.len() == 1 {
        reveal_with_fuel(searches, 2);
    } else {
        let earlier = steps.drop_last();
        let before = ends.drop_last();
        assert forall|i: int| 0 < i < earlier.len() implies #[trigger] comes_after(
            earlier,
            before,
            i,
        ) by {
            assert(comes_after(steps, ends, i));
        }
        lemma_one_search_each_time(earlier, before);
        assert(ends[ends.len() - 1] == ends.last());
    }
}

/// The program has no last step: each step can end, and then there is another.
pub proof fn lemma_run_goes_on(steps: Seq<Step>, ends: Seq<StepEnd>, end: StepEnd)
    requires
        is_run(steps, ends),
        ends.len() + 1 == steps.len(),
        can_end(steps.last(), end),
    ensures
        is_run(steps.push(following(steps.last(), end)), ends.push(end)),
        exists|next: StepEnd| can_end(following(steps.last(), end), next),
{
    let next = following(steps.last(), end);
    let longer = steps.push(next);
    assert forall|i: int| 0 < i < longer.len() implies #[trigger] comes_after(
        longer,
        ends.push(end),
        i,
    ) by {
        if i < steps.len() {
            assert(comes_after(steps, ends, i));
        }
    }
    assert(can_end(next, StepEnd::Dispatched { count: 0 }) || can_end(next, StepEnd::TimeIsUp)
        || can_end(next, StepEnd::Done));
}

/// What the clock does.
#[derive(Debug, Clone, Copy, PartialEq, Eq, Structural)]
pub enum Clock {
    /// It reports that it is time for a picture.
    Report,
    /// It waits this long.
    Sleep { hours: u64 },
}

/// What the clock does after `clock`.
pub open spec fn after(clock: Clock) -> Clock {
    match clock {
        Clock::Report => Clock::Sleep { hours: PERIOD },
        Clock::Sleep { .. } => Clock::Report,
    }
}

impl Clock {
    /// The first thing it does: it reports at once.
    pub fn first() -> (clock: Clock)
        ensures
            clock == Clock::Report,
    {
        Clock::Report
    }

    /// What it does after this.
    pub fn next(self) -> (clock: Clock)
        ensures
            clock == after(self),
    {
        match self {
            Clock::Report => Clock::Sleep { hours: PERIOD },
            Clock::Sleep { .. } => Clock::Report,
        }
    }
}

/// Whether `clocks` is what the clock does, from its beginning on.
pub open spec fn is_clock(clocks: Seq<Clock>) -> bool {
    &&& clocks.len() > 0
    &&& clocks[0] == Clock::Report
    &&& forall|i: int|
        0 <= i < clocks.len() - 1 ==> clocks[i + 1] == after(#[trigger] clocks[i])
}

/// How many hours the clock waits in all.
pub open spec fn hours_waited(clocks: Seq<Clock>) -> int
    decreases clocks.len(),
{
    if clocks.len() == 0 {
        0
    } else {
        hours_waited(clocks.drop_last()) + match clocks.last() {
            Clock::Report => 0,
            Clock::Sleep { hours } => hours as int,
        }
    }
}

/// The clock reports at once and then after each period: report number `n`, counted
/// from zero, comes when it has waited `n` periods. Between two reports there is one
/// wait.
pub proof fn lemma_reports_are_a_period_apart(clocks: Seq<Clock>, n: int)
    requires
        is_clock(clocks),
        0 <= 2 * n < clocks.len(),
    ensures
        clocks[2 * n] == Clock::Report,
        hours_waited(clocks.take(2 * n)) == n * PERIOD,
        2 * n + 1 < clocks.len() ==> clocks[2 * n + 1] == (Clock::Sleep { hours: PERIOD }),
    decreases n,
{
    reveal_with_fuel(hours_waited, 3);
    if n > 0 {
        lemma_reports_are_a_period_apart(clocks, n - 1);
        assert(clocks[2 * n] == after(clocks[2 * n - 1]));
        assert(clocks.take(2 * n).drop_last() =~= clocks.take(2 * n - 1));
        assert(clocks.take(2 * n - 1).drop_last() =~= clocks.take(2 * n - 2));
        assert(n * PERIOD == (n - 1) * PERIOD + PERIOD) by (nonlinear_arith);
    }
    if 2 * n + 1 < clocks.len() {
        assert(clocks[2 * n + 1] == after(clocks[2 * n]));
    }
}

/// How often the clock reports.
pub open spec fn reports(clocks: Seq<Clock>) -> int
    decreases clocks.len(),
{
    if clocks.len() == 0 {
        0
    } else {
        reports(clocks.drop_last()) + if clocks.last() == Clock::Report {
            1int
        } else {
            0int
        }
    }
}

/// The clock waits one period after each report but the last, and after the last one
/// too where it has gone on since.
proof fn lemma_hours_by_reports(clocks: Seq<Clock>)
    requires
        is_clock(clocks),
    ensures
        reports(clocks) >= 1,
        hours_waited(clocks) == PERIOD * if clocks.last() == Clock::Report {
            reports(clocks) - 1
        } else {
            reports(clocks)
        },
    decreases clocks.len(),
{
    reveal_with_fuel(reports, 2);
    reveal_with_fuel(hours_waited, 2);
    if clocks.len() > 1 {
        let earlier = clocks.drop_last();
        assert(clocks[clocks.len() - 1] == after(clocks[clocks.len() - 2]));
        lemma_hours_by_reports(earlier);
    }
}

/// A new picture is looked for once a day. Where the time was up in a run no more often
/// than the clock has reported it, the clock has waited a period for each search of
/// the run but the first.
pub proof fn lemma_searches_are_a_period_apart(
    steps: Seq<Step>,
    ends: Seq<StepEnd>,
    clocks: Seq<Clock>,
)
    requires
        is_run(steps, ends),
        ends.len() + 1 == steps.len(),
        is_clock(clocks),
        times_up(ends) <= reports(clocks),
    ensures
        hours_waited(clocks) >= (searches(steps) - 1) * PERIOD,
{
    lemma_one_search_each_time(steps, ends);
    lemma_hours_by_reports(clocks);
}

} // verus!
