use papier::run::{Clock, Step, StepEnd, PERIOD};

#[test]
fn the_window_is_opened_after_the_globals_are_known() {
    let mut step = Step::first();
    let mut steps = vec![step];
    for _ in 0..4 {
        step = step.next(StepEnd::Done);
        steps.push(step);
    }
    assert_eq!(
        steps,
        vec![
            Step::Connect,
            Step::Roundtrip,
            Step::OpenWindow,
            Step::AwaitEvents,
            Step::Dispatch
        ]
    );
}

#[test]
fn events_are_handled_until_none_is_left() {
    let step = Step::Dispatch.next(StepEnd::Dispatched { count: 3 });
    assert_eq!(step, Step::Dispatch);
    let step = step.next(StepEnd::Dispatched { count: 0 });
    assert_eq!(step, Step::Flush);
    assert_eq!(step.next(StepEnd::Done), Step::Wait);
}

#[test]
fn a_wait_ends_with_the_clock_or_the_compositor() {
    let tick = Step::Wait.next(StepEnd::TimeIsUp);
    assert_eq!(tick, Step::Tick);
    assert_eq!(tick.next(StepEnd::Done), Step::Dispatch);
    let arrived = Step::Wait.next(StepEnd::Arrived);
    assert_eq!(arrived, Step::DispatchArrived);
    assert_eq!(arrived.next(StepEnd::Done), Step::Dispatch);
}

#[test]
fn the_clock_reports_at_once_and_then_once_a_day() {
    let clock = Clock::first();
    assert_eq!(clock, Clock::Report);
    let clock = clock.next();
    assert_eq!(clock, Clock::Sleep { hours: 24 });
    assert_eq!(clock.next(), Clock::Report);
    assert_eq!(PERIOD, 24);
}

#[test]
fn each_report_comes_a_day_after_the_one_before_it() {
    let mut clock = Clock::first();
    let mut waited = 0;
    let mut reported = Vec::new();
    for _ in 0..9 {
        match clock {
            Clock::Report => reported.push(waited),
            Clock::Sleep { hours } => waited += hours,
        }
        clock = clock.next();
    }
    assert_eq!(reported, vec![0, 24, 48, 72, 96]);
}

#[test]
fn there_is_one_search_each_time_that_the_time_is_up() {
    let mut step = Step::first();
    let mut waits = 0;
    let mut searches = 0;
    for _ in 0..100 {
        let end = match step {
            Step::Dispatch => StepEnd::Dispatched { count: 0 },
            Step::Wait => {
                waits += 1;
                if waits % 3 == 0 {
                    StepEnd::TimeIsUp
                } else {
                    StepEnd::Arrived
                }
            }
            Step::Tick => {
                searches += 1;
                assert_eq!(waits, 3 * searches);
                StepEnd::Done
            }
            _ => StepEnd::Done,
        };
        step = step.next(end);
    }
    assert_eq!(searches, waits / 3);
    assert_eq!(searches, 8);
}
