//! What the program does next, and where it keeps its picture.

use vstd::prelude::*;
use vstd::utf8::encode_utf8;

use crate::cache::{cache_path, join, lemma_names, CachePath};
use crate::run::{can_end, comes_after, Clock, Step, StepEnd};

verus! {

/// The program connects, learns of the globals, opens the window and waits for events, in
/// this order. Then it handles events until none is left, sends its requests and waits. When
/// the time is up it searches for a picture, and when something arrived it handles that.
/// Then it begins again with the events.
pub proof fn law_next_step(step: Step, end: StepEnd, next: Step)
    requires
        can_end(step, end),
        call_ensures(Step::next, (step, end), next),
    ensures
        call_requires(Step::next, (step, end)),
        !(next is Connect),
        next is Roundtrip <==> step is Connect,
        next is OpenWindow <==> step is Roundtrip,
        next is AwaitEvents <==> step is OpenWindow,
        next is Flush <==> step is Dispatch && end == (StepEnd::Dispatched { count: 0 }),
        next is Wait <==> step is Flush,
        next is Tick <==> step is Wait && end is TimeIsUp,
        next is DispatchArrived <==> step is Wait && end is Arrived,
        comes_after(seq![step, next], seq![end], 1),
{
}

/// What can be told of a step: the number of events that were handled, whether the time is
/// up or something arrived, or that it is done.
pub proof fn law_ends(step: Step, count: usize)
    ensures
        call_requires(Step::next, (Step::Dispatch, StepEnd::Dispatched { count })),
        call_requires(Step::next, (Step::Wait, StepEnd::TimeIsUp)),
        call_requires(Step::next, (Step::Wait, StepEnd::Arrived)),
        !(step is Dispatch || step is Wait) ==> call_requires(Step::next, (step, StepEnd::Done)),
{
}

/// The program begins with the connection.
pub proof fn law_first_step(step: Step)
    requires
        call_ensures(Step::first, (), step),
    ensures
        step is Connect,
{
}

/// The clock begins with a report. After each report it waits for a day, and after each
/// wait it reports.
pub proof fn law_clock(first: Clock, clock: Clock, next: Clock)
    requires
        call_ensures(Clock::first, (), first),
        call_ensures(Clock::next, (clock,), next),
    ensures
        first is Report,
        clock is Report ==> next == (Clock::Sleep { hours: 24 }),
        clock is Sleep ==> next is Report,
{
}

/// A path that another can be put behind: with a separator at its end, unless it is empty.
pub open spec fn opened(path: Seq<u8>) -> Seq<u8> {
    if path.len() == 0 || path[path.len() - 1] == 0x2f {
        path
    } else {
        path.push(0x2f)
    }
}

/// A part that begins with a separator stands alone. Any other is put behind the path.
pub proof fn law_join(path: &Vec<u8>, part: &str, longer: Vec<u8>)
    requires
        call_ensures(join, (path, part), longer),
    ensures
        call_requires(join, (path, part)),
        ({
            let bytes = encode_utf8(part@);
            longer@ == if bytes.len() > 0 && bytes[0] == 0x2f {
                bytes
            } else {
                opened(path@) + bytes
            }
        }),
{
    let bytes = encode_utf8(part@);
    assert(longer@ =~= if bytes.len() > 0 && bytes[0] == 0x2f {
        bytes
    } else {
        opened(path@) + bytes
    });
}

/// The picture is kept in the file `cache` in the directory `papier` of the user's caches:
/// those that `XDG_CACHE_HOME` names, where it is set, and else those in `.cache` in the home
/// directory.
pub proof fn law_cache_path(
    xdg_cache_home: &Option<Vec<u8>>,
    home: &Option<Vec<u8>>,
    place: CachePath,
)
    requires
        xdg_cache_home is Some || home is Some,
        call_ensures(cache_path, (xdg_cache_home, home), place),
    ensures
        call_requires(cache_path, (xdg_cache_home, home)),
        xdg_cache_home matches Some(caches) ==> place.directory@ == opened(caches@) + seq![
            0x70u8, 0x61u8, 0x70u8, 0x69u8, 0x65u8, 0x72u8,
        ],
        xdg_cache_home is None ==> place.directory@ == opened(home.unwrap()@) + seq![
            0x2eu8, 0x63u8, 0x61u8, 0x63u8, 0x68u8, 0x65u8, 0x2fu8, 0x70u8, 0x61u8, 0x70u8, 0x69u8,
            0x65u8, 0x72u8,
        ],
        place.file@ == place.directory@ + seq![0x2fu8, 0x63u8, 0x61u8, 0x63u8, 0x68u8, 0x65u8],
{
    lemma_names();
    let name = seq![0x70u8, 0x61u8, 0x70u8, 0x69u8, 0x65u8, 0x72u8];
    let caches = seq![0x2eu8, 0x63u8, 0x61u8, 0x63u8, 0x68u8, 0x65u8];
    let file = seq![0x63u8, 0x61u8, 0x63u8, 0x68u8, 0x65u8];
    match xdg_cache_home {
        Some(path) => {
            assert(place.directory@ =~= opened(path@) + name);
        },
        None => {
            let path = home.unwrap()@;
            let below = opened(path) + caches;
            assert(place.directory@ =~= below.push(0x2f) + name);
            assert(place.directory@ =~= opened(path) + seq![
                0x2eu8, 0x63u8, 0x61u8, 0x63u8, 0x68u8, 0x65u8, 0x2fu8, 0x70u8, 0x61u8, 0x70u8,
                0x69u8, 0x65u8, 0x72u8,
            ]);
        },
    }
    assert(place.file@ =~= place.directory@ + seq![
        0x2fu8, 0x63u8, 0x61u8, 0x63u8, 0x68u8, 0x65u8,
    ]);
}

} // verus!
