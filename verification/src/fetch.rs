//! Getting a picture: downloads that are tried again until one gives a picture.

use vstd::prelude::*;

use crate::picture::{decode_image, decoded_from, readable, DecodeError, Picture};

verus! {

/// Where a picture is to be had, another one each time.
pub const URL: &'static str = "https://bing.biturl.top?format=image&resolution=UHD&mkt=random";

/// How many downloads are tried for one picture.
pub const ATTEMPTS: usize = 10;

/// How long to wait after a download that failed, in seconds.
pub const PAUSE: u64 = 1;

/// What is reported where a search comes to no picture.
pub const GAVE_UP: &'static str = "failed to fetch image";

/// A search for a picture: how many downloads may still be tried, the one that is
/// on its way included.
#[derive(Debug, Clone, Copy, PartialEq, Eq, Structural)]
pub struct Fetch {
    pub retry: usize,
}

/// What happened.
#[derive(Debug, Clone, PartialEq, Eq)]
pub enum FetchEvent {
    /// The search begins.
    Begun,
    /// The download failed.
    DownloadFailed,
    /// The download gave this file.
    Downloaded { file: Vec<u8> },
    /// The wait is over.
    Slept,
}

/// What to do next.
#[derive(Debug, Clone, PartialEq, Eq)]
pub enum FetchAction {
    /// Download a file.
    Download,
    /// Wait.
    Sleep { seconds: u64 },
    /// The search is over. Keep `file` in the cache, as far as that can be done, and
    /// show `picture`.
    Finish { picture: Picture, file: Vec<u8> },
    /// The search is over. There is no picture.
    GiveUp,
}

/// The kinds of [`FetchAction`].
pub enum Doing {
    Download,
    Sleep,
    Finish,
    GiveUp,
}

impl FetchAction {
    /// The kind of this action.
    pub open spec fn doing(&self) -> Doing {
        match self {
            FetchAction::Download => Doing::Download,
            FetchAction::Sleep { .. } => Doing::Sleep,
            FetchAction::Finish { .. } => Doing::Finish,
            FetchAction::GiveUp => Doing::GiveUp,
        }
    }
}

/// What a download came to.
pub enum Outcome {
    /// It failed.
    NoFile,
    /// It gave a file that is no picture.
    NoPicture,
    /// It gave a picture.
    Picture,
}

/// Whether `action` shows the picture that `file` holds, and keeps `file`.
pub open spec fn finishes_with(action: FetchAction, file: Vec<u8>) -> bool {
    action matches FetchAction::Finish { picture, file: kept } && {
        &&& decoded_from(picture, file@)
        &&& kept == file
    }
}

/// What is done with `retry` downloads left.
pub open spec fn attempt(retry: int) -> Doing {
    if retry == 0 {
        Doing::GiveUp
    } else {
        Doing::Download
    }
}

/// What is done once a download came to `outcome`, and how many downloads are then
/// left.
pub open spec fn after(retry: int, outcome: Outcome) -> (int, Doing) {
    match outcome {
        Outcome::NoFile => (retry - 1, Doing::Sleep),
        Outcome::NoPicture => (retry - 1, attempt(retry - 1)),
        Outcome::Picture => (retry, Doing::Finish),
    }
}

/// What a download came to, where `event` reports one.
pub open spec fn outcome(event: FetchEvent) -> Option<Outcome> {
    match event {
        FetchEvent::DownloadFailed => Some(Outcome::NoFile),
        FetchEvent::Downloaded { file } => if readable(file@) {
            Some(Outcome::Picture)
        } else {
            Some(Outcome::NoPicture)
        },
        _ => None,
    }
}

/// Whether `event` brings the search from `before` to `after`, and `action` is what is
/// done then.
pub open spec fn is_step(
    before: Fetch,
    event: FetchEvent,
    after: Fetch,
    action: FetchAction,
) -> bool {
    &&& (after.retry as int, action.doing()) == match outcome(event) {
        Some(outcome) => self::after(before.retry as int, outcome),
        None => (before.retry as int, attempt(before.retry as int)),
    }
    &&& event matches FetchEvent::Downloaded { file } ==> readable(file@) ==> finishes_with(
        action,
        file,
    )
    &&& action matches FetchAction::Sleep { seconds } ==> seconds == PAUSE
}

impl Fetch {
    /// A search with `retry` downloads.
    pub fn new(retry: usize) -> (search: Fetch)
        ensures
            search.retry == retry,
    {
        Fetch { retry }
    }

    /// What to do after `event`. A download is only reported where one was asked
    /// for.
    pub fn next(&mut self, event: FetchEvent) -> (action: FetchAction)
        requires
            event is DownloadFailed || event is Downloaded ==> old(self).retry > 0,
        ensures
            is_step(*old(self), event, *final(self), action),
    {
        match event {
            FetchEvent::Begun => self.attempt(),
            FetchEvent::Slept => self.attempt(),
            FetchEvent::DownloadFailed => {
                self.retry = self.retry - 1;
                FetchAction::Sleep { seconds: PAUSE }
            },
            FetchEvent::Downloaded { file } => {
                let decoded: Result<Picture, DecodeError> = decode_image(file.as_slice());
                self.decoded(file, decoded)
            },
        }
    }

    /// Another download, where one is left.
    fn attempt(&self) -> (action: FetchAction)
        ensures
            action.doing() == attempt(self.retry as int),
    {
        if self.retry == 0 {
            FetchAction::GiveUp
        } else {
            FetchAction::Download
        }
    }

    /// What to do after a download gave `file`, which was read as `decoded`.
    pub fn decoded(&mut self, file: Vec<u8>, decoded: Result<Picture, DecodeError>) -> (action:
        FetchAction)
        requires
            old(self).retry > 0,
        ensures
            (final(self).retry as int, action.doing()) == after(
                old(self).retry as int,
                if decoded is Ok {
                    Outcome::Picture
                } else {
                    Outcome::NoPicture
                },
            ),
            decoded matches Ok(picture) ==> action == (FetchAction::Finish { picture, file }),
    {
        match decoded {
            Ok(picture) => FetchAction::Finish { picture, file },
            Err(_) => {
                self.retry = self.retry - 1;
                self.attempt()
            },
        }
    }
}

/// All that is done in a search with `retry` downloads, where `outcomes` says what
/// the downloads come to, in order.
pub open spec fn history(retry: int, outcomes: Seq<Outcome>) -> Seq<Doing>
    decreases retry,
{
    if retry <= 0 || attempt(retry) is GiveUp {
        seq![Doing::GiveUp]
    } else if outcomes.len() == 0 {
        seq![Doing::Download]
    } else {
        match after(retry, outcomes[0]) {
            (_, Doing::Finish) => seq![Doing::Download, Doing::Finish],
            (left, Doing::Sleep) => seq![Doing::Download, Doing::Sleep] + history(
                left,
                outcomes.drop_first(),
            ),
            (left, _) => seq![Doing::Download] + history(left, outcomes.drop_first()),
        }
    }
}

/// Whether `event` is what can come of `action`.
pub open spec fn answers(event: FetchEvent, action: FetchAction) -> bool {
    match action {
        FetchAction::Download => event is DownloadFailed || event is Downloaded,
        FetchAction::Sleep { .. } => event is Slept,
        _ => false,
    }
}

/// Whether each event brings the search from one place in `searches` to the next and
/// comes to the action at its place, and each event but the first is what came of the
/// action before it.
pub open spec fn goes_on(
    searches: Seq<Fetch>,
    events: Seq<FetchEvent>,
    actions: Seq<FetchAction>,
) -> bool {
    &&& actions.len() > 0
    &&& events.len() == actions.len()
    &&& searches.len() == actions.len() + 1
    &&& forall|i: int|
        #![trigger actions[i]]
        0 <= i < actions.len() ==> is_step(searches[i], events[i], searches[i + 1], actions[i])
    &&& forall|i: int|
        #![trigger events[i]]
        0 < i < events.len() ==> answers(events[i], actions[i - 1])
}

/// Whether this is a search with `retry` downloads, from its beginning on: what is left
/// of it before and after each event, the events, and what was done after each.
pub open spec fn is_search(
    retry: int,
    searches: Seq<Fetch>,
    events: Seq<FetchEvent>,
    actions: Seq<FetchAction>,
) -> bool {
    &&& goes_on(searches, events, actions)
    &&& searches[0].retry == retry
    &&& events[0] is Begun
}

/// What the downloads came to, in order.
pub open spec fn outcomes(events: Seq<FetchEvent>) -> Seq<Outcome>
    decreases events.len(),
{
    if events.len() == 0 {
        seq![]
    } else {
        match outcome(events[0]) {
            Some(outcome) => seq![outcome] + outcomes(events.drop_first()),
            None => outcomes(events.drop_first()),
        }
    }
}

/// The kinds of the actions, in order.
pub open spec fn doings(actions: Seq<FetchAction>) -> Seq<Doing> {
    Seq::new(actions.len(), |i: int| actions[i].doing())
}

/// How often `doing` is done.
pub open spec fn times(actions: Seq<Doing>, doing: Doing) -> nat
    decreases actions.len(),
{
    if actions.len() == 0 {
        0
    } else {
        times(actions.drop_first(), doing) + if actions[0] == doing {
            1nat
        } else {
            0nat
        }
    }
}

/// How many of the outcomes are failed downloads.
pub open spec fn failures(outcomes: Seq<Outcome>) -> nat
    decreases outcomes.len(),
{
    if outcomes.len() == 0 {
        0
    } else {
        failures(outcomes.drop_first()) + if outcomes[0] is NoFile {
            1nat
        } else {
            0nat
        }
    }
}

/// Counting two sequences one after the other.
proof fn lemma_times_add(a: Seq<Doing>, b: Seq<Doing>, doing: Doing)
    ensures
        times(a + b, doing) == times(a, doing) + times(b, doing),
    decreases a.len(),
{
    if a.len() == 0 {
        assert(a + b =~= b);
    } else {
        assert((a + b).drop_first() =~= a.drop_first() + b);
        lemma_times_add(a.drop_first(), b, doing);
    }
}

/// A download that gives no picture adds itself, and a wait where it failed, to the
/// search that goes on.
proof fn lemma_step(retry: int, outcomes: Seq<Outcome>)
    requires
        retry > 0,
        outcomes.len() > 0,
        !(outcomes[0] is Picture),
    ensures
        ({
            let rest = history(retry - 1, outcomes.drop_first());
            let all = history(retry, outcomes);
            &&& all.len() > 0
            &&& rest.len() > 0
            &&& all[0] == Doing::Download
            &&& all.last() == rest.last()
            &&& times(all, Doing::Download) == times(rest, Doing::Download) + 1
            &&& times(all, Doing::Finish) == times(rest, Doing::Finish)
            &&& times(all, Doing::GiveUp) == times(rest, Doing::GiveUp)
            &&& times(all, Doing::Sleep) == times(rest, Doing::Sleep) + if outcomes[0] is NoFile {
                1nat
            } else {
                0nat
            }
        }),
{
    let rest = history(retry - 1, outcomes.drop_first());
    let head = if outcomes[0] is NoFile {
        seq![Doing::Download, Doing::Sleep]
    } else {
        seq![Doing::Download]
    };
    assert(history(retry, outcomes) == head + rest);
    lemma_history_begins(retry - 1, outcomes.drop_first());
    reveal_with_fuel(times, 3);
    assert(head.drop_first() =~= if outcomes[0] is NoFile {
        seq![Doing::Sleep]
    } else {
        seq![]
    });
    lemma_times_add(head, rest, Doing::Download);
    lemma_times_add(head, rest, Doing::Sleep);
    lemma_times_add(head, rest, Doing::Finish);
    lemma_times_add(head, rest, Doing::GiveUp);
}

/// What is left of a search goes on in the same way.
proof fn lemma_goes_on(
    searches: Seq<Fetch>,
    events: Seq<FetchEvent>,
    actions: Seq<FetchAction>,
)
    requires
        goes_on(searches, events, actions),
        actions.len() > 1,
    ensures
        goes_on(searches.drop_first(), events.drop_first(), actions.drop_first()),
        actions.drop_first().last() == actions.last(),
        searches.drop_first().last() == searches.last(),
        doings(actions) == seq![actions[0].doing()] + doings(actions.drop_first()),
{
    let later = actions.drop_first();
    let answers_later = events.drop_first();
    assert forall|i: int| #![trigger later[i]] 0 <= i < later.len() implies is_step(
        searches.drop_first()[i],
        answers_later[i],
        searches.drop_first()[i + 1],
        later[i],
    ) by {
        assert(later[i] == actions[i + 1]);
    }
    assert forall|i: int| #![trigger answers_later[i]] 0 < i < answers_later.len() implies answers(
        answers_later[i],
        later[i - 1],
    ) by {
        assert(answers_later[i] == events[i + 1]);
    }
    assert(doings(actions) =~= seq![actions[0].doing()] + doings(later));
}

/// From an attempt on, what is done is the history that the outcomes make.
proof fn lemma_attempts_make_history(
    retry: int,
    searches: Seq<Fetch>,
    events: Seq<FetchEvent>,
    actions: Seq<FetchAction>,
)
    requires
        retry >= 0,
        goes_on(searches, events, actions),
        searches[1].retry == retry,
        actions[0].doing() == attempt(retry),
    ensures
        history(retry, outcomes(events.drop_first())) == if actions.last() is Sleep {
            doings(actions).push(attempt(searches.last().retry as int))
        } else {
            doings(actions)
        },
    decreases actions.len(),
{
    let rest = events.drop_first();
    if actions.len() == 1 {
        assert(outcomes(rest) =~= seq![]);
        assert(doings(actions) =~= seq![attempt(retry)]);
    } else {
        assert(answers(events[1], actions[0]));
        assert(rest[0] == events[1]);
        assert(is_step(searches[1], events[1], searches[2], actions[1]));
        lemma_goes_on(searches, events, actions);
        let happened = outcomes(rest);
        assert(happened == seq![outcome(events[1]).unwrap()] + outcomes(rest.drop_first()));
        assert(happened.drop_first() =~= outcomes(rest.drop_first()));
        match outcome(events[1]).unwrap() {
            Outcome::Picture => {
                if actions.len() > 2 {
                    assert(answers(events[2], actions[1]));
                }
                assert(doings(actions) =~= seq![Doing::Download, Doing::Finish]);
            },
            Outcome::NoPicture => {
                lemma_attempts_make_history(
                    retry - 1,
                    searches.drop_first(),
                    rest,
                    actions.drop_first(),
                );
                let later = history(retry - 1, outcomes(rest.drop_first()));
                assert(history(retry, happened) == seq![Doing::Download] + later);
                assert(history(retry, happened) =~= if actions.last() is Sleep {
                    doings(actions).push(attempt(searches.last().retry as int))
                } else {
                    doings(actions)
                });
            },
            Outcome::NoFile => {
                let later = history(retry - 1, outcomes(rest.drop_first()));
                assert(history(retry, happened) == seq![Doing::Download, Doing::Sleep] + later);
                if actions.len() == 2 {
                    assert(outcomes(rest.drop_first()) =~= seq![]);
                    assert(later =~= seq![attempt(retry - 1)]);
                    assert(doings(actions) =~= seq![Doing::Download, Doing::Sleep]);
                    assert(history(retry, happened) =~= doings(actions).push(attempt(retry - 1)));
                } else {
                    assert(answers(events[2], actions[1]));
                    assert(is_step(searches[2], events[2], searches[3], actions[2]));
                    lemma_goes_on(searches.drop_first(), rest, actions.drop_first());
                    lemma_attempts_make_history(
                        retry - 1,
                        searches.drop_first().drop_first(),
                        rest.drop_first(),
                        actions.drop_first().drop_first(),
                    );
                    assert(rest.drop_first()[0] == events[2]);
                    assert(history(retry, happened) =~= if actions.last() is Sleep {
                        doings(actions).push(attempt(searches.last().retry as int))
                    } else {
                        doings(actions)
                    });
                }
            },
        }
    }
}

/// What is done in a search is the history that the outcomes of its downloads make.
/// Where it stands at a wait, the history is one step ahead.
pub proof fn lemma_search_makes_history(
    retry: int,
    searches: Seq<Fetch>,
    events: Seq<FetchEvent>,
    actions: Seq<FetchAction>,
)
    requires
        is_search(retry, searches, events, actions),
    ensures
        history(retry, outcomes(events)) == if actions.last() is Sleep {
            doings(actions).push(attempt(searches.last().retry as int))
        } else {
            doings(actions)
        },
{
    assert(is_step(searches[0], events[0], searches[1], actions[0]));
    lemma_attempts_make_history(retry, searches, events, actions);
}

/// A search never asks for more than `retry` downloads.
pub proof fn lemma_search_is_bounded(
    retry: int,
    searches: Seq<Fetch>,
    events: Seq<FetchEvent>,
    actions: Seq<FetchAction>,
)
    requires
        is_search(retry, searches, events, actions),
    ensures
        times(doings(actions), Doing::Download) <= retry,
{
    let done = doings(actions);
    let ahead = attempt(searches.last().retry as int);
    lemma_search_makes_history(retry, searches, events, actions);
    lemma_downloads_are_bounded(retry, outcomes(events));
    lemma_times_add(done, seq![ahead], Doing::Download);
    assert(done.push(ahead) =~= done + seq![ahead]);
}

/// A search begins with a download, where it may try one.
proof fn lemma_history_begins(retry: int, outcomes: Seq<Outcome>)
    requires
        retry >= 0,
    ensures
        history(retry, outcomes).len() > 0,
        history(retry, outcomes)[0] == attempt(retry),
{
}

/// A search ends with the first download that gives a picture, if that is one of
/// its first `retry`: none is tried after it, and there was one wait for each
/// download that failed before it.
pub proof fn lemma_first_picture_ends_search(retry: int, outcomes: Seq<Outcome>, first: int)
    requires
        0 <= first < retry,
        first < outcomes.len(),
        outcomes[first] is Picture,
        forall|i: int| 0 <= i < first ==> !(#[trigger] outcomes[i] is Picture),
    ensures
        history(retry, outcomes).last() == Doing::Finish,
        times(history(retry, outcomes), Doing::Finish) == 1,
        times(history(retry, outcomes), Doing::GiveUp) == 0,
        times(history(retry, outcomes), Doing::Download) == first + 1,
        times(history(retry, outcomes), Doing::Sleep) == failures(outcomes.take(first)),
    decreases first,
{
    if first == 0 {
        let all = history(retry, outcomes);
        assert(all =~= seq![Doing::Download, Doing::Finish]);
        reveal_with_fuel(times, 3);
        assert(all.drop_first() =~= seq![Doing::Finish]);
        assert(all.drop_first().drop_first() =~= seq![]);
    } else {
        let rest = outcomes.drop_first();
        assert(!(outcomes[0] is Picture));
        assert forall|i: int| 0 <= i < first - 1 implies !(#[trigger] rest[i] is Picture) by {
            assert(!(outcomes[i + 1] is Picture));
        }
        lemma_first_picture_ends_search(retry - 1, rest, first - 1);
        lemma_step(retry, outcomes);
        assert(outcomes.take(first).drop_first() =~= rest.take(first - 1));
        assert(outcomes.take(first)[0] == outcomes[0]);
    }
}

/// A search gives up after `retry` downloads, if none of them gives a picture. There
/// was one wait for each that failed, the last one included.
pub proof fn lemma_search_gives_up(retry: int, outcomes: Seq<Outcome>)
    requires
        0 <= retry <= outcomes.len(),
        forall|i: int| 0 <= i < retry ==> !(#[trigger] outcomes[i] is Picture),
    ensures
        history(retry, outcomes).last() == Doing::GiveUp,
        times(history(retry, outcomes), Doing::GiveUp) == 1,
        times(history(retry, outcomes), Doing::Finish) == 0,
        times(history(retry, outcomes), Doing::Download) == retry,
        times(history(retry, outcomes), Doing::Sleep) == failures(outcomes.take(retry)),
    decreases retry,
{
    if retry == 0 {
        let all = history(retry, outcomes);
        assert(all =~= seq![Doing::GiveUp]);
        reveal_with_fuel(times, 2);
        assert(all.drop_first() =~= seq![]);
    } else {
        let rest = outcomes.drop_first();
        assert(!(outcomes[0] is Picture));
        assert forall|i: int| 0 <= i < retry - 1 implies !(#[trigger] rest[i] is Picture) by {
            assert(!(outcomes[i + 1] is Picture));
        }
        lemma_search_gives_up(retry - 1, rest);
        lemma_step(retry, outcomes);
        assert(outcomes.take(retry).drop_first() =~= rest.take(retry - 1));
        assert(outcomes.take(retry)[0] == outcomes[0]);
    }
}

/// No search tries more than `retry` downloads, whatever they come to.
pub proof fn lemma_downloads_are_bounded(retry: int, outcomes: Seq<Outcome>)
    requires
        retry >= 0,
    ensures
        times(history(retry, outcomes), Doing::Download) <= retry,
    decreases retry,
{
    reveal_with_fuel(times, 3);
    let all = history(retry, outcomes);
    if retry == 0 {
        assert(all.drop_first() =~= seq![]);
    } else if outcomes.len() == 0 {
        assert(all.drop_first() =~= seq![]);
    } else if outcomes[0] is Picture {
        assert(all =~= seq![Doing::Download, Doing::Finish]);
        assert(all.drop_first() =~= seq![Doing::Finish]);
        assert(all.drop_first().drop_first() =~= seq![]);
    } else {
        lemma_downloads_are_bounded(retry - 1, outcomes.drop_first());
        lemma_step(retry, outcomes);
    }
}

} // verus!
