//! Making something once though many ask for it at the same time: a cache is
//! looked into, and who misses waits for the lock of the thing and looks again
//! before making it.

use vstd::prelude::*;

verus! {

/// How far a request has come.
#[derive(Debug, Clone, Copy, PartialEq, Eq, Structural)]
pub enum FetchState {
    /// Nothing has been done.
    Start,
    /// The cache is looked into for the first time.
    FirstLook,
    /// The lock is waited for.
    Waiting,
    /// The cache is looked into with the lock held.
    SecondLook,
    /// The thing is made; it is kept if there is a cache.
    Making { cached: bool },
    /// What was made is put into the cache.
    Keeping,
    /// The request is answered or has failed.
    Done,
}

/// What has happened.
#[derive(Debug, Clone, Copy, PartialEq, Eq, Structural)]
pub enum FetchEvent {
    /// The request came in; there is a cache or there is none.
    Asked { cached: bool },
    /// The cache had the thing or had it not.
    Looked { hit: bool },
    /// The lock is held.
    Locked,
    /// The thing was made or could not be made.
    Made { ok: bool },
    /// The cache holds the thing.
    Kept,
}

/// What is to be done.
#[derive(Debug, Clone, Copy, PartialEq, Eq, Structural)]
pub enum FetchAction {
    Look,
    Lock,
    Make,
    Keep,
    /// Answer with what is at hand.
    Answer,
    /// Answer with the failure.
    Fail,
}

/// The next state and what is to be done; none where the event does not belong
/// to the state.
pub open spec fn next(s: FetchState, e: FetchEvent) -> Option<(FetchState, FetchAction)> {
    match (s, e) {
        (FetchState::Start, FetchEvent::Asked { cached: true }) => Some(
            (FetchState::FirstLook, FetchAction::Look),
        ),
        (FetchState::Start, FetchEvent::Asked { cached: false }) => Some(
            (FetchState::Making { cached: false }, FetchAction::Make),
        ),
        (FetchState::FirstLook, FetchEvent::Looked { hit: true }) => Some(
            (FetchState::Done, FetchAction::Answer),
        ),
        (FetchState::FirstLook, FetchEvent::Looked { hit: false }) => Some(
            (FetchState::Waiting, FetchAction::Lock),
        ),
        (FetchState::Waiting, FetchEvent::Locked) => Some(
            (FetchState::SecondLook, FetchAction::Look),
        ),
        (FetchState::SecondLook, FetchEvent::Looked { hit: true }) => Some(
            (FetchState::Done, FetchAction::Answer),
        ),
        (FetchState::SecondLook, FetchEvent::Looked { hit: false }) => Some(
            (FetchState::Making { cached: true }, FetchAction::Make),
        ),
        (FetchState::Making { cached: true }, FetchEvent::Made { ok: true }) => Some(
            (FetchState::Keeping, FetchAction::Keep),
        ),
        (FetchState::Making { cached: false }, FetchEvent::Made { ok: true }) => Some(
            (FetchState::Done, FetchAction::Answer),
        ),
        (FetchState::Making { cached: _ }, FetchEvent::Made { ok: false }) => Some(
            (FetchState::Done, FetchAction::Fail),
        ),
        (FetchState::Keeping, FetchEvent::Kept) => Some((FetchState::Done, FetchAction::Answer)),
        _ => None,
    }
}

/// Takes an event.
pub fn fetch_step(s: FetchState, e: FetchEvent) -> (r: Option<(FetchState, FetchAction)>)
    ensures
        r == next(s, e),
{
    match (s, e) {
        (FetchState::Start, FetchEvent::Asked { cached }) => if cached {
            Some((FetchState::FirstLook, FetchAction::Look))
        } else {
            Some((FetchState::Making { cached: false }, FetchAction::Make))
        },
        (FetchState::FirstLook, FetchEvent::Looked { hit }) => if hit {
            Some((FetchState::Done, FetchAction::Answer))
        } else {
            Some((FetchState::Waiting, FetchAction::Lock))
        },
        (FetchState::Waiting, FetchEvent::Locked) => Some(
            (FetchState::SecondLook, FetchAction::Look),
        ),
        (FetchState::SecondLook, FetchEvent::Looked { hit }) => if hit {
            Some((FetchState::Done, FetchAction::Answer))
        } else {
            Some((FetchState::Making { cached: true }, FetchAction::Make))
        },
        (FetchState::Making { cached }, FetchEvent::Made { ok }) => if !ok {
            Some((FetchState::Done, FetchAction::Fail))
        } else if cached {
            Some((FetchState::Keeping, FetchAction::Keep))
        } else {
            Some((FetchState::Done, FetchAction::Answer))
        },
        (FetchState::Keeping, FetchEvent::Kept) => Some((FetchState::Done, FetchAction::Answer)),
        _ => None,
    }
}

/// The state after these events; none where one of them did not belong.
pub open spec fn after(events: Seq<FetchEvent>) -> Option<FetchState>
    decreases events.len(),
{
    if events.len() == 0 {
        Some(FetchState::Start)
    } else {
        match after(events.drop_last()) {
            Some(s) => match next(s, events.last()) {
                Some((t, _)) => Some(t),
                None => None,
            },
            None => None,
        }
    }
}

/// With a cache, nothing is made but by who missed it, took the lock, and missed
/// it again with the lock held.
pub proof fn law_nothing_is_made_twice(events: Seq<FetchEvent>)
    requires
        after(events) == Some(FetchState::Making { cached: true }),
    ensures
        events == seq![
            FetchEvent::Asked { cached: true },
            FetchEvent::Looked { hit: false },
            FetchEvent::Locked,
            FetchEvent::Looked { hit: false },
        ],
{
    let e3 = events.drop_last();
    assert(after(e3) == Some(FetchState::SecondLook));
    let e2 = e3.drop_last();
    assert(after(e2) == Some(FetchState::Waiting));
    let e1 = e2.drop_last();
    assert(after(e1) == Some(FetchState::FirstLook));
    let e0 = e1.drop_last();
    assert(after(e0) == Some(FetchState::Start));
    if e0.len() > 0 {
        assert(after(e0.drop_last()) is Some);
    }
    assert(events =~= seq![
        FetchEvent::Asked { cached: true },
        FetchEvent::Looked { hit: false },
        FetchEvent::Locked,
        FetchEvent::Looked { hit: false },
    ]);
}

/// A request ends: it takes six events at most.
pub proof fn law_requests_end(events: Seq<FetchEvent>)
    requires
        after(events) is Some,
    ensures
        events.len() <= 6,
        after(events) == Some(FetchState::Start) <==> events.len() == 0,
{
    if events.len() > 0 {
        lemma_progress(events);
    }
}

/// How far along a state is.
spec fn distance(s: FetchState) -> int {
    match s {
        FetchState::Start => 0,
        FetchState::FirstLook => 1,
        FetchState::Waiting => 2,
        FetchState::SecondLook => 3,
        FetchState::Making { cached: _ } => 4,
        FetchState::Keeping => 5,
        FetchState::Done => 6,
    }
}

proof fn lemma_progress(events: Seq<FetchEvent>)
    requires
        after(events) is Some,
    ensures
        events.len() <= distance(after(events)->0),
        events.len() > 0 ==> after(events)->0 != FetchState::Start,
    decreases events.len(),
{
    if events.len() > 0 {
        lemma_progress(events.drop_last());
    }
}

} // verus!
