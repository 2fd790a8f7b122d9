//! The cache-population race, made precise.
//!
//! Populating a room's cache is an existence check followed by one push per
//! durable row; the check and the pushes are individually atomic but the
//! sequence is not.  Two readers that miss at the same time can therefore
//! interleave arbitrarily.  The model below runs two populations over one
//! initially absent key under an arbitrary schedule and bounds the damage:
//! the list never exceeds twice the durable history, and the most recent
//! durable message is never lost once both runs have finished.

use vstd::prelude::*;

use crate::models::Message;

verus! {

/// Where one population run stands.
pub enum RunState {
    /// Before its existence check.
    AtCheck,
    /// Pushing: the next row to push.
    Pushing(int),
    /// Finished because the check saw an existing list.
    Skipped,
    /// Finished after pushing every row.
    Completed,
}

/// The key's list and both runs.
pub struct RaceState {
    pub list: Seq<Message>,
    pub run1: RunState,
    pub run2: RunState,
}

/// The state both runs start from: the key absent, both before their check.
pub open spec fn race_start() -> RaceState {
    RaceState { list: Seq::empty(), run1: RunState::AtCheck, run2: RunState::AtCheck }
}

/// How many rows a run has pushed so far.
pub open spec fn pushed(r: RunState, hist: Seq<Message>) -> int {
    match r {
        RunState::AtCheck => 0,
        RunState::Pushing(i) => i,
        RunState::Skipped => 0,
        RunState::Completed => hist.len() as int,
    }
}

/// One atomic step of a single run: the existence check, one push, or the
/// transition to done.
pub open spec fn run_step(r: RunState, list: Seq<Message>, hist: Seq<Message>) -> (
    RunState,
    Seq<Message>,
) {
    match r {
        RunState::AtCheck => if list.len() > 0 {
            (RunState::Skipped, list)
        } else {
            (RunState::Pushing(0), list)
        },
        RunState::Pushing(i) => if i < hist.len() {
            (RunState::Pushing(i + 1), seq![hist[i]] + list)
        } else {
            (RunState::Completed, list)
        },
        RunState::Skipped => (RunState::Skipped, list),
        RunState::Completed => (RunState::Completed, list),
    }
}

/// One step of the race: the scheduled run moves.
pub open spec fn race_step(s: RaceState, first: bool, hist: Seq<Message>) -> RaceState {
    if first {
        let (r, l) = run_step(s.run1, s.list, hist);
        RaceState { list: l, run1: r, run2: s.run2 }
    } else {
        let (r, l) = run_step(s.run2, s.list, hist);
        RaceState { list: l, run1: s.run1, run2: r }
    }
}

/// The state after running a whole schedule; `true` schedules the first run.
pub open spec fn race_run(s: RaceState, sched: Seq<bool>, hist: Seq<Message>) -> RaceState
    decreases sched.len(),
{
    if sched.len() == 0 {
        s
    } else {
        race_run(race_step(s, sched[0], hist), sched.skip(1), hist)
    }
}

/// Whether a run has finished.
pub open spec fn run_done(r: RunState) -> bool {
    r is Skipped || r is Completed
}

/// What every reachable state of the race satisfies.
pub open spec fn race_inv(s: RaceState, hist: Seq<Message>) -> bool {
    &&& s.list.len() == pushed(s.run1, hist) + pushed(s.run2, hist)
    &&& (s.run1 matches RunState::Pushing(i) ==> 0 <= i <= hist.len())
    &&& (s.run2 matches RunState::Pushing(i) ==> 0 <= i <= hist.len())
    &&& (s.run1 is Skipped ==> s.list.len() > 0)
    &&& (s.run2 is Skipped ==> s.list.len() > 0)
    &&& ((pushed(s.run1, hist) == hist.len() || pushed(s.run2, hist) == hist.len()) && hist.len()
        > 0 ==> s.list.contains(hist.last()))
}

/// One step preserves the invariant.
proof fn lemma_race_step(s: RaceState, first: bool, hist: Seq<Message>)
    requires
        race_inv(s, hist),
    ensures
        race_inv(race_step(s, first, hist), hist),
{
    let post = race_step(s, first, hist);
    let r = if first {
        s.run1
    } else {
        s.run2
    };
    match r {
        RunState::Pushing(i) => {
            if i < hist.len() {
                assert(post.list == seq![hist[i]] + s.list);
                assert(post.list.len() == s.list.len() + 1);
                if hist.len() > 0 {
                    if s.list.contains(hist.last()) {
                        let j = choose|j: int| 0 <= j < s.list.len() && s.list[j] == hist.last();
                        assert(post.list[j + 1] == hist.last());
                        assert(post.list.contains(hist.last()));
                    }
                    if i + 1 == hist.len() {
                        assert(post.list[0] == hist.last());
                        assert(post.list.contains(hist.last()));
                    }
                }
            }
        },
        _ => {},
    }
}

/// The whole schedule preserves the invariant.
proof fn lemma_race_run(s: RaceState, sched: Seq<bool>, hist: Seq<Message>)
    requires
        race_inv(s, hist),
    ensures
        race_inv(race_run(s, sched, hist), hist),
    decreases sched.len(),
{
    if sched.len() > 0 {
        lemma_race_step(s, sched[0], hist);
        lemma_race_run(race_step(s, sched[0], hist), sched.skip(1), hist);
    }
}

/// Two populations racing on an initially empty cache, under any
/// interleaving, never leave more than twice the durable history in the
/// list; and once both runs have finished, the most recent durable message
/// is in the list.
pub proof fn lemma_population_race(sched: Seq<bool>, hist: Seq<Message>)
    ensures
        ({
            let end = race_run(race_start(), sched, hist);
            &&& end.list.len() <= 2 * hist.len()
            &&& (run_done(end.run1) && run_done(end.run2) && hist.len() > 0 ==> end.list.contains(
                hist.last(),
            ))
        }),
{
    lemma_race_run(race_start(), sched, hist);
    let end = race_run(race_start(), sched, hist);
    assert(pushed(end.run1, hist) <= hist.len());
    assert(pushed(end.run2, hist) <= hist.len());
    if run_done(end.run1) && run_done(end.run2) && hist.len() > 0 {
        if end.run1 is Skipped && end.run2 is Skipped {
            assert(end.list.len() == 0);
            assert(false);
        }
    }
}

} // verus!
