//! The decisions of the bounce loop that gives a camera ray its color.
//!
//! A path starts with a budget of bounces. Each time the active ray is traced
//! through the scene, one of three things happens: it misses everything and
//! sees the sky, it hits a surface that absorbs it, or it hits a surface that
//! scatters it into a new ray with an attenuation. The path ends on the first
//! miss (lit by the sky), on the first absorption (black), or when the budget
//! is spent (black). The color is then the product of the attenuations of the
//! scatters, applied to the ending's color.
use vstd::prelude::*;

verus! {

/// What tracing the active ray through the scene led to.
#[derive(Clone, Copy, Debug, PartialEq, Eq, Structural)]
pub enum Event {
    /// The ray hit nothing.
    Missed,
    /// The ray hit a surface whose material did not scatter it.
    Absorbed,
    /// The ray hit a surface whose material scattered it into a new ray.
    Scattered,
}

/// How a path ends.
#[derive(Clone, Copy, Debug, PartialEq, Eq, Structural)]
pub enum Ending {
    /// The last ray missed the scene: the sky gradient lights the path.
    Sky,
    /// The path was absorbed or ran out of bounces: no light.
    Black,
}

/// A light path in progress.
#[derive(Clone, Copy, Debug, PartialEq, Eq, Structural)]
pub struct Path {
    /// How many more rays may be traced.
    pub remaining: u32,
    /// How many scatters have happened, that is, how many attenuations the
    /// path's color is the product of.
    pub bounces: u32,
    /// `None` while the active ray still has to be traced.
    pub ending: Option<Ending>,
}

/// A path that may still be traced has budget left, and the bounces so far
/// plus the budget left never exceed the starting budget.
pub open spec fn wf(p: Path) -> bool {
    &&& p.ending is None ==> p.remaining > 0
    &&& p.bounces as int + p.remaining as int <= u32::MAX as int
}

/// A path with a budget of `max_depth` rays; with no budget it is black at once.
pub open spec fn start(max_depth: u32) -> Path {
    Path {
        remaining: max_depth,
        bounces: 0,
        ending: if max_depth == 0 {
            Some(Ending::Black)
        } else {
            None
        },
    }
}

/// The path after its active ray led to `e`.
pub open spec fn step(p: Path, e: Event) -> Path {
    match e {
        Event::Missed => Path { ending: Some(Ending::Sky), ..p },
        Event::Absorbed => Path { ending: Some(Ending::Black), ..p },
        Event::Scattered => Path {
            remaining: (p.remaining - 1) as u32,
            bounces: (p.bounces + 1) as u32,
            ending: if p.remaining == 1 {
                Some(Ending::Black)
            } else {
                None
            },
        },
    }
}

impl Path {
    /// Starts a path with a budget of `max_depth` traced rays.
    pub fn new(max_depth: u32) -> (r: Path)
        ensures
            r == start(max_depth),
            wf(r),
    {
        Path {
            remaining: max_depth,
            bounces: 0,
            ending: if max_depth == 0 {
                Some(Ending::Black)
            } else {
                None
            },
        }
    }

    /// Records what tracing the active ray led to.
    pub fn record(&mut self, e: Event)
        requires
            wf(*old(self)),
            old(self).ending is None,
        ensures
            *final(self) == step(*old(self), e),
            wf(*final(self)),
    {
        match e {
            Event::Missed => {
                self.ending = Some(Ending::Sky);
            },
            Event::Absorbed => {
                self.ending = Some(Ending::Black);
            },
            Event::Scattered => {
                self.remaining = self.remaining - 1;
                self.bounces = self.bounces + 1;
                if self.remaining == 0 {
                    self.ending = Some(Ending::Black);
                }
            },
        }
    }
}

/// The recursive formulation: a ray traced with a budget of `depth` rays,
/// where `events[k]` is what the `k`-th traced ray of the path led to. Gives
/// the number of attenuations applied and the ending whose color they scale.
pub open spec fn traced(depth: nat, events: Seq<Event>) -> (nat, Ending)
    decreases depth,
{
    if depth == 0 || events.len() == 0 {
        (0, Ending::Black)
    } else {
        match events[0] {
            Event::Missed => (0, Ending::Sky),
            Event::Absorbed => (0, Ending::Black),
            Event::Scattered => {
                let rest = traced((depth - 1) as nat, events.drop_first());
                (rest.0 + 1, rest.1)
            },
        }
    }
}

/// The loop: records `events` one after another until the path ends.
pub open spec fn run(p: Path, events: Seq<Event>) -> Path
    decreases events.len(),
{
    if p.ending is Some || events.len() == 0 {
        p
    } else {
        run(step(p, events[0]), events.drop_first())
    }
}

proof fn lemma_run_from(p: Path, events: Seq<Event>)
    requires
        wf(p),
        p.ending is None,
        events.len() >= p.remaining,
    ensures
        run(p, events).ending == Some(traced(p.remaining as nat, events).1),
        run(p, events).bounces == p.bounces + traced(p.remaining as nat, events).0,
    decreases events.len(),
{
    let q = step(p, events[0]);
    let rest = events.drop_first();
    assert(run(p, events) == run(q, rest));
    if events[0] == Event::Scattered {
        if p.remaining > 1 {
            lemma_run_from(q, rest);
        } else {
            assert(traced(0, rest) == (0nat, Ending::Black));
        }
    }
}

/// The loop ends every path as the recursive formulation does, after the same
/// number of scatters, given enough events for the budget.
pub proof fn lemma_loop_matches_recursion(max_depth: u32, events: Seq<Event>)
    requires
        events.len() >= max_depth,
    ensures
        run(start(max_depth), events).ending == Some(traced(max_depth as nat, events).1),
        run(start(max_depth), events).bounces == traced(max_depth as nat, events).0,
{
    if max_depth > 0 {
        lemma_run_from(start(max_depth), events);
    }
}

/// A path scatters at most as many times as its budget allows.
pub proof fn lemma_bounces_bounded(max_depth: u32, events: Seq<Event>)
    ensures
        run(start(max_depth), events).bounces <= max_depth,
{
    lemma_run_bounded(start(max_depth), events);
}

proof fn lemma_run_bounded(p: Path, events: Seq<Event>)
    requires
        wf(p),
    ensures
        wf(run(p, events)),
        run(p, events).bounces + run(p, events).remaining == p.bounces + p.remaining,
    decreases events.len(),
{
    if p.ending is None && events.len() > 0 {
        lemma_run_bounded(step(p, events[0]), events.drop_first());
    }
}

} // verus!
