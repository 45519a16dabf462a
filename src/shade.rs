//! Control of the recursive radiance estimate, as a loop: each traced ray
//! either misses the scene, is absorbed, or scatters into a new ray, and no
//! more than the given number of rays is traced for one sample.

use vstd::prelude::*;

verus! {

/// What became of a traced ray.
#[derive(Clone, Copy, Debug, PartialEq, Eq, Structural)]
pub enum Bounce {
    /// It met nothing: the background colours it.
    Missed,
    /// It met a surface that absorbed it.
    Absorbed,
    /// It met a surface that sent it on, attenuated.
    Scattered,
}

/// How the light of a path is found.
#[derive(Clone, Copy, Debug, PartialEq, Eq, Structural)]
pub enum PathEnd {
    /// The background gradient, times the attenuation gathered on the way.
    Sky,
    /// No light: black.
    Dark,
}

/// What the shading loop does next.
#[derive(Clone, Copy, Debug, PartialEq, Eq, Structural)]
pub enum Step {
    /// Trace the current ray against the scene.
    Trace,
    /// Stop, with the path ended as given.
    Finish(PathEnd),
}

/// The step taken with `depth` rays left to trace.
pub open spec fn step_at(depth: nat) -> Step {
    if depth == 0 {
        Step::Finish(PathEnd::Dark)
    } else {
        Step::Trace
    }
}

/// The first step of a sample that may trace `depth` rays.
pub fn begin(depth: u64) -> (r: Step)
    ensures
        r == step_at(depth as nat),
        depth == 0 ==> r == Step::Finish(PathEnd::Dark),
{
    if depth == 0 {
        Step::Finish(PathEnd::Dark)
    } else {
        Step::Trace
    }
}

/// The step after a ray traced with `depth` rays left came out as `b`, and the
/// number of rays then left.
pub fn advance(depth: u64, b: Bounce) -> (r: (Step, u64))
    requires
        depth > 0,
    ensures
        r == match b {
            Bounce::Missed => (Step::Finish(PathEnd::Sky), depth),
            Bounce::Absorbed => (Step::Finish(PathEnd::Dark), depth),
            Bounce::Scattered => (step_at((depth - 1) as nat), (depth - 1) as u64),
        },
{
    match b {
        Bounce::Missed => (Step::Finish(PathEnd::Sky), depth),
        Bounce::Absorbed => (Step::Finish(PathEnd::Dark), depth),
        Bounce::Scattered => (begin(depth - 1), depth - 1),
    }
}

/// The end of a path that starts with `depth` rays left, when the traced rays
/// come out as `bounces` in turn, with the number of rays traced; `None` if
/// `bounces` runs out before the path ends.
pub open spec fn run(depth: nat, bounces: Seq<Bounce>) -> Option<(PathEnd, nat)>
    decreases bounces.len(),
{
    if depth == 0 {
        Some((PathEnd::Dark, 0))
    } else if bounces.len() == 0 {
        None
    } else {
        match bounces[0] {
            Bounce::Missed => Some((PathEnd::Sky, 1)),
            Bounce::Absorbed => Some((PathEnd::Dark, 1)),
            Bounce::Scattered => match run((depth - 1) as nat, bounces.drop_first()) {
                Some((e, n)) => Some((e, n + 1)),
                None => None,
            },
        }
    }
}

/// A path traces at most `depth` rays; every ray but the last scattered; it
/// ends in the sky only when its last ray missed, and with no ray left to
/// trace it is dark whatever the scene does.
pub proof fn lemma_path_bounded(depth: nat, bounces: Seq<Bounce>)
    ensures
        bounces.len() >= depth ==> run(depth, bounces) is Some,
        run(depth, bounces) is Some ==> {
            let (e, n) = run(depth, bounces)->0;
            &&& n <= depth
            &&& n <= bounces.len()
            &&& forall|j: int| 0 <= j < n - 1 ==> bounces[j] == Bounce::Scattered
            &&& (e == PathEnd::Sky <==> n > 0 && bounces[n - 1] == Bounce::Missed)
        },
        depth == 0 ==> run(depth, bounces) == Some((PathEnd::Dark, 0nat)),
    decreases bounces.len(),
{
    if depth > 0 && bounces.len() > 0 && bounces[0] == Bounce::Scattered {
        let rest = bounces.drop_first();
        lemma_path_bounded((depth - 1) as nat, rest);
        if run((depth - 1) as nat, rest) is Some {
            let (e, n) = run((depth - 1) as nat, rest)->0;
            assert forall|j: int| 0 <= j < n implies bounces[j] == Bounce::Scattered by {
                if j > 0 {
                    assert(bounces[j] == rest[j - 1]);
                }
            }
            if n > 0 {
                assert(bounces[n as int] == rest[n - 1]);
            }
        }
    }
}

} // verus!
