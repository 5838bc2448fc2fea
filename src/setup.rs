//! The setup sequence of one skeleton instance: the graph is built once the
//! skeleton is ready, then unclaimed targets are pruned, then playback
//! starts. Each step is an action for the host to perform; the host reports
//! back with an event.
use vstd::prelude::*;

verus! {

/// How far the setup of an instance has come.
#[derive(Clone, Copy, Debug, PartialEq, Eq, Structural)]
pub enum SetupPhase {
    Unloaded,
    SkeletonReady,
    GraphBuilt,
    Pruned,
    Playing,
}

/// What the host observed.
#[derive(Clone, Copy, Debug, PartialEq, Eq, Structural)]
pub enum SetupEvent {
    /// The skeleton and its animation player exist; may be signalled again.
    SkeletonReady,
    /// The built graph is attached to the player.
    GraphAttached,
    /// The pruning pass has run.
    TargetsPruned,
    /// Every clip leaf is playing, looped.
    PlaybackStarted,
}

/// What the host is asked to do next.
#[derive(Clone, Copy, Debug, PartialEq, Eq, Structural)]
pub enum SetupAction {
    /// Build the blend graph and attach it to the player.
    BuildGraph,
    /// Run the target pruning pass.
    PruneTargets,
    /// Play every clip leaf, looped, from time zero.
    StartPlayback,
    Nothing,
}

/// The transition on `event` in `phase`: the next phase and the action. An
/// event that does not move the sequence on (such as a repeated
/// `SkeletonReady`) changes nothing and asks for nothing.
pub open spec fn next(phase: SetupPhase, event: SetupEvent) -> (SetupPhase, SetupAction) {
    match (phase, event) {
        (SetupPhase::Unloaded, SetupEvent::SkeletonReady) => (
            SetupPhase::SkeletonReady,
            SetupAction::BuildGraph,
        ),
        (SetupPhase::SkeletonReady, SetupEvent::GraphAttached) => (
            SetupPhase::GraphBuilt,
            SetupAction::PruneTargets,
        ),
        (SetupPhase::GraphBuilt, SetupEvent::TargetsPruned) => (
            SetupPhase::Pruned,
            SetupAction::StartPlayback,
        ),
        (SetupPhase::Pruned, SetupEvent::PlaybackStarted) => (
            SetupPhase::Playing,
            SetupAction::Nothing,
        ),
        _ => (phase, SetupAction::Nothing),
    }
}

/// Moves the setup of an instance on by one event.
pub fn step(phase: SetupPhase, event: SetupEvent) -> (r: (SetupPhase, SetupAction))
    ensures
        r == next(phase, event),
{
    match (phase, event) {
        (SetupPhase::Unloaded, SetupEvent::SkeletonReady) => (
            SetupPhase::SkeletonReady,
            SetupAction::BuildGraph,
        ),
        (SetupPhase::SkeletonReady, SetupEvent::GraphAttached) => (
            SetupPhase::GraphBuilt,
            SetupAction::PruneTargets,
        ),
        (SetupPhase::GraphBuilt, SetupEvent::TargetsPruned) => (
            SetupPhase::Pruned,
            SetupAction::StartPlayback,
        ),
        (SetupPhase::Pruned, SetupEvent::PlaybackStarted) => (
            SetupPhase::Playing,
            SetupAction::Nothing,
        ),
        _ => (phase, SetupAction::Nothing),
    }
}

/// How many graphs are built when `events` arrive in turn, from `phase`.
pub open spec fn graphs_built(phase: SetupPhase, events: Seq<SetupEvent>) -> nat
    decreases events.len(),
{
    if events.len() == 0 {
        0
    } else {
        let (p, a) = next(phase, events[0]);
        (if a == SetupAction::BuildGraph {
            1nat
        } else {
            0nat
        }) + graphs_built(p, events.drop_first())
    }
}

/// Once past `Unloaded`, no event builds a graph.
proof fn lemma_no_rebuild(phase: SetupPhase, events: Seq<SetupEvent>)
    requires
        phase != SetupPhase::Unloaded,
    ensures
        graphs_built(phase, events) == 0,
    decreases events.len(),
{
    if events.len() > 0 {
        lemma_no_rebuild(next(phase, events[0]).0, events.drop_first());
    }
}

/// Single construction: whatever events an instance sees, however often the
/// skeleton is signalled ready, at most one graph is built, and exactly one
/// once it has been signalled ready at least once.
pub proof fn lemma_single_construction(events: Seq<SetupEvent>)
    ensures
        graphs_built(SetupPhase::Unloaded, events) <= 1,
        events.contains(SetupEvent::SkeletonReady) ==> graphs_built(SetupPhase::Unloaded, events)
            == 1,
        !events.contains(SetupEvent::SkeletonReady) ==> graphs_built(SetupPhase::Unloaded, events)
            == 0,
    decreases events.len(),
{
    if events.len() > 0 {
        let rest = events.drop_first();
        if events[0] == SetupEvent::SkeletonReady {
            lemma_no_rebuild(SetupPhase::SkeletonReady, rest);
            assert(events.contains(SetupEvent::SkeletonReady)) by {
                assert(events[0] == SetupEvent::SkeletonReady);
            }
        } else {
            lemma_single_construction(rest);
            assert(events.contains(SetupEvent::SkeletonReady) <==> rest.contains(
                SetupEvent::SkeletonReady,
            )) by {
                if events.contains(SetupEvent::SkeletonReady) {
                    let w = choose|w: int|
                        0 <= w < events.len() && events[w] == SetupEvent::SkeletonReady;
                    assert(rest[w - 1] == SetupEvent::SkeletonReady);
                }
                if rest.contains(SetupEvent::SkeletonReady) {
                    let w = choose|w: int| 0 <= w < rest.len() && rest[w] == SetupEvent::SkeletonReady;
                    assert(events[w + 1] == SetupEvent::SkeletonReady);
                }
            }
        }
    }
}

} // verus!
