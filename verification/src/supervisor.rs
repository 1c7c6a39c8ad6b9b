//! The supervisor of the one child process: its startup as a machine.
//!
//! The supervisor decides; the caller probes the file system, writes the
//! configuration artifact, spawns the process and starts the relays, and
//! tells the supervisor how each went. The child is launched once: there is
//! no restart.
use crate::path::{child, names_view};
use vstd::prelude::*;

verus! {

/// What was missing when a startup precondition failed.
#[derive(Clone, Copy, Debug, PartialEq, Eq, Structural)]
pub enum Missing {
    /// The executable of the child.
    Executable,
    /// The directory of the scripts that the child loads.
    Resources,
}

/// Why the supervisor stopped.
#[derive(Clone, Copy, Debug, PartialEq, Eq, Structural)]
pub enum StopReason {
    /// The executable or the script directory does not exist.
    PreconditionFailed(Missing),
    /// The configuration artifact could not be written.
    ArtifactWriteFailed,
    /// The process could not be spawned.
    ProcessSpawnFailed,
    /// The process runs, but its input or output pipe could not be had.
    StreamUnavailable,
}

/// The operation that a starting supervisor waits for.
#[derive(Clone, Copy, Debug, PartialEq, Eq, Structural)]
pub enum StartupStep {
    ProbeExecutable,
    ProbeResources,
    WriteArtifact,
    Spawn,
}

/// The state of the supervisor.
#[derive(Clone, Copy, Debug, PartialEq, Eq, Structural)]
pub enum SupervisorState {
    NotStarted,
    Starting(StartupStep),
    Running,
    Stopped(StopReason),
}

/// How a spawn went.
#[derive(Clone, Copy, Debug, PartialEq, Eq, Structural)]
pub enum SpawnOutcome {
    /// The process runs and both pipes are at hand.
    Spawned,
    /// The process could not be spawned.
    Failed,
    /// The process runs, but a pipe is missing.
    NoStreams,
}

/// What the supervisor is told.
#[derive(Clone, Copy, Debug, PartialEq, Eq, Structural)]
pub enum SupervisorEvent {
    /// The hosting service asks for the child.
    Start,
    /// Whether the probed path exists.
    Found(bool),
    /// Whether the configuration artifact was written.
    ArtifactWritten(bool),
    /// How the spawn went.
    Spawn(SpawnOutcome),
}

/// What the caller is to do next.
#[derive(Clone, Copy, Debug, PartialEq, Eq, Structural)]
pub enum SupervisorAction {
    /// Tell whether the executable exists.
    ProbeExecutable,
    /// Tell whether the script directory exists.
    ProbeResources,
    /// Write the configuration artifact into the script directory.
    WriteArtifact,
    /// Spawn the executable with its input and output piped.
    Spawn,
    /// Start the input relay and the output relay.
    StartRelays,
    /// Log why the supervisor stopped; the hosting service goes on.
    Report(StopReason),
    /// Nothing: the event does not concern the supervisor in this state.
    Idle,
}

/// The supervisor stops for `reason` and has it reported.
pub open spec fn stop(reason: StopReason) -> (SupervisorState, SupervisorAction) {
    (SupervisorState::Stopped(reason), SupervisorAction::Report(reason))
}

/// The state after `event` and the action it calls for.
///
/// The executable is probed first, then the script directory; then the
/// artifact is written, and only then the process is spawned. Each step that
/// fails stops the supervisor, and none after it is taken. An event that does not answer what the supervisor
/// waits for leaves it as it is.
pub open spec fn step_spec(state: SupervisorState, event: SupervisorEvent) -> (
    SupervisorState,
    SupervisorAction,
) {
    match (state, event) {
        (SupervisorState::NotStarted, SupervisorEvent::Start) => (
            SupervisorState::Starting(StartupStep::ProbeExecutable),
            SupervisorAction::ProbeExecutable,
        ),
        (
            SupervisorState::Starting(StartupStep::ProbeExecutable),
            SupervisorEvent::Found(found),
        ) => if found {
            (
                SupervisorState::Starting(StartupStep::ProbeResources),
                SupervisorAction::ProbeResources,
            )
        } else {
            stop(StopReason::PreconditionFailed(Missing::Executable))
        },
        (
            SupervisorState::Starting(StartupStep::ProbeResources),
            SupervisorEvent::Found(found),
        ) => if found {
            (
                SupervisorState::Starting(StartupStep::WriteArtifact),
                SupervisorAction::WriteArtifact,
            )
        } else {
            stop(StopReason::PreconditionFailed(Missing::Resources))
        },
        (
            SupervisorState::Starting(StartupStep::WriteArtifact),
            SupervisorEvent::ArtifactWritten(written),
        ) => if written {
            (SupervisorState::Starting(StartupStep::Spawn), SupervisorAction::Spawn)
        } else {
            stop(StopReason::ArtifactWriteFailed)
        },
        (SupervisorState::Starting(StartupStep::Spawn), SupervisorEvent::Spawn(outcome)) => match outcome {
            SpawnOutcome::Spawned => (SupervisorState::Running, SupervisorAction::StartRelays),
            SpawnOutcome::Failed => stop(StopReason::ProcessSpawnFailed),
            SpawnOutcome::NoStreams => stop(StopReason::StreamUnavailable),
        },
        _ => (state, SupervisorAction::Idle),
    }
}

/// Takes an event and decides what the caller is to do next.
pub fn step(state: SupervisorState, event: SupervisorEvent) -> (r: (
    SupervisorState,
    SupervisorAction,
))
    ensures
        r == step_spec(state, event),
{
    match (state, event) {
        (SupervisorState::NotStarted, SupervisorEvent::Start) => (
            SupervisorState::Starting(StartupStep::ProbeExecutable),
            SupervisorAction::ProbeExecutable,
        ),
        (
            SupervisorState::Starting(StartupStep::ProbeExecutable),
            SupervisorEvent::Found(true),
        ) => (
            SupervisorState::Starting(StartupStep::ProbeResources),
            SupervisorAction::ProbeResources,
        ),
        (
            SupervisorState::Starting(StartupStep::ProbeExecutable),
            SupervisorEvent::Found(false),
        ) => stopped(StopReason::PreconditionFailed(Missing::Executable)),
        (
            SupervisorState::Starting(StartupStep::ProbeResources),
            SupervisorEvent::Found(true),
        ) => (
            SupervisorState::Starting(StartupStep::WriteArtifact),
            SupervisorAction::WriteArtifact,
        ),
        (
            SupervisorState::Starting(StartupStep::ProbeResources),
            SupervisorEvent::Found(false),
        ) => stopped(StopReason::PreconditionFailed(Missing::Resources)),
        (
            SupervisorState::Starting(StartupStep::WriteArtifact),
            SupervisorEvent::ArtifactWritten(true),
        ) => (SupervisorState::Starting(StartupStep::Spawn), SupervisorAction::Spawn),
        (
            SupervisorState::Starting(StartupStep::WriteArtifact),
            SupervisorEvent::ArtifactWritten(false),
        ) => stopped(StopReason::ArtifactWriteFailed),
        (
            SupervisorState::Starting(StartupStep::Spawn),
            SupervisorEvent::Spawn(SpawnOutcome::Spawned),
        ) => (SupervisorState::Running, SupervisorAction::StartRelays),
        (
            SupervisorState::Starting(StartupStep::Spawn),
            SupervisorEvent::Spawn(SpawnOutcome::Failed),
        ) => stopped(StopReason::ProcessSpawnFailed),
        (
            SupervisorState::Starting(StartupStep::Spawn),
            SupervisorEvent::Spawn(SpawnOutcome::NoStreams),
        ) => stopped(StopReason::StreamUnavailable),
        (state, _) => (state, SupervisorAction::Idle),
    }
}

/// The supervisor stops for `reason` and has it reported.
fn stopped(reason: StopReason) -> (r: (SupervisorState, SupervisorAction))
    ensures
        r == stop(reason),
{
    (SupervisorState::Stopped(reason), SupervisorAction::Report(reason))
}

/// The state after `events`, in order, and the actions they called for.
pub open spec fn run(state: SupervisorState, events: Seq<SupervisorEvent>) -> (
    SupervisorState,
    Seq<SupervisorAction>,
)
    decreases events.len(),
{
    if events.len() == 0 {
        (state, Seq::empty())
    } else {
        let first = step_spec(state, events[0]);
        let rest = run(first.0, events.drop_first());
        (rest.0, seq![first.1] + rest.1)
    }
}

/// How often `action` stands in `actions`.
pub open spec fn count(actions: Seq<SupervisorAction>, action: SupervisorAction) -> nat
    decreases actions.len(),
{
    if actions.len() == 0 {
        0
    } else {
        count(actions.drop_first(), action) + if actions[0] == action {
            1nat
        } else {
            0nat
        }
    }
}

/// The path of the child's executable below the base directory `base`.
pub open spec fn executable_path_spec(base: Seq<Seq<char>>) -> Seq<Seq<char>> {
    base.push("bedrock_server.exe"@)
}

/// The path of the script directory below the base directory `base`.
pub open spec fn resource_dir_spec(base: Seq<Seq<char>>) -> Seq<Seq<char>> {
    base.push("behavior_packs"@).push("siriusu"@).push("scripts"@)
}

/// The path of the configuration artifact below the base directory `base`.
pub open spec fn artifact_path_spec(base: Seq<Seq<char>>) -> Seq<Seq<char>> {
    resource_dir_spec(base).push("config.js"@)
}

/// The path of the child's executable below the base directory `base`.
pub fn executable_path(base: &Vec<String>) -> (path: Vec<String>)
    ensures
        names_view(path@) == executable_path_spec(names_view(base@)),
{
    child(base, &"bedrock_server.exe".to_owned())
}

/// The path of the script directory below the base directory `base`.
pub fn resource_dir(base: &Vec<String>) -> (path: Vec<String>)
    ensures
        names_view(path@) == resource_dir_spec(names_view(base@)),
{
    let packs = child(base, &"behavior_packs".to_owned());
    let pack = child(&packs, &"siriusu".to_owned());
    child(&pack, &"scripts".to_owned())
}

/// The path of the configuration artifact below the base directory `base`.
pub fn artifact_path(base: &Vec<String>) -> (path: Vec<String>)
    ensures
        names_view(path@) == artifact_path_spec(names_view(base@)),
{
    child(&resource_dir(base), &"config.js".to_owned())
}

/// Every action of `actions` is `Idle`.
pub open spec fn all_idle(actions: Seq<SupervisorAction>) -> bool {
    forall|i: int| 0 <= i < actions.len() ==> #[trigger] actions[i] == SupervisorAction::Idle
}

/// Each step of the startup that fails stops the supervisor at once, for the
/// reason of that step, and has the reason reported.
pub proof fn law_failed_step_stops(state: SupervisorState, event: SupervisorEvent)
    ensures
        step_spec(state, event).1 is Report <==> step_spec(state, event).0 is Stopped && !(
        state is Stopped),
        step_spec(SupervisorState::Starting(StartupStep::ProbeExecutable), SupervisorEvent::Found(false))
            == stop(StopReason::PreconditionFailed(Missing::Executable)),
        step_spec(SupervisorState::Starting(StartupStep::ProbeResources), SupervisorEvent::Found(false))
            == stop(StopReason::PreconditionFailed(Missing::Resources)),
        step_spec(
            SupervisorState::Starting(StartupStep::WriteArtifact),
            SupervisorEvent::ArtifactWritten(false),
        ) == stop(StopReason::ArtifactWriteFailed),
        step_spec(
            SupervisorState::Starting(StartupStep::Spawn),
            SupervisorEvent::Spawn(SpawnOutcome::Failed),
        ) == stop(StopReason::ProcessSpawnFailed),
        step_spec(
            SupervisorState::Starting(StartupStep::Spawn),
            SupervisorEvent::Spawn(SpawnOutcome::NoStreams),
        ) == stop(StopReason::StreamUnavailable),
{
}

/// A stopped supervisor stays stopped and asks for nothing more.
pub proof fn law_stopped_is_final(reason: StopReason, events: Seq<SupervisorEvent>)
    ensures
        run(SupervisorState::Stopped(reason), events).0 == SupervisorState::Stopped(reason),
        all_idle(run(SupervisorState::Stopped(reason), events).1),
    decreases events.len(),
{
    if events.len() > 0 {
        law_stopped_is_final(reason, events.drop_first());
    }
}

/// A running supervisor stays running: the child is not launched again.
pub proof fn law_running_is_final(events: Seq<SupervisorEvent>)
    ensures
        run(SupervisorState::Running, events).0 == SupervisorState::Running,
        all_idle(run(SupervisorState::Running, events).1),
    decreases events.len(),
{
    if events.len() > 0 {
        law_running_is_final(events.drop_first());
    }
}

/// When the executable is absent, the supervisor stops for the failed
/// precondition and, whatever it is told afterwards, never asks for a spawn
/// or for the relays.
pub proof fn law_absent_executable_never_spawns(later: Seq<SupervisorEvent>)
    ensures
        run(
            SupervisorState::NotStarted,
            seq![SupervisorEvent::Start, SupervisorEvent::Found(false)] + later,
        ).0 == SupervisorState::Stopped(StopReason::PreconditionFailed(Missing::Executable)),
        !run(
            SupervisorState::NotStarted,
            seq![SupervisorEvent::Start, SupervisorEvent::Found(false)] + later,
        ).1.contains(SupervisorAction::Spawn),
        !run(
            SupervisorState::NotStarted,
            seq![SupervisorEvent::Start, SupervisorEvent::Found(false)] + later,
        ).1.contains(SupervisorAction::StartRelays),
        !run(
            SupervisorState::NotStarted,
            seq![SupervisorEvent::Start, SupervisorEvent::Found(false)] + later,
        ).1.contains(SupervisorAction::WriteArtifact),
{
    let events = seq![SupervisorEvent::Start, SupervisorEvent::Found(false)] + later;
    let reason = StopReason::PreconditionFailed(Missing::Executable);
    let after_start = events.drop_first();
    assert(events[0] == SupervisorEvent::Start);
    assert(after_start[0] == SupervisorEvent::Found(false));
    assert(after_start.drop_first() =~= later);
    law_stopped_is_final(reason, later);
    let tail = run(SupervisorState::Stopped(reason), later);
    assert(run(SupervisorState::Starting(StartupStep::ProbeExecutable), after_start) == (
        tail.0,
        seq![SupervisorAction::Report(reason)] + tail.1,
    ));
    let actions = seq![SupervisorAction::ProbeExecutable] + (seq![
        SupervisorAction::Report(reason),
    ] + tail.1);
    assert(run(SupervisorState::NotStarted, events) == (tail.0, actions));
    assert forall|i: int| 0 <= i < actions.len() implies actions[i] != SupervisorAction::Spawn
        && actions[i] != SupervisorAction::StartRelays && actions[i]
        != SupervisorAction::WriteArtifact by {
        if i >= 2 {
            assert(actions[i] == tail.1[i - 2]);
        }
    }
}

/// How far a state is along the startup: no step leads back.
pub open spec fn progress(state: SupervisorState) -> nat {
    match state {
        SupervisorState::NotStarted => 0,
        SupervisorState::Starting(StartupStep::ProbeExecutable) => 1,
        SupervisorState::Starting(StartupStep::ProbeResources) => 2,
        SupervisorState::Starting(StartupStep::WriteArtifact) => 3,
        SupervisorState::Starting(StartupStep::Spawn) => 4,
        SupervisorState::Running => 5,
        SupervisorState::Stopped(_) => 5,
    }
}

/// A spawn is asked for only by the step that follows the written artifact,
/// which itself follows both probes: no step leads back, and the spawn lies
/// on the one way from the artifact to the running child.
pub proof fn law_spawn_follows_preconditions(state: SupervisorState, event: SupervisorEvent)
    ensures
        progress(state) <= progress(step_spec(state, event).0),
        step_spec(state, event).1 == SupervisorAction::Spawn <==> state == SupervisorState::Starting(
            StartupStep::WriteArtifact,
        ) && event == SupervisorEvent::ArtifactWritten(true),
        step_spec(state, event).1 == SupervisorAction::Spawn ==> progress(state) < progress(
            step_spec(state, event).0,
        ),
        step_spec(state, event).1 == SupervisorAction::WriteArtifact <==> state
            == SupervisorState::Starting(StartupStep::ProbeResources) && event
            == SupervisorEvent::Found(true),
        step_spec(state, event).1 == SupervisorAction::ProbeResources <==> state
            == SupervisorState::Starting(StartupStep::ProbeExecutable) && event
            == SupervisorEvent::Found(true),
        step_spec(state, event).1 == SupervisorAction::StartRelays <==> state
            == SupervisorState::Starting(StartupStep::Spawn) && event == SupervisorEvent::Spawn(
            SpawnOutcome::Spawned,
        ),
{
}

/// In every run, from every state, a spawn is asked for at most once; from a
/// state past the artifact, never.
pub proof fn law_spawns_at_most_once(state: SupervisorState, events: Seq<SupervisorEvent>)
    ensures
        count(run(state, events).1, SupervisorAction::Spawn) <= 1,
        progress(state) >= 4 ==> count(run(state, events).1, SupervisorAction::Spawn) == 0,
    decreases events.len(),
{
    if events.len() > 0 {
        let first = step_spec(state, events[0]);
        let rest = run(first.0, events.drop_first());
        law_spawn_follows_preconditions(state, events[0]);
        law_spawns_at_most_once(first.0, events.drop_first());
        let actions = seq![first.1] + rest.1;
        assert(actions[0] == first.1);
        assert(actions.drop_first() =~= rest.1);
    }
}

/// The actions of a startup that succeeds, in their order.
pub open spec fn script() -> Seq<SupervisorAction> {
    seq![
        SupervisorAction::ProbeExecutable,
        SupervisorAction::ProbeResources,
        SupervisorAction::WriteArtifact,
        SupervisorAction::Spawn,
        SupervisorAction::StartRelays,
    ]
}

/// `actions` without those that are `Idle`.
pub open spec fn called_for(actions: Seq<SupervisorAction>) -> Seq<SupervisorAction>
    decreases actions.len(),
{
    if actions.len() == 0 {
        Seq::empty()
    } else if actions[0] == SupervisorAction::Idle {
        called_for(actions.drop_first())
    } else {
        seq![actions[0]] + called_for(actions.drop_first())
    }
}

/// A child runs only after the whole startup, in its order.
///
/// Whatever the supervisor is told, from whatever state that is not stopped:
/// where it comes to run, the actions it called for on the way are the rest
/// of the script and nothing else. From the start that is the whole script:
/// the executable is probed, then the script directory, then the artifact is
/// written, then the process is spawned, then the relays are started, each
/// once.
pub proof fn law_running_follows_the_script(state: SupervisorState, events: Seq<SupervisorEvent>)
    requires
        !(state is Stopped),
        run(state, events).0 == SupervisorState::Running,
    ensures
        called_for(run(state, events).1) == script().skip(progress(state) as int),
    decreases events.len(),
{
    if events.len() == 0 {
        assert(script().skip(5) =~= Seq::<SupervisorAction>::empty());
    } else {
        let first = step_spec(state, events[0]);
        let rest = run(first.0, events.drop_first());
        let actions = seq![first.1] + rest.1;
        if first.0 is Stopped {
            law_stopped_is_final(first.0->Stopped_0, events.drop_first());
        }
        law_running_follows_the_script(first.0, events.drop_first());
        assert(actions[0] == first.1);
        assert(actions.drop_first() =~= rest.1);
        let p = progress(state) as int;
        if first.1 != SupervisorAction::Idle {
            assert(progress(first.0) == p + 1);
            assert(first.1 == script()[p]);
            assert(script().skip(p) =~= seq![script()[p]] + script().skip(p + 1));
        }
    }
}

} // verus!
