use siriusu::supervisor::{
    artifact_path, executable_path, resource_dir, step, Missing, SpawnOutcome, StartupStep,
    StopReason, SupervisorAction, SupervisorEvent, SupervisorState,
};

fn run(events: &[SupervisorEvent]) -> (SupervisorState, Vec<SupervisorAction>) {
    let mut state = SupervisorState::NotStarted;
    let mut actions = Vec::new();
    for event in events {
        let (next, action) = step(state, *event);
        state = next;
        actions.push(action);
    }
    (state, actions)
}

#[test]
fn startup_goes_through_every_step_in_order() {
    let (state, actions) = run(&[
        SupervisorEvent::Start,
        SupervisorEvent::Found(true),
        SupervisorEvent::Found(true),
        SupervisorEvent::ArtifactWritten(true),
        SupervisorEvent::Spawn(SpawnOutcome::Spawned),
    ]);
    assert_eq!(state, SupervisorState::Running);
    assert_eq!(
        actions,
        vec![
            SupervisorAction::ProbeExecutable,
            SupervisorAction::ProbeResources,
            SupervisorAction::WriteArtifact,
            SupervisorAction::Spawn,
            SupervisorAction::StartRelays,
        ]
    );
}

#[test]
fn absent_executable_stops_without_a_spawn() {
    let reason = StopReason::PreconditionFailed(Missing::Executable);
    let (state, actions) = run(&[
        SupervisorEvent::Start,
        SupervisorEvent::Found(false),
        SupervisorEvent::Found(true),
        SupervisorEvent::ArtifactWritten(true),
        SupervisorEvent::Spawn(SpawnOutcome::Spawned),
        SupervisorEvent::Start,
    ]);
    assert_eq!(state, SupervisorState::Stopped(reason));
    assert_eq!(
        actions,
        vec![
            SupervisorAction::ProbeExecutable,
            SupervisorAction::Report(reason),
            SupervisorAction::Idle,
            SupervisorAction::Idle,
            SupervisorAction::Idle,
            SupervisorAction::Idle,
        ]
    );
    assert!(!actions.contains(&SupervisorAction::Spawn));
}

#[test]
fn absent_resources_stop_before_the_artifact_is_written() {
    let reason = StopReason::PreconditionFailed(Missing::Resources);
    let (state, actions) =
        run(&[SupervisorEvent::Start, SupervisorEvent::Found(true), SupervisorEvent::Found(false)]);
    assert_eq!(state, SupervisorState::Stopped(reason));
    assert_eq!(
        actions,
        vec![
            SupervisorAction::ProbeExecutable,
            SupervisorAction::ProbeResources,
            SupervisorAction::Report(reason),
        ]
    );
}

#[test]
fn failed_artifact_write_stops_before_the_spawn() {
    let (state, actions) = run(&[
        SupervisorEvent::Start,
        SupervisorEvent::Found(true),
        SupervisorEvent::Found(true),
        SupervisorEvent::ArtifactWritten(false),
        SupervisorEvent::Spawn(SpawnOutcome::Spawned),
    ]);
    assert_eq!(state, SupervisorState::Stopped(StopReason::ArtifactWriteFailed));
    assert_eq!(
        actions,
        vec![
            SupervisorAction::ProbeExecutable,
            SupervisorAction::ProbeResources,
            SupervisorAction::WriteArtifact,
            SupervisorAction::Report(StopReason::ArtifactWriteFailed),
            SupervisorAction::Idle,
        ]
    );
}

#[test]
fn failed_spawn_stops_the_supervisor() {
    let (state, actions) = run(&[
        SupervisorEvent::Start,
        SupervisorEvent::Found(true),
        SupervisorEvent::Found(true),
        SupervisorEvent::ArtifactWritten(true),
        SupervisorEvent::Spawn(SpawnOutcome::Failed),
    ]);
    assert_eq!(state, SupervisorState::Stopped(StopReason::ProcessSpawnFailed));
    assert_eq!(actions[4], SupervisorAction::Report(StopReason::ProcessSpawnFailed));
}

#[test]
fn missing_stream_stops_the_supervisor() {
    let (state, actions) = run(&[
        SupervisorEvent::Start,
        SupervisorEvent::Found(true),
        SupervisorEvent::Found(true),
        SupervisorEvent::ArtifactWritten(true),
        SupervisorEvent::Spawn(SpawnOutcome::NoStreams),
    ]);
    assert_eq!(state, SupervisorState::Stopped(StopReason::StreamUnavailable));
    assert_eq!(actions[4], SupervisorAction::Report(StopReason::StreamUnavailable));
}

#[test]
fn running_supervisor_is_not_started_again() {
    let (state, action) = step(SupervisorState::Running, SupervisorEvent::Start);
    assert_eq!(state, SupervisorState::Running);
    assert_eq!(action, SupervisorAction::Idle);
    let (state, action) =
        step(SupervisorState::Running, SupervisorEvent::Spawn(SpawnOutcome::Spawned));
    assert_eq!(state, SupervisorState::Running);
    assert_eq!(action, SupervisorAction::Idle);
}

#[test]
fn event_out_of_turn_changes_nothing() {
    let (state, action) = step(SupervisorState::NotStarted, SupervisorEvent::Found(true));
    assert_eq!(state, SupervisorState::NotStarted);
    assert_eq!(action, SupervisorAction::Idle);
    let waiting = SupervisorState::Starting(StartupStep::ProbeExecutable);
    let (state, action) = step(waiting, SupervisorEvent::ArtifactWritten(true));
    assert_eq!(state, waiting);
    assert_eq!(action, SupervisorAction::Idle);
    let waiting = SupervisorState::Starting(StartupStep::WriteArtifact);
    let (state, action) = step(waiting, SupervisorEvent::Found(true));
    assert_eq!(state, waiting);
    assert_eq!(action, SupervisorAction::Idle);
    let waiting = SupervisorState::Starting(StartupStep::Spawn);
    let (state, action) = step(waiting, SupervisorEvent::Start);
    assert_eq!(state, waiting);
    assert_eq!(action, SupervisorAction::Idle);
}

#[test]
fn second_start_while_starting_is_ignored() {
    let (state, actions) = run(&[SupervisorEvent::Start, SupervisorEvent::Start]);
    assert_eq!(state, SupervisorState::Starting(StartupStep::ProbeExecutable));
    assert_eq!(actions, vec![SupervisorAction::ProbeExecutable, SupervisorAction::Idle]);
}

fn names(parts: &[&str]) -> Vec<String> {
    parts.iter().map(|p| p.to_string()).collect()
}

#[test]
fn layout_below_the_base_directory() {
    let base = names(&["C:\\bds"]);
    assert_eq!(executable_path(&base), names(&["C:\\bds", "bedrock_server.exe"]));
    assert_eq!(resource_dir(&base), names(&["C:\\bds", "behavior_packs", "siriusu", "scripts"]));
    assert_eq!(
        artifact_path(&base),
        names(&["C:\\bds", "behavior_packs", "siriusu", "scripts", "config.js"])
    );
}
