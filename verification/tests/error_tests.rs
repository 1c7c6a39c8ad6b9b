use siriusu::copier::CopyError;
use siriusu::error::ErrorKind;
use siriusu::path_guard::GuardError;
use siriusu::supervisor::{Missing, StopReason};

#[test]
fn guard_errors_have_their_kinds() {
    let escaping = GuardError::PathEscapesSandbox { path: vec!["/".to_string()] };
    assert_eq!(escaping.kind(), ErrorKind::PathEscapesSandbox);
    let invalid = GuardError::InvalidPath { cause: "gone".to_string() };
    assert_eq!(invalid.kind(), ErrorKind::InvalidPath);
    assert_eq!(GuardError::InvalidRoot.kind(), ErrorKind::InvalidRoot);
}

#[test]
fn copy_errors_have_their_kinds() {
    let path = vec!["a".to_string()];
    let missing = CopyError::SourceMissing { path: path.clone(), cause: "gone".to_string() };
    assert_eq!(missing.kind(), ErrorKind::SourceMissing);
    let unsupported = CopyError::UnsupportedSourceType { path: path.clone() };
    assert_eq!(unsupported.kind(), ErrorKind::UnsupportedSourceType);
    let io = CopyError::IoError { path: path.clone(), cause: "full".to_string() };
    assert_eq!(io.kind(), ErrorKind::IoError);
    let overlapping = CopyError::OverlappingPaths { src: path.clone(), dest: path };
    assert_eq!(overlapping.kind(), ErrorKind::OverlappingPaths);
}

#[test]
fn stop_reasons_have_their_kinds() {
    assert_eq!(
        StopReason::PreconditionFailed(Missing::Executable).kind(),
        ErrorKind::ExecutableNotFound
    );
    assert_eq!(
        StopReason::PreconditionFailed(Missing::Resources).kind(),
        ErrorKind::ResourceNotFound
    );
    assert_eq!(StopReason::ArtifactWriteFailed.kind(), ErrorKind::IoError);
    assert_eq!(StopReason::ProcessSpawnFailed.kind(), ErrorKind::ProcessSpawnFailed);
    assert_eq!(StopReason::StreamUnavailable.kind(), ErrorKind::StreamUnavailable);
}

#[test]
fn only_missing_files_are_precondition_failures() {
    assert!(StopReason::PreconditionFailed(Missing::Executable).is_precondition_failure());
    assert!(StopReason::PreconditionFailed(Missing::Resources).is_precondition_failure());
    assert!(!StopReason::ArtifactWriteFailed.is_precondition_failure());
    assert!(!StopReason::ProcessSpawnFailed.is_precondition_failure());
    assert!(!StopReason::StreamUnavailable.is_precondition_failure());
}
