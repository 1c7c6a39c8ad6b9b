//! The kinds of failure of the service, one vocabulary for all its parts.
use crate::copier::CopyError;
use crate::path_guard::GuardError;
use crate::supervisor::{Missing, StopReason};
use vstd::prelude::*;

verus! {

/// Every kind of failure that a caller can branch on.
#[derive(Clone, Copy, Debug, PartialEq, Eq, Structural)]
pub enum ErrorKind {
    PathEscapesSandbox,
    InvalidPath,
    SourceMissing,
    UnsupportedSourceType,
    IoError,
    ExecutableNotFound,
    ResourceNotFound,
    ProcessSpawnFailed,
    StreamUnavailable,
    /// Source and destination of a copy are not apart.
    OverlappingPaths,
    /// The sandbox root has no component.
    InvalidRoot,
}

/// The kind of a refusal of the guard.
pub open spec fn guard_kind(e: GuardError) -> ErrorKind {
    match e {
        GuardError::PathEscapesSandbox { .. } => ErrorKind::PathEscapesSandbox,
        GuardError::InvalidPath { .. } => ErrorKind::InvalidPath,
        GuardError::InvalidRoot => ErrorKind::InvalidRoot,
    }
}

/// The kind of a failure of a copy.
pub open spec fn copy_kind(e: CopyError) -> ErrorKind {
    match e {
        CopyError::SourceMissing { .. } => ErrorKind::SourceMissing,
        CopyError::UnsupportedSourceType { .. } => ErrorKind::UnsupportedSourceType,
        CopyError::IoError { .. } => ErrorKind::IoError,
        CopyError::OverlappingPaths { .. } => ErrorKind::OverlappingPaths,
    }
}

/// The kind of the reason for which the supervisor stopped.
pub open spec fn stop_kind(reason: StopReason) -> ErrorKind {
    match reason {
        StopReason::PreconditionFailed(Missing::Executable) => ErrorKind::ExecutableNotFound,
        StopReason::PreconditionFailed(Missing::Resources) => ErrorKind::ResourceNotFound,
        StopReason::ArtifactWriteFailed => ErrorKind::IoError,
        StopReason::ProcessSpawnFailed => ErrorKind::ProcessSpawnFailed,
        StopReason::StreamUnavailable => ErrorKind::StreamUnavailable,
    }
}

impl GuardError {
    /// The kind of this refusal.
    pub fn kind(&self) -> (kind: ErrorKind)
        ensures
            kind == guard_kind(*self),
    {
        match self {
            GuardError::PathEscapesSandbox { .. } => ErrorKind::PathEscapesSandbox,
            GuardError::InvalidPath { .. } => ErrorKind::InvalidPath,
            GuardError::InvalidRoot => ErrorKind::InvalidRoot,
        }
    }
}

impl CopyError {
    /// The kind of this failure.
    pub fn kind(&self) -> (kind: ErrorKind)
        ensures
            kind == copy_kind(*self),
    {
        match self {
            CopyError::SourceMissing { .. } => ErrorKind::SourceMissing,
            CopyError::UnsupportedSourceType { .. } => ErrorKind::UnsupportedSourceType,
            CopyError::IoError { .. } => ErrorKind::IoError,
            CopyError::OverlappingPaths { .. } => ErrorKind::OverlappingPaths,
        }
    }
}

impl StopReason {
    /// The kind of this reason.
    pub fn kind(self) -> (kind: ErrorKind)
        ensures
            kind == stop_kind(self),
    {
        match self {
            StopReason::PreconditionFailed(Missing::Executable) => ErrorKind::ExecutableNotFound,
            StopReason::PreconditionFailed(Missing::Resources) => ErrorKind::ResourceNotFound,
            StopReason::ArtifactWriteFailed => ErrorKind::IoError,
            StopReason::ProcessSpawnFailed => ErrorKind::ProcessSpawnFailed,
            StopReason::StreamUnavailable => ErrorKind::StreamUnavailable,
        }
    }

    /// Whether a startup precondition failed: the supervisor never came to spawn.
    pub fn is_precondition_failure(self) -> (b: bool)
        ensures
            b == (self is PreconditionFailed),
    {
        match self {
            StopReason::PreconditionFailed(_) => true,
            _ => false,
        }
    }
}

} // verus!
