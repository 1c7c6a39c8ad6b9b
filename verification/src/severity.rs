use vstd::prelude::*;

verus! {

/// Severity at which a line of child output is reported.
#[derive(Clone, Copy, Debug, PartialEq, Eq, Structural)]
pub enum Severity {
    Error,
    Warn,
    Info,
}

/// The severity most recently established by an explicit marker; `Info`
/// before any marker was seen.
#[derive(Clone, Copy, Debug, PartialEq, Eq, Structural)]
pub enum ClassifierState {
    Error,
    Warn,
    Info,
}

impl ClassifierState {
    /// The state before any marker was seen.
    pub fn initial() -> (state: ClassifierState)
        ensures
            state == ClassifierState::Info,
    {
        ClassifierState::Info
    }

    /// The severity that a continuation line is reported at in this state.
    pub open spec fn spec_severity(self) -> Severity {
        match self {
            ClassifierState::Error => Severity::Error,
            ClassifierState::Warn => Severity::Warn,
            ClassifierState::Info => Severity::Info,
        }
    }

    /// The severity that a continuation line is reported at in this state.
    #[verifier::when_used_as_spec(spec_severity)]
    pub fn severity(self) -> (s: Severity)
        ensures
            s == self.spec_severity(),
    {
        match self {
            ClassifierState::Error => Severity::Error,
            ClassifierState::Warn => Severity::Warn,
            ClassifierState::Info => Severity::Info,
        }
    }
}

} // verus!
