//! Error types shared by the monitor, the council, and the facade.

use vstd::prelude::*;
use vstd::string::StringExecFns;

verus! {

/// Failures raised by the execution-state monitor.
#[derive(Debug, Clone, PartialEq, Eq)]
pub enum MonitorError {
    /// A cycle was found in the recorded execution path.
    CycleDetected { step: u64, description: String },
    /// The execution path grew beyond the allowed length.
    PathTooLong { max_length: usize },
    /// The monitor was asked to do something its state forbids.
    InvalidState(String),
    /// The budget cannot pay for the requested operation.
    GasExhausted { required: u64, available: u64, operation: String },
    /// The context store holds more frames than its limit.
    ContextOverflow { current: usize, limit: usize },
}

impl MonitorError {
    /// A human-readable account of the failure.
    pub fn describe(&self) -> String {
        match self {
            MonitorError::CycleDetected { description, .. } => {
                let mut s = String::from_str("cycle detected: ");
                s.append(description.as_str());
                s
            },
            MonitorError::PathTooLong { .. } => String::from_str(
                "execution path exceeded its maximum length",
            ),
            MonitorError::InvalidState(reason) => {
                let mut s = String::from_str("invalid state: ");
                s.append(reason.as_str());
                s
            },
            MonitorError::GasExhausted { operation, .. } => {
                let mut s = String::from_str("gas exhausted during ");
                s.append(operation.as_str());
                s
            },
            MonitorError::ContextOverflow { .. } => String::from_str(
                "context capacity exceeded",
            ),
        }
    }
}

/// Failures raised by the consensus council.
#[derive(Debug, Clone, PartialEq, Eq)]
pub enum CouncilError {
    /// An evaluator could not produce a vote.
    EvaluatorFailure(String, String),
    /// The quorum engine could not aggregate the votes.
    ConsensusFailure(String),
    /// The inversion detector failed.
    WaluigiDetectionError(String),
    /// The action proposal is malformed.
    InvalidProposal(String),
    /// An unexpected internal condition.
    Internal(String),
}

impl CouncilError {
    /// A human-readable account of the failure.
    pub fn describe(&self) -> String {
        match self {
            CouncilError::EvaluatorFailure(name, why) => {
                let mut s = String::from_str("evaluator '");
                s.append(name.as_str());
                s.append("' failed to vote: ");
                s.append(why.as_str());
                s
            },
            CouncilError::ConsensusFailure(why) => {
                let mut s = String::from_str("consensus failure: ");
                s.append(why.as_str());
                s
            },
            CouncilError::WaluigiDetectionError(why) => {
                let mut s = String::from_str("inversion detection error: ");
                s.append(why.as_str());
                s
            },
            CouncilError::InvalidProposal(why) => {
                let mut s = String::from_str("invalid action proposal: ");
                s.append(why.as_str());
                s
            },
            CouncilError::Internal(why) => {
                let mut s = String::from_str("internal council error: ");
                s.append(why.as_str());
                s
            },
        }
    }
}

/// Failures raised by the facade.
#[derive(Debug, Clone, PartialEq, Eq)]
pub enum SentinelError {
    /// Schema verification failed inside the registry.
    SchemaViolation(String),
    /// The monitor refused the step.
    StateViolation(String),
    /// The council refused the action.
    CouncilRejection(String),
    /// Alignment inversion was detected.
    WaluigiDetected(String),
    /// The configuration is unusable.
    Config(String),
    /// An unexpected internal condition.
    Internal(String),
    /// A registry-level failure, as text.
    Registry(String),
    /// A monitor-level failure, passed through.
    Monitor(MonitorError),
    /// A council-level failure, passed through.
    Council(CouncilError),
}

} // verus!
