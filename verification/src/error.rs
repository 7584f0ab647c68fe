//! The ways in which one computation can fail.

use vstd::prelude::*;

verus! {

/// Why an estimate could not be produced.
#[derive(Clone, Copy, Debug, PartialEq, Eq, Structural)]
pub enum EngineError {
    /// The magnitude lies outside `(0, MAX_MAGNITUDE]`.
    InvalidMagnitude,
    /// The term indices cannot be divided among zero workers.
    InvalidPartition,
    /// The worker with this position ended without a partial result.
    WorkerFailure { worker: usize },
}

impl EngineError {
    /// A one-line diagnostic that names the violated precondition.
    pub fn message(&self) -> (text: String)
        ensures
            text@ == (match *self {
                EngineError::InvalidMagnitude => "magnitude must be within range (0-10]."@,
                EngineError::InvalidPartition => "at least one worker is required."@,
                EngineError::WorkerFailure { .. } => "a worker ended without a result."@,
            }),
    {
        match self {
            EngineError::InvalidMagnitude => "magnitude must be within range (0-10].".to_owned(),
            EngineError::InvalidPartition => "at least one worker is required.".to_owned(),
            EngineError::WorkerFailure { .. } => "a worker ended without a result.".to_owned(),
        }
    }
}

} // verus!
