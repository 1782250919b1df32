//! The error taxonomy callers see from generation.

use vstd::prelude::*;
use vstd::string::StringExecFns;

verus! {

/// Why a generation call failed or could fail.
#[derive(Debug, Clone)]
pub enum ArenaGenerationError {
    /// The pipeline produced at least one critical anomaly after full
    /// validation.
    GenerationFailed { message: String },
    /// Malformed caller input.
    InvalidConfiguration { details: String },
    /// A declared minimum-count constraint could not be met.
    ConstraintViolation { constraint: String },
    /// A blocking finding, surfaced in summary form.
    CriticalAnomaly { anomaly: String },
    /// Elapsed time exceeded a hard cap.
    Timeout { max_time_ms: u64 },
}

impl ArenaGenerationError {
    /// A human-readable account of the error.
    pub fn describe(&self) -> (r: String)
        ensures
            match self {
                ArenaGenerationError::GenerationFailed { message } => r@
                    == "Arena generation failed: "@ + message@,
                ArenaGenerationError::InvalidConfiguration { details } => r@
                    == "Invalid configuration: "@ + details@,
                ArenaGenerationError::ConstraintViolation { constraint } => r@
                    == "Constraint violation: "@ + constraint@,
                ArenaGenerationError::CriticalAnomaly { anomaly } => r@
                    == "Critical anomaly detected: "@ + anomaly@,
                ArenaGenerationError::Timeout { .. } => r@
                    == "Timeout during generation"@,
            },
    {
        match self {
            ArenaGenerationError::GenerationFailed { message } => {
                let mut s: String = "Arena generation failed: ".to_owned();
                s.append(message.as_str());
                s
            },
            ArenaGenerationError::InvalidConfiguration { details } => {
                let mut s: String = "Invalid configuration: ".to_owned();
                s.append(details.as_str());
                s
            },
            ArenaGenerationError::ConstraintViolation { constraint } => {
                let mut s: String = "Constraint violation: ".to_owned();
                s.append(constraint.as_str());
                s
            },
            ArenaGenerationError::CriticalAnomaly { anomaly } => {
                let mut s: String = "Critical anomaly detected: ".to_owned();
                s.append(anomaly.as_str());
                s
            },
            ArenaGenerationError::Timeout { .. } => "Timeout during generation".to_owned(),
        }
    }
}

} // verus!
