//! The ways in which an operation of this crate can fail.

use vstd::prelude::*;

verus! {

/// A failure, or a request to leave with a given exit code.
#[derive(Clone, Debug)]
pub enum GardenError {
    /// An internal invariant was violated.
    AssertionError(String),
    /// The configuration is malformed, or names something that it lacks.
    ConfigurationError(String),
    /// Leave with this exit code, without a message.
    ExitStatus(i32),
    /// A referenced entity that should already exist does not.
    ReferentialIntegrityError(String),
    /// A required argument is missing.
    Usage(String),
}

impl GardenError {
    /// The process exit code that stands for this error: the requested code for
    /// `ExitStatus`, 1 for every other variant.
    pub open spec fn spec_exit_code(self) -> i32 {
        match self {
            GardenError::ExitStatus(status) => status,
            _ => 1i32,
        }
    }

    /// The process exit code that stands for this error.
    pub fn exit_code(&self) -> (code: i32)
        ensures
            code == self.spec_exit_code(),
    {
        match self {
            GardenError::ExitStatus(status) => *status,
            _ => 1,
        }
    }

    /// The message carried by this error; empty for `ExitStatus`.
    pub fn message(&self) -> (text: String)
        ensures
            text@ == match *self {
                GardenError::AssertionError(m) => m@,
                GardenError::ConfigurationError(m) => m@,
                GardenError::ExitStatus(_) => Seq::<char>::empty(),
                GardenError::ReferentialIntegrityError(m) => m@,
                GardenError::Usage(m) => m@,
            },
    {
        match self {
            GardenError::AssertionError(m) => m.clone(),
            GardenError::ConfigurationError(m) => m.clone(),
            GardenError::ExitStatus(_) => String::new(),
            GardenError::ReferentialIntegrityError(m) => m.clone(),
            GardenError::Usage(m) => m.clone(),
        }
    }
}

} // verus!
