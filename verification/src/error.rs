//! The engine's error.

use vstd::prelude::*;

verus! {

/// What an engine operation reports when it does not complete.
#[derive(Clone, Debug, PartialEq, Eq)]
pub enum UpstrokeError {
    /// The operation refused: the state does not allow it.
    Refused { message: String },
    /// A Git operation or the value it yielded was not what the engine needs.
    Git { message: String },
    /// A read or write of the run's files failed.
    Io { message: String },
    /// The process runner could not run a process.
    Runner { message: String },
}

impl UpstrokeError {
    /// The message the error carries.
    pub open spec fn message_spec(self) -> Seq<char> {
        match self {
            UpstrokeError::Refused { message } => message@,
            UpstrokeError::Git { message } => message@,
            UpstrokeError::Io { message } => message@,
            UpstrokeError::Runner { message } => message@,
        }
    }

    /// The error's text: what `Display` shows.
    pub fn message(&self) -> (s: String)
        ensures
            s@ == self.message_spec(),
    {
        match self {
            UpstrokeError::Refused { message } => message.clone(),
            UpstrokeError::Git { message } => message.clone(),
            UpstrokeError::Io { message } => message.clone(),
            UpstrokeError::Runner { message } => message.clone(),
        }
    }
}

} // verus!
