//! Why a request is refused.

use vstd::prelude::*;

verus! {

/// Why a request is refused.
#[derive(Clone, Copy, Debug, PartialEq, Eq, Structural)]
pub enum TaskError {
    /// A collaborator that the request needs has not been injected.
    CollaboratorMissing,
    /// The keeper of sequences gave something other than a range.
    NoTaskIdRange,
}

impl TaskError {
    /// The text of [`TaskError::message`].
    pub open spec fn message_view(self) -> Seq<char> {
        match self {
            TaskError::CollaboratorMissing => "sequence_manager or job_manager is none"@,
            TaskError::NoTaskIdRange => "sequence_manager get direct range error"@,
        }
    }

    /// The error in words.
    pub fn message(&self) -> (message: String)
        ensures
            message@ == self.message_view(),
    {
        match self {
            TaskError::CollaboratorMissing => "sequence_manager or job_manager is none".to_string(),
            TaskError::NoTaskIdRange => "sequence_manager get direct range error".to_string(),
        }
    }
}

} // verus!
