//! The ways in which a resolution fails.

use vstd::prelude::*;

verus! {

/// A failure of the resolution. Each one is final for the whole run: none
/// is retried, and after any of them no entry is reported at all.
#[derive(Clone, Copy, Debug, PartialEq, Eq, Structural)]
pub enum ResolveError {
    /// The starting point does not name a snapshot.
    ReferenceNotFound,
    /// A snapshot's tree or ancestry cannot be read.
    CorruptHistory,
    /// The root of the live content cannot be located.
    WorkingTreeUnavailable,
}

impl ResolveError {
    /// A sentence that says what went wrong.
    pub fn message(&self) -> (text: String)
        ensures
            text@ == match *self {
                ResolveError::ReferenceNotFound => "the reference does not name a snapshot"@,
                ResolveError::CorruptHistory => "a snapshot's tree or ancestry cannot be read"@,
                ResolveError::WorkingTreeUnavailable => "the working tree cannot be located"@,
            },
    {
        match self {
            ResolveError::ReferenceNotFound => "the reference does not name a snapshot".to_owned(),
            ResolveError::CorruptHistory => "a snapshot's tree or ancestry cannot be read".to_owned(),
            ResolveError::WorkingTreeUnavailable => "the working tree cannot be located".to_owned(),
        }
    }
}

} // verus!
