//! What can go wrong while a run is at work.

use vstd::prelude::*;
use vstd::string::to_string_from_display_ensures;
use vstd::string::StringExecFns;

verus! {

/// The failure of one step of a run.
#[derive(Debug)]
pub enum Failure {
    /// A collection could not be read or written; the text is what the
    /// database said.
    Store(String),
    /// The repository could not give what was asked of it; the text is what
    /// it said.
    Repository(String),
}

impl Failure {
    /// The failure that a fault of the database stands for: its text is the
    /// text that the fault displays as.
    pub(crate) fn store(fault: &sled::Error) -> (failure: Failure)
        ensures
            failure matches Failure::Store(said) && to_string_from_display_ensures::<sled::Error>(
                fault,
                said,
            ),
    {
        Failure::Store(fault.to_string())
    }

    /// The failure that a fault of the repository stands for: its text is the
    /// text that the fault displays as.
    pub(crate) fn repository(fault: &git2::Error) -> (failure: Failure)
        ensures
            failure matches Failure::Repository(said) && to_string_from_display_ensures::<
                git2::Error,
            >(fault, said),
    {
        Failure::Repository(fault.to_string())
    }

    /// What failed, and what was said of it.
    pub fn message(&self) -> (text: String)
        ensures
            text@ == match self {
                Failure::Store(said) => "store: "@ + said@,
                Failure::Repository(said) => "repository: "@ + said@,
            },
    {
        match self {
            Failure::Store(said) => String::from_str("store: ").concat(said.as_str()),
            Failure::Repository(said) => String::from_str("repository: ").concat(said.as_str()),
        }
    }
}

} // verus!
