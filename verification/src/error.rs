use vstd::prelude::*;

verus! {

/// The failures the engine and its storage layer can report. Every failure
/// aborts the current operation; nothing is retried and no partial mutation
/// is left behind.
#[derive(Clone, Copy, Debug, PartialEq, Eq, Structural)]
pub enum DocError {
    /// A section header is absent from the document.
    SectionNotFound,
    /// A section header has no separator line below it.
    SectionMalformed,
    /// A task line whose identifier field does not hold a number.
    MalformedTaskId,
    /// A task line whose checkbox disagrees with the section that holds it.
    StatusSectionMismatch,
    /// No section holds a task with the requested identifier.
    TaskNotFound,
    /// The task is already in a state the operation forbids as a source.
    AlreadyInTargetState,
    /// Produced by the storage layer when creating a document that exists.
    AlreadyExists,
    /// Produced by the storage layer when reading or writing fails.
    IOError,
}

impl DocError {
    /// A short description of the failure.
    pub fn describe(&self) -> (r: &'static str)
        ensures
            r@.len() > 0,
    {
        let s = match self {
            DocError::SectionNotFound => "could not find section start",
            DocError::SectionMalformed => "could not find section end",
            DocError::MalformedTaskId => "task line holds no valid id",
            DocError::StatusSectionMismatch => "task checkbox does not match its section",
            DocError::TaskNotFound => "could not find task with that id",
            DocError::AlreadyInTargetState => "cannot move task from its current section",
            DocError::AlreadyExists => "file already exists",
            DocError::IOError => "could not read or write the task file",
        };
        proof {
            reveal_strlit("could not find section start");
            reveal_strlit("could not find section end");
            reveal_strlit("task line holds no valid id");
            reveal_strlit("task checkbox does not match its section");
            reveal_strlit("could not find task with that id");
            reveal_strlit("cannot move task from its current section");
            reveal_strlit("file already exists");
            reveal_strlit("could not read or write the task file");
        }
        s
    }
}

} // verus!
