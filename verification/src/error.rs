//! What can go wrong while a project is turned into a document.

use vstd::prelude::*;
use vstd::string::*;

verus! {

/// The kinds of failure. Building a forest raises the first two; the last two
/// are for the code that fetches the tasks and writes the documents.
#[derive(Debug, PartialEq, Eq)]
pub enum OutlineError {
    /// Following the parent references from some task never ends.
    CyclicHierarchy,
    /// Two tasks of one project carry the same identifier.
    DuplicateIdentifier,
    /// The place a document should be written to cannot be used.
    UnresolvedWriterTarget,
    /// A failure reported from outside, with its message.
    External(String),
}

/// A failure together with the project it belongs to. The other projects of
/// the batch are not affected by it.
#[derive(Debug, PartialEq, Eq)]
pub struct ProjectFailure {
    pub project_id: String,
    pub error: OutlineError,
}

impl OutlineError {
    /// What the failure is, in words. A failure from outside speaks for
    /// itself.
    pub open spec fn text(self) -> Seq<char> {
        match self {
            OutlineError::CyclicHierarchy => "cyclic hierarchy: a task is its own ancestor"@,
            OutlineError::DuplicateIdentifier => "duplicate identifier: two tasks share an id"@,
            OutlineError::UnresolvedWriterTarget => "unresolved writer target"@,
            OutlineError::External(message) => message@,
        }
    }

    /// The failure in words, for a report.
    pub fn message(&self) -> (message: String)
        ensures
            message@ == self.text(),
    {
        match self {
            OutlineError::CyclicHierarchy => String::from_str(
                "cyclic hierarchy: a task is its own ancestor",
            ),
            OutlineError::DuplicateIdentifier => String::from_str(
                "duplicate identifier: two tasks share an id",
            ),
            OutlineError::UnresolvedWriterTarget => String::from_str("unresolved writer target"),
            OutlineError::External(message) => message.clone(),
        }
    }
}

/// The mathematical value of a [`ProjectFailure`].
pub ghost struct FailureView {
    pub project_id: Seq<char>,
    pub error: OutlineError,
}

impl View for ProjectFailure {
    type V = FailureView;

    open spec fn view(&self) -> FailureView {
        FailureView { project_id: self.project_id@, error: self.error }
    }
}

/// The values of a list of failures, one by one.
pub open spec fn failure_views(failures: Seq<ProjectFailure>) -> Seq<FailureView> {
    Seq::new(failures.len(), |i: int| failures[i]@)
}

impl ProjectFailure {
    /// The failure in words, with the project it belongs to.
    pub fn message(&self) -> (message: String)
        ensures
            message@ == "project "@ + self@.project_id + ": "@ + self@.error.text(),
    {
        let mut message = String::from_str("project ");
        message.append(self.project_id.as_str());
        message.append(": ");
        let what = self.error.message();
        message.append(what.as_str());
        message
    }
}

} // verus!
