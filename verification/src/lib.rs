//! Turns the flat task lists of an account's projects into outline documents,
//! one per project, in which subtasks are nested headings below their parents.
//!
//! The tasks of a project name their parents by identifier. [`hierarchy`]
//! says what the parent relation of such a list is and what its forest is,
//! [`forest`] validates a list and rebuilds the owned trees, and [`task`] and
//! [`project`] render them. [`account`] takes the projects in and hands the
//! documents out, each with the path of its file. [`cycles`] and
//! [`placement`] hold what is proved of the forest: which lists are refused,
//! and that every task of an accepted list has exactly one place. [`text`]
//! holds the character-level helpers, [`filters`] the parameters of a task
//! query and [`error`] the failures.
//!
//! Fetching the tasks and writing the files is left to the caller.

pub mod account;
pub mod cycles;
pub mod error;
pub mod filters;
pub mod forest;
pub mod hierarchy;
pub mod placement;
pub mod project;
pub mod task;
pub mod text;

pub use account::TodoistAccount;
pub use error::{OutlineError, ProjectFailure};
pub use filters::{DoistTaskFilters, TaskFilterKind};
pub use project::{DoistProject, OutlineFile};
pub use task::DoistTask;
