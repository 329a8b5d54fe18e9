//! Projects, their documents, and the names of the files that hold them.

use crate::hierarchy::forest_of;
use crate::task::{views_of, DoistTask, TaskView};
use crate::text::{
    lowercase, replace_spaces, spaces_to_underscores, trim, trimmed, MARKER,
};
use vstd::prelude::*;
use vstd::string::*;

verus! {

/// The word that marks a project's heading.
pub const PROJECT_WORD: &'static str = "Project";

/// The level of a project's heading. The roots of its forest come one level
/// below it.
pub const PROJECT_LEVEL: usize = 1;

/// The extension of a document's file name.
pub const EXTENSION: &'static str = ".org";

/// A project. As fetched, `tasks` is the flat list of its tasks; once the
/// forest is built, `tasks` holds the roots.
#[derive(Debug, PartialEq, Eq)]
pub struct DoistProject {
    pub id: String,
    pub name: String,
    pub tasks: Vec<DoistTask>,
}

/// The mathematical value of a [`DoistProject`].
pub ghost struct ProjectView {
    pub id: Seq<char>,
    pub name: Seq<char>,
    pub tasks: Seq<TaskView>,
}

impl View for DoistProject {
    type V = ProjectView;

    open spec fn view(&self) -> ProjectView {
        ProjectView { id: self.id@, name: self.name@, tasks: views_of(self.tasks@) }
    }
}

/// The values of a list of projects, one by one.
pub open spec fn project_views(projects: Seq<DoistProject>) -> Seq<ProjectView> {
    Seq::new(projects.len(), |i: int| projects[i]@)
}

/// The text of the first `k` trees of a forest, one after the other, below a
/// heading of level `base`.
pub open spec fn forest_outline(forest: Seq<TaskView>, base: nat, k: nat) -> Seq<char>
    decreases k,
{
    if k == 0 || k > forest.len() {
        Seq::empty()
    } else {
        forest_outline(forest, base, (k - 1) as nat) + forest[k - 1].outline(base)
    }
}

impl ProjectView {
    /// The project with the forest of its task list in place of the list.
    pub open spec fn with_forest(self) -> ProjectView {
        ProjectView { id: self.id, name: self.name, tasks: forest_of(self.tasks) }
    }

    /// The project's document and the path of its file in the directory
    /// `dir`. The file name comes from the name in lower case.
    pub open spec fn file_in(self, dir: Seq<char>) -> FileView {
        FileView { path: dir + seq!['/'] + file_name_of(lowercase(self.name)), text: self.document() }
    }

    /// The project's heading line: one marker, the project word, and the name
    /// without the white space around it.
    pub open spec fn heading(self) -> Seq<char> {
        seq![MARKER, ' '] + PROJECT_WORD@ + seq![' '] + trimmed(self.name) + seq!['\n']
    }

    /// The project's document: its heading line, then the outline of each
    /// root in forest order.
    pub open spec fn document(self) -> Seq<char> {
        self.heading() + forest_outline(self.tasks, PROJECT_LEVEL as nat, self.tasks.len())
    }
}

/// The file name for a project whose lower-cased name is `lowered`: the name
/// without the white space around it, with an underscore for each space, and
/// the extension.
pub open spec fn file_name_of(lowered: Seq<char>) -> Seq<char> {
    spaces_to_underscores(trimmed(lowered)) + EXTENSION@
}

/// A document and the path of the file that is to hold it.
#[derive(Debug, PartialEq, Eq)]
pub struct OutlineFile {
    pub path: String,
    pub text: String,
}

/// The mathematical value of an [`OutlineFile`].
pub ghost struct FileView {
    pub path: Seq<char>,
    pub text: Seq<char>,
}

impl View for OutlineFile {
    type V = FileView;

    open spec fn view(&self) -> FileView {
        FileView { path: self.path@, text: self.text@ }
    }
}

/// The values of a list of files, one by one.
pub open spec fn file_views(files: Seq<OutlineFile>) -> Seq<FileView> {
    Seq::new(files.len(), |i: int| files[i]@)
}

/// The file name for a project, from its name in lower case.
pub fn file_name_from(lowered: &str) -> (name: String)
    ensures
        name@ == file_name_of(lowered@),
{
    let stem = trim(lowered);
    let mut name = replace_spaces(stem.as_str());
    name.append(EXTENSION);
    name
}

impl DoistProject {
    /// A project as the fetch layer hands it over, with the flat list of its
    /// tasks.
    pub fn new(id: String, name: String, tasks: Vec<DoistTask>) -> (project: Self)
        ensures
            project@ == (ProjectView { id: id@, name: name@, tasks: views_of(tasks@) }),
    {
        DoistProject { id, name, tasks }
    }

    /// The project's document: its heading, and below it the trees of its
    /// forest as nested headings.
    pub fn to_string(&self) -> (text: String)
        ensures
            text@ == self@.document(),
    {
        let mut text = String::new();
        text.push(MARKER);
        text.push(' ');
        text.append(PROJECT_WORD);
        text.push(' ');
        let name = trim(self.name.as_str());
        text.append(name.as_str());
        text.push('\n');
        let mut i: usize = 0;
        while i < self.tasks.len()
            invariant
                i <= self.tasks.len(),
                text@ == self@.heading() + forest_outline(
                    self@.tasks,
                    PROJECT_LEVEL as nat,
                    i as nat,
                ),
            decreases self.tasks.len() - i,
        {
            let tree = self.tasks[i].print_task(PROJECT_LEVEL);
            text.append(tree.as_str());
            i = i + 1;
        }
        text
    }

    /// The name of the file that holds the project's document.
    pub fn file_name(&self) -> (name: String)
        ensures
            name@ == file_name_of(lowercase(self@.name)),
    {
        let lowered = self.name.as_str().to_lowercase();
        file_name_from(lowered.as_str())
    }
}

/// Rendering is repeatable: the document of a project depends on the value
/// of the project alone, so two renderings of one forest agree character by
/// character.
pub proof fn lemma_document_repeats(first: DoistProject, second: DoistProject)
    requires
        first@ == second@,
    ensures
        first@.document() == second@.document(),
{
}

} // verus!
