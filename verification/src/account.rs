//! An account: the credential for the task service and the projects read from it.

use crate::error::{failure_views, FailureView, ProjectFailure};
use crate::hierarchy::hierarchy_fault;
use crate::project::{file_views, project_views, DoistProject, OutlineFile, ProjectView};
use vstd::prelude::*;
use vstd::string::*;

verus! {

/// The account whose projects are turned into outline documents.
pub struct TodoistAccount {
    bearer: String,
    projects: Vec<DoistProject>,
}

/// The mathematical value of a [`TodoistAccount`].
pub ghost struct AccountView {
    pub bearer: Seq<char>,
    pub projects: Seq<ProjectView>,
}

impl View for TodoistAccount {
    type V = AccountView;

    closed spec fn view(&self) -> AccountView {
        AccountView { bearer: self.bearer@, projects: project_views(self.projects@) }
    }
}

/// The projects among the first `k` of `fetched` whose task lists are
/// hierarchies, each with its forest, in the order they came.
pub open spec fn accepted(fetched: Seq<ProjectView>, k: int) -> Seq<ProjectView>
    decreases k,
{
    if k <= 0 {
        Seq::empty()
    } else if hierarchy_fault(fetched[k - 1].tasks) is None {
        accepted(fetched, k - 1).push(fetched[k - 1].with_forest())
    } else {
        accepted(fetched, k - 1)
    }
}

/// The failures among the first `k` of `fetched`: for each project whose task
/// list is no hierarchy, what is wrong with it, in the order they came.
pub open spec fn refused(fetched: Seq<ProjectView>, k: int) -> Seq<FailureView>
    decreases k,
{
    if k <= 0 {
        Seq::empty()
    } else {
        match hierarchy_fault(fetched[k - 1].tasks) {
            Some(fault) => refused(fetched, k - 1).push(
                FailureView { project_id: fetched[k - 1].id, error: fault },
            ),
            None => refused(fetched, k - 1),
        }
    }
}

/// `base_path` without one `/` at its end, if it ends in one.
pub open spec fn directory_of(base_path: Seq<char>) -> Seq<char> {
    if base_path.len() > 0 && base_path.last() == '/' {
        base_path.drop_last()
    } else {
        base_path
    }
}

/// Removes one `/` from the end of `base_path`, if it ends in one.
pub fn strip_slash(base_path: &str) -> (dir: String)
    ensures
        dir@ == directory_of(base_path@),
{
    let n: usize = base_path.unicode_len();
    if n > 0 && base_path.get_char(n - 1) == '/' {
        base_path.substring_char(0, n - 1).to_owned()
    } else {
        base_path.to_owned()
    }
}

impl TodoistAccount {
    /// An account without projects. `bearer` is the bare token; the account
    /// keeps it in the form the authorization header wants.
    pub fn new(bearer: String) -> (account: Self)
        ensures
            account@.bearer == "Bearer "@ + bearer@,
            account@.projects == Seq::<ProjectView>::empty(),
    {
        let account = TodoistAccount {
            bearer: String::from_str("Bearer ").concat(bearer.as_str()),
            projects: Vec::new(),
        };
        account
    }

    /// The value of the authorization header.
    pub fn bearer(&self) -> (bearer: &String)
        ensures
            bearer@ == self@.bearer,
    {
        &self.bearer
    }

    /// The projects taken in so far, each with its forest.
    pub fn projects(&self) -> (projects: &Vec<DoistProject>)
        ensures
            project_views(projects@) == self@.projects,
    {
        &self.projects
    }

    /// Takes in what was downloaded: the projects of the account, each with
    /// the flat list of its tasks. A project whose list is a hierarchy is
    /// added to the account with its forest. A project whose list is not is
    /// left out and reported; the projects after it are still taken in.
    pub fn download(&mut self, fetched: Vec<DoistProject>) -> (failures: Vec<ProjectFailure>)
        ensures
            final(self)@.bearer == old(self)@.bearer,
            final(self)@.projects == old(self)@.projects + accepted(
                project_views(fetched@),
                fetched.len() as int,
            ),
            failure_views(failures@) == refused(project_views(fetched@), fetched.len() as int),
    {
        let ghost all = project_views(fetched@);
        let mut failures: Vec<ProjectFailure> = Vec::new();
        let mut i: usize = 0;
        while i < fetched.len()
            invariant
                i <= fetched.len(),
                all == project_views(fetched@),
                self@.bearer == old(self)@.bearer,
                self@.projects == old(self)@.projects + accepted(all, i as int),
                failure_views(failures@) == refused(all, i as int),
            decreases fetched.len() - i,
        {
            let project = &fetched[i];
            let ghost projects_before = self@.projects;
            match Self::build_forest(&project.tasks) {
                Ok(forest) => {
                    let built = DoistProject {
                        id: project.id.clone(),
                        name: project.name.clone(),
                        tasks: forest,
                    };
                    self.projects.push(built);
                    assert(self@.projects =~= projects_before.push(all[i as int].with_forest()));
                },
                Err(error) => {
                    failures.push(ProjectFailure { project_id: project.id.clone(), error });
                },
            }
            i = i + 1;
        }
        failures
    }

    /// The documents of the account's projects, each with the path of its
    /// file in the directory `base_path`, in the order of the projects.
    pub fn dump_to(&self, base_path: &str) -> (files: Vec<OutlineFile>)
        ensures
            file_views(files@) == Seq::new(
                self@.projects.len(),
                |i: int| self@.projects[i].file_in(directory_of(base_path@)),
            ),
    {
        let dir = strip_slash(base_path);
        let mut files: Vec<OutlineFile> = Vec::new();
        let mut i: usize = 0;
        while i < self.projects.len()
            invariant
                i <= self.projects.len(),
                dir@ == directory_of(base_path@),
                files.len() == i,
                forall|k: int| 0 <= k < i ==> (#[trigger] files[k])@ == self.projects[k]@.file_in(dir@),
            decreases self.projects.len() - i,
        {
            let project = &self.projects[i];
            let mut path = dir.clone();
            path.push('/');
            let name = project.file_name();
            path.append(name.as_str());
            assert(path@ =~= dir@ + seq!['/'] + name@);
            files.push(OutlineFile { path, text: project.to_string() });
            i = i + 1;
        }
        files
    }
}

} // verus!
