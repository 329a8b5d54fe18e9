//! Rebuilding the forest of a project from its flat task list.
//!
//! The list is validated first. Each root then gets its subtree by scanning
//! the list for the tasks that name it, and so on downwards; children keep the
//! order of the input.

use crate::account::TodoistAccount;
use crate::error::OutlineError;
use crate::hierarchy::{
    child_nodes, depth_of, depth_within, forest_of, has_duplicate_ids, hierarchy_fault,
    index_of_id, is_acyclic, is_hierarchy, lemma_depth_more_fuel, lemma_find_id,
    lemma_index_of_own_id, lemma_parent_depth, lemma_parent_index, lemma_subtrees_step,
    find_id, parent_index, subtree, subtrees_below,
};
use crate::placement::{lemma_forest_is_levelled, lemma_forest_keeps_every_task};
use crate::task::{forest_size, views_of, DoistTask, TaskView};
use vstd::prelude::*;

verus! {

/// The position of the first task that carries the identifier `id`.
pub fn find_task(tasks: &Vec<DoistTask>, id: &String) -> (found: Option<usize>)
    ensures
        match found {
            Some(k) => index_of_id(views_of(tasks@), id@) == Some(k as int),
            None => index_of_id(views_of(tasks@), id@) is None,
        },
{
    let mut k: usize = 0;
    while k < tasks.len()
        invariant
            k <= tasks.len(),
            index_of_id(views_of(tasks@), id@) == find_id(views_of(tasks@), id@, k as int),
        decreases tasks.len() - k,
    {
        if tasks[k].id == *id {
            return Some(k);
        }
        k = k + 1;
    }
    None
}

/// The position of the parent of the task at `j`, if it has one in the list.
pub fn parent_of(tasks: &Vec<DoistTask>, j: usize) -> (parent: Option<usize>)
    requires
        j < tasks.len(),
    ensures
        match parent {
            Some(p) => parent_index(views_of(tasks@), j as int) == Some(p as int),
            None => parent_index(views_of(tasks@), j as int) is None,
        },
{
    match &tasks[j].parent_id {
        Some(id) => find_task(tasks, id),
        None => None,
    }
}

/// Walks the parent chain from the task at `j` and counts the hops up to a
/// root. Gives up with `None` once the count would exceed the number of
/// tasks, which only a cycle can cause.
pub fn depth_of_task(tasks: &Vec<DoistTask>, j: usize) -> (depth: Option<usize>)
    requires
        j < tasks.len(),
    ensures
        match depth {
            Some(d) => depth_within(views_of(tasks@), j as int, tasks.len() as nat) == Some(
                d as nat,
            ),
            None => depth_within(views_of(tasks@), j as int, tasks.len() as nat) is None,
        },
{
    let n: usize = tasks.len();
    let ghost tv = views_of(tasks@);
    let mut at: usize = j;
    let mut hops: usize = 0;
    loop
        invariant
            n == tasks.len(),
            tv == views_of(tasks@),
            at < n,
            hops <= n,
            depth_within(tv, j as int, n as nat) == match depth_within(
                tv,
                at as int,
                (n - hops) as nat,
            ) {
                Some(d) => Some((d + hops) as nat),
                None => None,
            },
        decreases n - hops,
    {
        match parent_of(tasks, at) {
            None => {
                return Some(hops);
            },
            Some(p) => {
                if hops == n {
                    return None;
                }
                proof {
                    lemma_parent_index(tv, at as int);
                }
                at = p;
                hops = hops + 1;
            },
        }
    }
}

/// Whether two tasks of the list carry the same identifier.
pub fn has_duplicates(tasks: &Vec<DoistTask>) -> (found: bool)
    ensures
        found == has_duplicate_ids(views_of(tasks@)),
{
    let ghost tv = views_of(tasks@);
    let mut j: usize = 0;
    while j < tasks.len()
        invariant
            j <= tasks.len(),
            tv == views_of(tasks@),
            forall|a: int, b: int| 0 <= a < b < j ==> (#[trigger] tv[a]).id != (#[trigger] tv[b]).id,
        decreases tasks.len() - j,
    {
        proof {
            lemma_find_id(tv, tv[j as int].id, 0);
        }
        match find_task(tasks, &tasks[j].id) {
            Some(k) => {
                if k != j {
                    return true;
                }
            },
            None => {},
        }
        j = j + 1;
    }
    false
}

/// Whether following the parent references from some task never ends.
pub fn has_cycle(tasks: &Vec<DoistTask>) -> (found: bool)
    ensures
        found == !is_acyclic(views_of(tasks@)),
{
    let ghost tv = views_of(tasks@);
    let mut j: usize = 0;
    while j < tasks.len()
        invariant
            j <= tasks.len(),
            tv == views_of(tasks@),
            forall|a: int| 0 <= a < j ==> (#[trigger] depth_within(tv, a, tv.len())) is Some,
        decreases tasks.len() - j,
    {
        if depth_of_task(tasks, j).is_none() {
            return true;
        }
        j = j + 1;
    }
    false
}

/// Checks that the list describes a forest, and says what is wrong where it
/// does not.
pub fn check_hierarchy(tasks: &Vec<DoistTask>) -> (checked: Result<(), OutlineError>)
    ensures
        match hierarchy_fault(views_of(tasks@)) {
            Some(fault) => checked == Err::<(), OutlineError>(fault),
            None => checked is Ok,
        },
{
    if has_duplicates(tasks) {
        Err(OutlineError::DuplicateIdentifier)
    } else if has_cycle(tasks) {
        Err(OutlineError::CyclicHierarchy)
    } else {
        Ok(())
    }
}

/// The node for `task` in a forest: its own fields, with the depth and the
/// children that were worked out for it.
fn make_node(task: &DoistTask, depth: usize, subtasks: Vec<DoistTask>) -> (node: DoistTask)
    ensures
        node@ == (TaskView {
            id: task@.id,
            parent_id: task@.parent_id,
            content: task@.content,
            description: task@.description,
            depth: depth as nat,
            subtasks: views_of(subtasks@),
        }),
{
    let node = DoistTask {
        id: task.id.clone(),
        parent_id: match &task.parent_id {
            Some(p) => Some(p.clone()),
            None => None,
        },
        content: task.content.clone(),
        description: task.description.clone(),
        depth,
        subtasks,
    };
    assert(node@.subtasks =~= views_of(subtasks@));
    node
}

impl TodoistAccount {
    /// The children of `task` among `tasks`, each with its whole subtree, in
    /// the order of the list.
    pub fn build_tree(task: &DoistTask, tasks: &Vec<DoistTask>) -> (children: Vec<DoistTask>)
        requires
            is_hierarchy(views_of(tasks@)),
            index_of_id(views_of(tasks@), task@.id) is Some,
        ensures
            views_of(children@) == child_nodes(
                views_of(tasks@),
                index_of_id(views_of(tasks@), task@.id)->0,
            ),
        decreases
            tasks.len() - depth_of(
                views_of(tasks@),
                index_of_id(views_of(tasks@), task@.id)->0,
            ),
    {
        let n: usize = tasks.len();
        let ghost tv = views_of(tasks@);
        let ghost i = index_of_id(tv, task@.id)->0;
        let ghost fuel = (n - depth_of(tv, i)) as nat;
        proof {
            lemma_find_id(tv, task@.id, 0);
            lemma_depth_more_fuel(tv, i, n as nat, n as nat);
        }
        let mut children: Vec<DoistTask> = Vec::new();
        let mut j: usize = 0;
        while j < n
            invariant
                j <= n,
                n == tasks.len(),
                tv == views_of(tasks@),
                is_hierarchy(tv),
                index_of_id(tv, task@.id) == Some(i),
                0 <= i < n,
                tv[i].id == task@.id,
                fuel == n - depth_of(tv, i),
                depth_of(tv, i) <= n,
                views_of(children@) == subtrees_below(tv, Some(i), fuel, j as int),
            decreases n - j,
        {
            let is_child = match &tasks[j].parent_id {
                Some(p) => *p == task.id,
                None => false,
            };
            proof {
                lemma_parent_index(tv, j as int);
            }
            if is_child {
                proof {
                    lemma_parent_depth(tv, j as int);
                    lemma_index_of_own_id(tv, j as int);
                }
                let depth = match depth_of_task(tasks, j) {
                    Some(d) => d,
                    None => unreached(),
                };
                let subtasks = Self::build_tree(&tasks[j], tasks);
                let node = make_node(&tasks[j], depth, subtasks);
                children.push(node);
            }
            proof {
                lemma_subtrees_step(tv, Some(i), fuel, j as int);
            }
            j = j + 1;
        }
        children
    }

    /// The forest of a flat task list: the tasks without a parent in the
    /// list, in input order, each with its whole subtree and every task with
    /// its depth. A list with a duplicate identifier or a cycle is refused.
    pub fn build_forest(tasks: &Vec<DoistTask>) -> (built: Result<Vec<DoistTask>, OutlineError>)
        ensures
            match hierarchy_fault(views_of(tasks@)) {
                Some(fault) => built == Err::<Vec<DoistTask>, OutlineError>(fault),
                None => built matches Ok(forest) && views_of(forest@) == forest_of(
                    views_of(tasks@),
                ),
            },
            built matches Ok(forest) ==> {
                &&& forest_size(views_of(forest@)) == tasks.len()
                &&& forall|k: int|
                    0 <= k < forest.len() ==> (#[trigger] views_of(forest@)[k]).is_levelled(0)
            },
    {
        match check_hierarchy(tasks) {
            Err(fault) => {
                return Err(fault);
            },
            Ok(_) => {},
        }
        let n: usize = tasks.len();
        let ghost tv = views_of(tasks@);
        let mut forest: Vec<DoistTask> = Vec::new();
        let mut j: usize = 0;
        while j < n
            invariant
                j <= n,
                n == tasks.len(),
                tv == views_of(tasks@),
                is_hierarchy(tv),
                views_of(forest@) == subtrees_below(tv, None, (n + 1) as nat, j as int),
            decreases n - j,
        {
            if parent_of(tasks, j).is_none() {
                proof {
                    lemma_index_of_own_id(tv, j as int);
                }
                let subtasks = Self::build_tree(&tasks[j], tasks);
                let node = make_node(&tasks[j], 0, subtasks);
                forest.push(node);
            }
            proof {
                lemma_subtrees_step(tv, None, (n + 1) as nat, j as int);
            }
            j = j + 1;
        }
        proof {
            lemma_forest_keeps_every_task(tv);
            lemma_forest_is_levelled(tv);
        }
        Ok(forest)
    }
}

} // verus!
