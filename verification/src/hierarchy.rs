//! The parent relation of a flat task list, stated over the tasks' values.
//!
//! A task names its parent by identifier. The parent of a task is the record
//! that carries this identifier; a task without a parent identifier, or with
//! one that no record carries, is a root.

use crate::error::OutlineError;
use crate::task::TaskView;
use vstd::prelude::*;

verus! {

/// Whether two records of the list share an identifier.
pub open spec fn has_duplicate_ids(tasks: Seq<TaskView>) -> bool {
    exists|i: int, j: int|
        #![trigger tasks[i], tasks[j]]
        0 <= i < j < tasks.len() && tasks[i].id == tasks[j].id
}

/// The position of the first record at or after `from` whose identifier is `id`.
pub open spec fn find_id(tasks: Seq<TaskView>, id: Seq<char>, from: int) -> Option<int>
    decreases tasks.len() - from,
{
    if from < 0 || from >= tasks.len() {
        None
    } else if tasks[from].id == id {
        Some(from)
    } else {
        find_id(tasks, id, from + 1)
    }
}

/// The position of the record whose identifier is `id`: the first one, should
/// there be several.
pub open spec fn index_of_id(tasks: Seq<TaskView>, id: Seq<char>) -> Option<int> {
    find_id(tasks, id, 0)
}

/// The position of the parent of the record at `j`, if it names one and a
/// record carries that identifier.
pub open spec fn parent_index(tasks: Seq<TaskView>, j: int) -> Option<int> {
    match tasks[j].parent_id {
        Some(p) => index_of_id(tasks, p),
        None => None,
    }
}

/// The number of hops from the record at `j` up to a root, if at most `fuel`
/// hops lead there.
pub open spec fn depth_within(tasks: Seq<TaskView>, j: int, fuel: nat) -> Option<nat>
    decreases fuel,
{
    match parent_index(tasks, j) {
        None => Some(0),
        Some(p) => if fuel == 0 {
            None
        } else {
            match depth_within(tasks, p, (fuel - 1) as nat) {
                Some(d) => Some(d + 1),
                None => None,
            }
        },
    }
}

/// Whether every record reaches a root within as many hops as there are
/// records.
pub open spec fn is_acyclic(tasks: Seq<TaskView>) -> bool {
    forall|j: int| 0 <= j < tasks.len() ==> (#[trigger] depth_within(tasks, j, tasks.len())) is Some
}

/// Whether the list describes a forest: identifiers are unique and no parent
/// chain runs in a circle.
pub open spec fn is_hierarchy(tasks: Seq<TaskView>) -> bool {
    !has_duplicate_ids(tasks) && is_acyclic(tasks)
}

/// What is wrong with the list, if anything. Duplicate identifiers are
/// reported before cycles, because with duplicates a parent reference is
/// ambiguous.
pub open spec fn hierarchy_fault(tasks: Seq<TaskView>) -> Option<OutlineError> {
    if has_duplicate_ids(tasks) {
        Some(OutlineError::DuplicateIdentifier)
    } else if !is_acyclic(tasks) {
        Some(OutlineError::CyclicHierarchy)
    } else {
        None
    }
}

/// The depth of the record at `j`: the number of its ancestors.
pub open spec fn depth_of(tasks: Seq<TaskView>, j: int) -> nat {
    match depth_within(tasks, j, tasks.len()) {
        Some(d) => d,
        None => 0,
    }
}

/// The record `k` hops up the parent chain from the record at `j`.
pub open spec fn ancestor(tasks: Seq<TaskView>, j: int, k: nat) -> Option<int>
    decreases k,
{
    if k == 0 {
        Some(j)
    } else {
        match parent_index(tasks, j) {
            Some(p) => ancestor(tasks, p, (k - 1) as nat),
            None => None,
        }
    }
}

/// The positions below `k` of the records whose parent is `parent`, in
/// ascending order. With `None` for `parent` these are the roots.
pub open spec fn members_below(tasks: Seq<TaskView>, parent: Option<int>, k: int) -> Seq<int>
    decreases k,
{
    if k <= 0 {
        Seq::empty()
    } else if parent_index(tasks, k - 1) == parent {
        members_below(tasks, parent, k - 1).push(k - 1)
    } else {
        members_below(tasks, parent, k - 1)
    }
}

/// The positions of the records whose parent is `parent`, in input order.
pub open spec fn members(tasks: Seq<TaskView>, parent: Option<int>) -> Seq<int> {
    members_below(tasks, parent, tasks.len() as int)
}

/// The tree below the record at `j`, as far as `fuel` levels of children
/// reach: the record's own fields, its depth, and the trees of its children.
pub open spec fn subtree(tasks: Seq<TaskView>, j: int, fuel: nat) -> TaskView
    decreases fuel, 1nat,
{
    TaskView {
        id: tasks[j].id,
        parent_id: tasks[j].parent_id,
        content: tasks[j].content,
        description: tasks[j].description,
        depth: depth_of(tasks, j),
        subtasks: subtrees_below(tasks, Some(j), fuel, tasks.len() as int),
    }
}

/// The trees of the records below position `k` whose parent is `parent`, in
/// input order, if `fuel` allows for another level.
pub open spec fn subtrees_below(
    tasks: Seq<TaskView>,
    parent: Option<int>,
    fuel: nat,
    k: int,
) -> Seq<TaskView>
    decreases fuel, 0nat,
{
    if fuel == 0 {
        Seq::empty()
    } else {
        Seq::new(
            members_below(tasks, parent, k).len(),
            |m: int| subtree(tasks, members_below(tasks, parent, k)[m], (fuel - 1) as nat),
        )
    }
}

/// The trees of all the records whose parent is `parent`, in input order.
pub open spec fn subtrees(tasks: Seq<TaskView>, parent: Option<int>, fuel: nat) -> Seq<TaskView> {
    subtrees_below(tasks, parent, fuel, tasks.len() as int)
}

/// The node of the record at `j` in the forest: the record with its whole
/// subtree. A record at depth `d` has `tasks.len() - d` levels at most below
/// it.
pub open spec fn node_at(tasks: Seq<TaskView>, j: int) -> TaskView {
    subtree(tasks, j, (tasks.len() - depth_of(tasks, j)) as nat)
}

/// The children of the record at `i`, each with its whole subtree.
pub open spec fn child_nodes(tasks: Seq<TaskView>, i: int) -> Seq<TaskView> {
    node_at(tasks, i).subtasks
}

/// The forest of the list: the roots in input order, each with its subtree.
pub open spec fn forest_of(tasks: Seq<TaskView>) -> Seq<TaskView> {
    subtrees(tasks, None, tasks.len() + 1)
}

/// What `find_id` returns: the first position from `from` on that carries
/// `id`, or nothing where no position from `from` on carries it.
pub proof fn lemma_find_id(tasks: Seq<TaskView>, id: Seq<char>, from: int)
    requires
        0 <= from,
    ensures
        match find_id(tasks, id, from) {
            Some(k) => {
                &&& from <= k < tasks.len()
                &&& tasks[k].id == id
                &&& forall|m: int| from <= m < k ==> tasks[m].id != id
            },
            None => forall|m: int| from <= m < tasks.len() ==> tasks[m].id != id,
        },
    decreases tasks.len() - from,
{
    if from < tasks.len() && tasks[from].id != id {
        lemma_find_id(tasks, id, from + 1);
    }
}

/// Where identifiers are unique, a record is found under its own identifier.
pub proof fn lemma_index_of_own_id(tasks: Seq<TaskView>, i: int)
    requires
        !has_duplicate_ids(tasks),
        0 <= i < tasks.len(),
    ensures
        index_of_id(tasks, tasks[i].id) == Some(i),
{
    lemma_find_id(tasks, tasks[i].id, 0);
}

/// A parent is a record of the list, and it carries the identifier that the
/// child names.
pub proof fn lemma_parent_index(tasks: Seq<TaskView>, j: int)
    ensures
        parent_index(tasks, j) matches Some(p) ==> 0 <= p < tasks.len() && tasks[j].parent_id
            == Some(tasks[p].id),
{
    if let Some(id) = tasks[j].parent_id {
        lemma_find_id(tasks, id, 0);
    }
}

/// A depth that is found within `fuel` hops is at most `fuel`, and more fuel
/// finds the same.
pub proof fn lemma_depth_more_fuel(tasks: Seq<TaskView>, j: int, fuel: nat, more: nat)
    requires
        depth_within(tasks, j, fuel) is Some,
        fuel <= more,
    ensures
        depth_within(tasks, j, more) == depth_within(tasks, j, fuel),
        depth_within(tasks, j, fuel)->0 <= fuel,
    decreases fuel,
{
    if let Some(p) = parent_index(tasks, j) {
        lemma_depth_more_fuel(tasks, p, (fuel - 1) as nat, (more - 1) as nat);
    }
}

/// In a list without cycles, a record lies one level below its parent.
pub proof fn lemma_parent_depth(tasks: Seq<TaskView>, j: int)
    requires
        is_acyclic(tasks),
        0 <= j < tasks.len(),
        parent_index(tasks, j) is Some,
    ensures
        depth_of(tasks, j) == depth_of(tasks, parent_index(tasks, j)->0) + 1,
        depth_of(tasks, j) <= tasks.len(),
{
    let p = parent_index(tasks, j)->0;
    let n = tasks.len();
    lemma_depth_more_fuel(tasks, p, (n - 1) as nat, n);
}

/// What `members_below` holds: exactly the positions below `k` whose parent
/// is `parent`, each once, in ascending order.
pub proof fn lemma_members_below(tasks: Seq<TaskView>, parent: Option<int>, k: int)
    ensures
        forall|m: int|
            0 <= m < members_below(tasks, parent, k).len() ==> {
                &&& 0 <= (#[trigger] members_below(tasks, parent, k)[m]) < k
                &&& parent_index(tasks, members_below(tasks, parent, k)[m]) == parent
            },
        forall|a: int, b: int|
            0 <= a < b < members_below(tasks, parent, k).len() ==> members_below(tasks, parent, k)[a]
                < members_below(tasks, parent, k)[b],
        forall|j: int|
            0 <= j < k && parent_index(tasks, j) == parent ==> members_below(
                tasks,
                parent,
                k,
            ).contains(j),
    decreases k,
{
    if k > 0 {
        lemma_members_below(tasks, parent, k - 1);
        let before = members_below(tasks, parent, k - 1);
        let now = members_below(tasks, parent, k);
        if parent_index(tasks, k - 1) == parent {
            assert(now[before.len() as int] == k - 1);
            assert forall|j: int| 0 <= j < k && parent_index(tasks, j) == parent implies now.contains(
                j,
            ) by {
                if j < k - 1 {
                    let m = choose|m: int| 0 <= m < before.len() && before[m] == j;
                    assert(now[m] == j);
                }
            }
        }
    }
}

/// How the trees of the members below `k + 1` come from those below `k`: the
/// tree of the record at `k` is added at the end if it is a member.
pub proof fn lemma_subtrees_step(tasks: Seq<TaskView>, parent: Option<int>, fuel: nat, k: int)
    requires
        0 <= k,
    ensures
        subtrees_below(tasks, parent, fuel, k + 1) == if fuel > 0 && parent_index(tasks, k)
            == parent {
            subtrees_below(tasks, parent, fuel, k).push(subtree(tasks, k, (fuel - 1) as nat))
        } else {
            subtrees_below(tasks, parent, fuel, k)
        },
{
}

} // verus!
