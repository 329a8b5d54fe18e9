//! What the cycle check catches: exactly the lists in which some task is its
//! own ancestor.
//!
//! The check walks up from every task and gives up after as many hops as the
//! list has records. A task that is its own ancestor makes the walk from it
//! run on for ever, so the check reports it. And a walk that is still going
//! after that many hops has visited some record twice, which is then its own
//! ancestor.

use crate::error::OutlineError;
use crate::hierarchy::{
    ancestor, depth_within, has_duplicate_ids, hierarchy_fault, is_acyclic, lemma_index_of_own_id,
    lemma_parent_index, parent_index,
};
use crate::task::TaskView;
use vstd::prelude::*;
use vstd::set_lib::{lemma_int_range, lemma_len_subset, set_int_range};

verus! {

/// Hops add up: `a + b` hops lead where `b` hops lead from the record that
/// `a` hops lead to.
pub proof fn lemma_ancestor_add(tasks: Seq<TaskView>, j: int, a: nat, b: nat)
    ensures
        ancestor(tasks, j, a + b) == match ancestor(tasks, j, a) {
            Some(x) => ancestor(tasks, x, b),
            None => None,
        },
    decreases a,
{
    if a > 0 {
        if let Some(p) = parent_index(tasks, j) {
            lemma_ancestor_add(tasks, p, (a - 1) as nat, b);
        }
    }
}

/// Above the root that a counted walk ends at there is nothing.
proof fn lemma_no_ancestor_above_depth(tasks: Seq<TaskView>, j: int, fuel: nat, h: nat)
    requires
        depth_within(tasks, j, fuel) is Some,
        h > depth_within(tasks, j, fuel)->0,
    ensures
        ancestor(tasks, j, h) is None,
    decreases fuel,
{
    if let Some(p) = parent_index(tasks, j) {
        lemma_no_ancestor_above_depth(tasks, p, (fuel - 1) as nat, (h - 1) as nat);
    }
}

/// A record that is its own ancestor is so at distances beyond any bound.
proof fn lemma_round_again(tasks: Seq<TaskView>, j: int, k: nat, bound: nat) -> (h: nat)
    requires
        k >= 1,
        ancestor(tasks, j, k) == Some(j),
    ensures
        h > bound,
        ancestor(tasks, j, h) == Some(j),
    decreases bound,
{
    if bound == 0 {
        k
    } else {
        let h = lemma_round_again(tasks, j, k, (bound - 1) as nat);
        lemma_ancestor_add(tasks, j, h, k);
        h + k
    }
}

/// A list in which some task is its own ancestor, at whatever distance, does
/// not pass the cycle check.
pub proof fn lemma_own_ancestor_is_cyclic(tasks: Seq<TaskView>, j: int, k: nat)
    requires
        0 <= j < tasks.len(),
        k >= 1,
        ancestor(tasks, j, k) == Some(j),
    ensures
        !is_acyclic(tasks),
{
    if is_acyclic(tasks) {
        let d = depth_within(tasks, j, tasks.len())->0;
        let h = lemma_round_again(tasks, j, k, d);
        lemma_no_ancestor_above_depth(tasks, j, tasks.len(), h);
    }
}

/// Whether some task of the list is its own ancestor.
pub open spec fn has_own_ancestor(tasks: Seq<TaskView>) -> bool {
    exists|j: int, k: nat| 0 <= j < tasks.len() && k >= 1 && ancestor(tasks, j, k) == Some(j)
}

/// A walk that does not reach a root within `fuel` hops passes a record at
/// every distance up to `fuel + 1`, and each of them is a record of the list.
proof fn lemma_long_walk(tasks: Seq<TaskView>, j: int, fuel: nat, h: nat)
    requires
        0 <= j < tasks.len(),
        depth_within(tasks, j, fuel) is None,
        h <= fuel + 1,
    ensures
        ancestor(tasks, j, h) is Some,
        0 <= ancestor(tasks, j, h)->0 < tasks.len(),
    decreases fuel,
{
    if h > 0 {
        let p = parent_index(tasks, j)->0;
        lemma_parent_index(tasks, j);
        if fuel > 0 {
            lemma_long_walk(tasks, p, (fuel - 1) as nat, (h - 1) as nat);
        }
    }
}

/// More positions than there are records cannot all differ.
proof fn lemma_some_position_repeats(visited: Seq<int>, n: int) -> (pair: (int, int))
    requires
        0 <= n < visited.len(),
        forall|h: int| 0 <= h < visited.len() ==> 0 <= (#[trigger] visited[h]) < n,
    ensures
        0 <= pair.0 < pair.1 < visited.len(),
        visited[pair.0] == visited[pair.1],
{
    if visited.no_duplicates() {
        visited.unique_seq_to_set();
        lemma_int_range(0, n);
        lemma_len_subset(visited.to_set(), set_int_range(0, n));
    }
    let (a, b) = choose|a: int, b: int|
        0 <= a < visited.len() && 0 <= b < visited.len() && a != b && visited[a] == visited[b];
    if a < b {
        (a, b)
    } else {
        (b, a)
    }
}

/// The cycle check is exact: a list passes it if and only if no task is its
/// own ancestor.
pub proof fn lemma_cycle_check_is_exact(tasks: Seq<TaskView>)
    ensures
        is_acyclic(tasks) <==> !has_own_ancestor(tasks),
{
    let n = tasks.len();
    if has_own_ancestor(tasks) {
        let (j, k) = choose|j: int, k: nat|
            0 <= j < tasks.len() && k >= 1 && ancestor(tasks, j, k) == Some(j);
        lemma_own_ancestor_is_cyclic(tasks, j, k);
    }
    if !is_acyclic(tasks) {
        let j = choose|j: int| 0 <= j < n && (#[trigger] depth_within(tasks, j, n)) is None;
        let visited = Seq::new(n + 1, |h: int| ancestor(tasks, j, h as nat)->0);
        assert forall|h: int| 0 <= h < visited.len() implies 0 <= (#[trigger] visited[h]) < n by {
            lemma_long_walk(tasks, j, n, h as nat);
        }
        let (a, b) = lemma_some_position_repeats(visited, n as int);
        lemma_long_walk(tasks, j, n, b as nat);
        lemma_ancestor_add(tasks, j, a as nat, (b - a) as nat);
        assert(ancestor(tasks, visited[a], (b - a) as nat) == Some(visited[a]));
    }
}

/// A task that names itself as its parent makes the list a cyclic hierarchy.
pub proof fn lemma_self_reference_is_cyclic(tasks: Seq<TaskView>, j: int)
    requires
        !has_duplicate_ids(tasks),
        0 <= j < tasks.len(),
        tasks[j].parent_id == Some(tasks[j].id),
    ensures
        hierarchy_fault(tasks) == Some(OutlineError::CyclicHierarchy),
{
    lemma_index_of_own_id(tasks, j);
    assert(ancestor(tasks, j, 1) == Some(j)) by {
        assert(ancestor(tasks, j, 0) == Some(j));
    }
    lemma_own_ancestor_is_cyclic(tasks, j, 1);
}

/// Two tasks that name each other as parent make the list a cyclic
/// hierarchy.
pub proof fn lemma_mutual_parents_are_cyclic(tasks: Seq<TaskView>, a: int, b: int)
    requires
        !has_duplicate_ids(tasks),
        0 <= a < tasks.len(),
        0 <= b < tasks.len(),
        tasks[a].parent_id == Some(tasks[b].id),
        tasks[b].parent_id == Some(tasks[a].id),
    ensures
        hierarchy_fault(tasks) == Some(OutlineError::CyclicHierarchy),
{
    lemma_index_of_own_id(tasks, a);
    lemma_index_of_own_id(tasks, b);
    assert(ancestor(tasks, a, 2) == Some(a)) by {
        assert(ancestor(tasks, a, 0) == Some(a));
        assert(ancestor(tasks, b, 1) == Some(a));
    }
    lemma_own_ancestor_is_cyclic(tasks, a, 2);
}

} // verus!
