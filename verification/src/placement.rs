//! Where the tasks of a list go in its forest.
//!
//! Every task has exactly one place, a task without a parent in the list is a
//! root, and every task lies one level below its parent.
//!
//! The proof of the first counts. The tasks that lie below a record, the
//! record included, are as many as its subtree has nodes; the tasks below the
//! roots are all the tasks, each below one root only.

use crate::hierarchy::{
    ancestor, depth_of, forest_of, is_acyclic, is_hierarchy, lemma_find_id,
    lemma_members_below, lemma_parent_depth, lemma_parent_index, lemma_subtrees_step, members,
    members_below, node_at, parent_index, subtree, subtrees_below,
};
use crate::task::{forest_size, TaskView};
use vstd::prelude::*;
use vstd::set_lib::{lemma_int_range, lemma_set_disjoint_lens, lemma_set_subset_finite, set_int_range};

verus! {

/// Whether the record at `j` is the record at `i` or one of its descendants.
pub open spec fn lies_below(tasks: Seq<TaskView>, i: int, j: int) -> bool {
    depth_of(tasks, j) >= depth_of(tasks, i) && ancestor(
        tasks,
        j,
        (depth_of(tasks, j) - depth_of(tasks, i)) as nat,
    ) == Some(i)
}

/// The positions of the record at `i` and of its descendants.
pub open spec fn subtree_set(tasks: Seq<TaskView>, i: int) -> Set<int> {
    Set::new(|j: int| 0 <= j < tasks.len() && lies_below(tasks, i, j))
}

/// The positions of the records that lie below one of `tops`.
pub open spec fn spread(tasks: Seq<TaskView>, tops: Seq<int>) -> Set<int> {
    Set::new(
        |j: int|
            0 <= j < tasks.len() && exists|m: int|
                0 <= m < tops.len() && lies_below(tasks, #[trigger] tops[m], j),
    )
}

/// One hop more leads to the parent of where the hops before led.
proof fn lemma_ancestor_step(tasks: Seq<TaskView>, j: int, k: nat)
    ensures
        ancestor(tasks, j, k + 1) == match ancestor(tasks, j, k) {
            Some(a) => parent_index(tasks, a),
            None => None,
        },
    decreases k,
{
    if k > 0 {
        if let Some(p) = parent_index(tasks, j) {
            lemma_ancestor_step(tasks, p, (k - 1) as nat);
        }
    } else {
        if let Some(p) = parent_index(tasks, j) {
            assert(ancestor(tasks, p, 0) == Some(p));
        }
    }
}

/// An ancestor is a record of the list, and it lies as many levels higher as
/// hops lead to it.
proof fn lemma_ancestor_depth(tasks: Seq<TaskView>, j: int, k: nat)
    requires
        is_acyclic(tasks),
        0 <= j < tasks.len(),
        ancestor(tasks, j, k) is Some,
    ensures
        0 <= ancestor(tasks, j, k)->0 < tasks.len(),
        depth_of(tasks, j) == depth_of(tasks, ancestor(tasks, j, k)->0) + k,
    decreases k,
{
    if k > 0 {
        let p = parent_index(tasks, j)->0;
        lemma_parent_index(tasks, j);
        lemma_parent_depth(tasks, j);
        lemma_ancestor_depth(tasks, p, (k - 1) as nat);
    }
}

/// A record has an ancestor at every distance up to its depth.
proof fn lemma_ancestor_exists(tasks: Seq<TaskView>, j: int, k: nat)
    requires
        is_acyclic(tasks),
        0 <= j < tasks.len(),
        k <= depth_of(tasks, j),
    ensures
        ancestor(tasks, j, k) is Some,
    decreases k,
{
    if k > 0 {
        let p = parent_index(tasks, j)->0;
        lemma_parent_index(tasks, j);
        lemma_parent_depth(tasks, j);
        lemma_ancestor_exists(tasks, p, (k - 1) as nat);
    }
}

/// The members of one parent lie at one depth: zero for the roots, one below
/// the parent otherwise.
proof fn lemma_member_depth(tasks: Seq<TaskView>, parent: Option<int>, c: int)
    requires
        is_acyclic(tasks),
        0 <= c < tasks.len(),
        parent_index(tasks, c) == parent,
    ensures
        depth_of(tasks, c) == match parent {
            Some(i) => depth_of(tasks, i) + 1,
            None => 0,
        },
        depth_of(tasks, c) <= tasks.len(),
{
    if parent is Some {
        lemma_parent_depth(tasks, c);
    }
}

/// The tasks below a record are the record itself and the tasks below its
/// children.
proof fn lemma_subtree_set_split(tasks: Seq<TaskView>, i: int)
    requires
        is_acyclic(tasks),
        0 <= i < tasks.len(),
    ensures
        subtree_set(tasks, i) == spread(tasks, members(tasks, Some(i))).insert(i),
        !spread(tasks, members(tasks, Some(i))).contains(i),
{
    let kids = members(tasks, Some(i));
    let n = tasks.len() as int;
    lemma_members_below(tasks, Some(i), n);
    assert forall|j: int| subtree_set(tasks, i).contains(j) implies spread(tasks, kids).insert(
        i,
    ).contains(j) by {
        if j != i {
            let dj = depth_of(tasks, j);
            let di = depth_of(tasks, i);
            let k = (dj - di - 1) as nat;
            lemma_ancestor_exists(tasks, j, k);
            lemma_ancestor_depth(tasks, j, k);
            lemma_ancestor_step(tasks, j, k);
            let c = ancestor(tasks, j, k)->0;
            assert(kids.contains(c));
            let m = choose|m: int| 0 <= m < kids.len() && kids[m] == c;
            assert(lies_below(tasks, kids[m], j));
        }
    }
    assert forall|j: int| spread(tasks, kids).contains(j) implies subtree_set(tasks, i).contains(
        j,
    ) && j != i by {
        let m = choose|m: int| 0 <= m < kids.len() && lies_below(tasks, #[trigger] kids[m], j);
        let c = kids[m];
        lemma_member_depth(tasks, Some(i), c);
        let k = (depth_of(tasks, j) - depth_of(tasks, c)) as nat;
        lemma_ancestor_step(tasks, j, k);
    }
}

/// Every task lies below a root.
proof fn lemma_roots_cover(tasks: Seq<TaskView>)
    requires
        is_acyclic(tasks),
    ensures
        spread(tasks, members(tasks, None)) == set_int_range(0, tasks.len() as int),
{
    let roots = members(tasks, None);
    let n = tasks.len() as int;
    lemma_members_below(tasks, None, n);
    assert forall|j: int| 0 <= j < n implies spread(tasks, roots).contains(j) by {
        let dj = depth_of(tasks, j);
        lemma_ancestor_exists(tasks, j, dj);
        lemma_ancestor_depth(tasks, j, dj);
        let r = ancestor(tasks, j, dj)->0;
        assert(roots.contains(r));
        let m = choose|m: int| 0 <= m < roots.len() && roots[m] == r;
        assert(lies_below(tasks, roots[m], j));
    }
}

/// The sets this proof counts hold positions of the list only, so they are
/// finite.
proof fn lemma_spread_finite(tasks: Seq<TaskView>, tops: Seq<int>)
    ensures
        spread(tasks, tops).finite(),
{
    lemma_int_range(0, tasks.len() as int);
    lemma_set_subset_finite(set_int_range(0, tasks.len() as int), spread(tasks, tops));
}

/// One more top adds the tasks below it, and none of them was there before
/// if the tops are distinct and lie at one depth.
proof fn lemma_spread_push(tasks: Seq<TaskView>, tops: Seq<int>, c: int)
    requires
        forall|m: int|
            0 <= m < tops.len() ==> (#[trigger] tops[m]) != c && depth_of(tasks, tops[m])
                == depth_of(tasks, c),
    ensures
        spread(tasks, tops.push(c)) == spread(tasks, tops) + subtree_set(tasks, c),
        spread(tasks, tops).disjoint(subtree_set(tasks, c)),
{
    let more = tops.push(c);
    assert forall|j: int| spread(tasks, more).contains(j) implies (spread(tasks, tops)
        + subtree_set(tasks, c)).contains(j) by {
        let m = choose|m: int| 0 <= m < more.len() && lies_below(tasks, #[trigger] more[m], j);
        if m < tops.len() {
            assert(lies_below(tasks, tops[m], j));
        }
    }
    assert forall|j: int| (spread(tasks, tops) + subtree_set(tasks, c)).contains(
        j,
    ) implies spread(tasks, more).contains(j) by {
        if spread(tasks, tops).contains(j) {
            let m = choose|m: int| 0 <= m < tops.len() && lies_below(tasks, #[trigger] tops[m], j);
            assert(lies_below(tasks, more[m], j));
        } else {
            assert(lies_below(tasks, more[tops.len() as int], j));
        }
    }
}

/// The trees of the members below `k` have as many nodes as there are tasks
/// below these members.
proof fn lemma_size_of_subtrees(tasks: Seq<TaskView>, parent: Option<int>, fuel: nat, k: int)
    requires
        is_acyclic(tasks),
        0 <= k <= tasks.len(),
        match parent {
            Some(i) => 0 <= i < tasks.len() && fuel == tasks.len() - depth_of(tasks, i),
            None => fuel == tasks.len() + 1,
        },
    ensures
        forest_size(subtrees_below(tasks, parent, fuel, k)) == spread(
            tasks,
            members_below(tasks, parent, k),
        ).len(),
    decreases fuel, k,
{
    let n = tasks.len() as int;
    let tops = members_below(tasks, parent, k);
    if k == 0 {
        assert(spread(tasks, tops) =~= Set::empty());
    } else {
        let c = k - 1;
        let before = members_below(tasks, parent, c);
        lemma_members_below(tasks, parent, c);
        lemma_size_of_subtrees(tasks, parent, fuel, c);
        lemma_subtrees_step(tasks, parent, fuel, c);
        if parent_index(tasks, c) == parent {
            lemma_member_depth(tasks, parent, c);
            let below = (fuel - 1) as nat;
            lemma_size_of_subtrees(tasks, Some(c), below, n);
            lemma_subtree_set_split(tasks, c);
            let kids = members(tasks, Some(c));
            lemma_spread_finite(tasks, kids);
            assert(subtree(tasks, c, below).size() == subtree_set(tasks, c).len());
            let trees = subtrees_below(tasks, parent, fuel, c);
            assert(trees.push(subtree(tasks, c, below)).drop_last() =~= trees);
            assert forall|m: int| 0 <= m < before.len() implies (#[trigger] before[m]) != c
                && depth_of(tasks, before[m]) == depth_of(tasks, c) by {
                lemma_member_depth(tasks, parent, before[m]);
            }
            lemma_spread_push(tasks, before, c);
            lemma_spread_finite(tasks, before);
            lemma_set_disjoint_lens(spread(tasks, before), subtree_set(tasks, c));
        }
    }
}

/// No task is dropped and none is duplicated: the forest of a hierarchy has
/// as many nodes, descendants included, as the list has records.
pub proof fn lemma_forest_keeps_every_task(tasks: Seq<TaskView>)
    requires
        is_hierarchy(tasks),
    ensures
        forest_size(forest_of(tasks)) == tasks.len(),
{
    let n = tasks.len() as int;
    lemma_size_of_subtrees(tasks, None, (n + 1) as nat, n);
    lemma_roots_cover(tasks);
    lemma_int_range(0, n);
}

/// The tree below a record starts at the record's depth and is levelled.
proof fn lemma_subtree_levelled(tasks: Seq<TaskView>, j: int, fuel: nat)
    requires
        is_acyclic(tasks),
        0 <= j < tasks.len(),
    ensures
        subtree(tasks, j, fuel).is_levelled(depth_of(tasks, j)),
    decreases fuel,
{
    let node = subtree(tasks, j, fuel);
    let kids = members(tasks, Some(j));
    lemma_members_below(tasks, Some(j), tasks.len() as int);
    assert forall|k: int| 0 <= k < node.subtasks.len() implies (#[trigger] node.subtasks[k]).is_levelled(
        depth_of(tasks, j) + 1,
    ) by {
        lemma_member_depth(tasks, Some(j), kids[k]);
        lemma_subtree_levelled(tasks, kids[k], (fuel - 1) as nat);
    }
}

/// In the forest of a hierarchy the roots have depth zero, and every other
/// task has the depth of its parent and one more.
pub proof fn lemma_forest_is_levelled(tasks: Seq<TaskView>)
    requires
        is_hierarchy(tasks),
    ensures
        forall|k: int|
            0 <= k < forest_of(tasks).len() ==> (#[trigger] forest_of(tasks)[k]).is_levelled(0),
{
    let roots = members(tasks, None);
    lemma_members_below(tasks, None, tasks.len() as int);
    assert forall|k: int| 0 <= k < forest_of(tasks).len() implies (#[trigger] forest_of(
        tasks,
    )[k]).is_levelled(0) by {
        lemma_subtree_levelled(tasks, roots[k], tasks.len());
    }
}

/// A task whose parent identifier no record carries is not dropped: it is a
/// root of the forest, at depth zero, with its subtree.
pub proof fn lemma_unresolved_parent_is_root(tasks: Seq<TaskView>, j: int)
    requires
        0 <= j < tasks.len(),
        tasks[j].parent_id is Some,
        forall|i: int| 0 <= i < tasks.len() ==> (#[trigger] tasks[i]).id != tasks[j].parent_id->0,
    ensures
        subtree(tasks, j, tasks.len()).depth == 0,
        exists|k: int|
            0 <= k < forest_of(tasks).len() && (#[trigger] forest_of(tasks)[k]) == subtree(
                tasks,
                j,
                tasks.len(),
            ),
{
    let roots = members(tasks, None);
    lemma_find_id(tasks, tasks[j].parent_id->0, 0);
    lemma_members_below(tasks, None, tasks.len() as int);
    assert(roots.contains(j));
    let k = choose|k: int| 0 <= k < roots.len() && roots[k] == j;
    assert(forest_of(tasks)[k] == subtree(tasks, j, tasks.len()));
}

/// The children of a node are the nodes of the records that name its record
/// as parent, in input order.
proof fn lemma_node_children(tasks: Seq<TaskView>, j: int)
    requires
        is_acyclic(tasks),
        0 <= j < tasks.len(),
    ensures
        node_at(tasks, j).subtasks.len() == members(tasks, Some(j)).len(),
        forall|m: int|
            0 <= m < members(tasks, Some(j)).len() ==> (#[trigger] node_at(tasks, j).subtasks[m])
                == node_at(tasks, members(tasks, Some(j))[m]),
{
    let kids = members(tasks, Some(j));
    lemma_members_below(tasks, Some(j), tasks.len() as int);
    assert forall|m: int| 0 <= m < kids.len() implies depth_of(tasks, #[trigger] kids[m])
        == depth_of(tasks, j) + 1 && depth_of(tasks, kids[m]) <= tasks.len() by {
        lemma_member_depth(tasks, Some(j), kids[m]);
    }
    if kids.len() > 0 {
        assert(depth_of(tasks, kids[0]) <= tasks.len());
    }
}

/// The node of a record holds the node of each record below it.
proof fn lemma_ancestor_holds(tasks: Seq<TaskView>, j: int, h: nat)
    requires
        is_acyclic(tasks),
        0 <= j < tasks.len(),
        h <= depth_of(tasks, j),
    ensures
        ancestor(tasks, j, h) is Some,
        node_at(tasks, ancestor(tasks, j, h)->0).holds(node_at(tasks, j)),
    decreases h,
{
    if h > 0 {
        let below = (h - 1) as nat;
        lemma_ancestor_holds(tasks, j, below);
        lemma_ancestor_depth(tasks, j, below);
        lemma_ancestor_step(tasks, j, below);
        let a = ancestor(tasks, j, below)->0;
        let up = ancestor(tasks, j, h)->0;
        lemma_ancestor_depth(tasks, j, h);
        lemma_members_below(tasks, Some(up), tasks.len() as int);
        lemma_node_children(tasks, up);
        let kids = members(tasks, Some(up));
        assert(kids.contains(a));
        let m = choose|m: int| 0 <= m < kids.len() && kids[m] == a;
        assert(node_at(tasks, up).subtasks[m].holds(node_at(tasks, j)));
    }
}

/// No task is dropped: the forest of a hierarchy holds the node of every
/// record of the list, below the root that the record's parent chain ends at.
pub proof fn lemma_every_task_is_placed(tasks: Seq<TaskView>, j: int)
    requires
        is_hierarchy(tasks),
        0 <= j < tasks.len(),
    ensures
        node_at(tasks, j).id == tasks[j].id,
        node_at(tasks, j).content == tasks[j].content,
        node_at(tasks, j).description == tasks[j].description,
        exists|k: int|
            0 <= k < forest_of(tasks).len() && (#[trigger] forest_of(tasks)[k]).holds(
                node_at(tasks, j),
            ),
{
    let d = depth_of(tasks, j);
    lemma_ancestor_holds(tasks, j, d);
    lemma_ancestor_depth(tasks, j, d);
    let r = ancestor(tasks, j, d)->0;
    let roots = members(tasks, None);
    lemma_members_below(tasks, None, tasks.len() as int);
    assert(roots.contains(r));
    let k = choose|k: int| 0 <= k < roots.len() && roots[k] == r;
    assert(forest_of(tasks)[k] == node_at(tasks, r));
}

/// The shape of the forest of a hierarchy. Its roots are the nodes of the
/// records without a parent in the list, in input order. The node of a record
/// carries the record's fields and its depth, and its children are the nodes
/// of the records that name it as parent, in input order.
pub proof fn lemma_forest_shape(tasks: Seq<TaskView>)
    requires
        is_hierarchy(tasks),
    ensures
        forest_of(tasks).len() == members(tasks, None).len(),
        forall|k: int|
            0 <= k < forest_of(tasks).len() ==> (#[trigger] forest_of(tasks)[k]) == node_at(
                tasks,
                members(tasks, None)[k],
            ),
        forall|j: int|
            0 <= j < tasks.len() ==> {
                &&& (#[trigger] node_at(tasks, j)).id == tasks[j].id
                &&& node_at(tasks, j).parent_id == tasks[j].parent_id
                &&& node_at(tasks, j).content == tasks[j].content
                &&& node_at(tasks, j).description == tasks[j].description
                &&& node_at(tasks, j).depth == depth_of(tasks, j)
                &&& node_at(tasks, j).subtasks.len() == members(tasks, Some(j)).len()
            },
        forall|j: int, m: int|
            0 <= j < tasks.len() && 0 <= m < members(tasks, Some(j)).len() ==> (#[trigger] node_at(
                tasks,
                j,
            ).subtasks[m]) == node_at(tasks, members(tasks, Some(j))[m]),
{
    let n = tasks.len() as int;
    lemma_members_below(tasks, None, n);
    assert forall|k: int| 0 <= k < forest_of(tasks).len() implies (#[trigger] forest_of(tasks)[k])
        == node_at(tasks, members(tasks, None)[k]) by {
        lemma_member_depth(tasks, None, members(tasks, None)[k]);
    }
    assert forall|j: int| 0 <= j < tasks.len() implies (#[trigger] node_at(tasks, j)).subtasks.len()
        == members(tasks, Some(j)).len() by {
        lemma_node_children(tasks, j);
    }
    assert forall|j: int, m: int|
        0 <= j < tasks.len() && 0 <= m < members(tasks, Some(j)).len() implies (#[trigger] node_at(
        tasks,
        j,
    ).subtasks[m]) == node_at(tasks, members(tasks, Some(j))[m]) by {
        lemma_node_children(tasks, j);
    }
}

} // verus!
