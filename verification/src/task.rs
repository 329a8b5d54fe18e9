//! Task records, the trees they form, and their rendering as nested headings.

use crate::text::{push_repeated, repeated, strip_heading_prefix, without_heading_prefix, MARKER};
use vstd::prelude::*;
use vstd::string::*;

verus! {

/// One task. As fetched it is flat: `subtasks` is empty and `depth` carries no
/// meaning. In a forest, `subtasks` holds the tasks that name it as their
/// parent and `depth` counts the ancestors.
#[derive(Debug, PartialEq, Eq)]
pub struct DoistTask {
    pub id: String,
    pub parent_id: Option<String>,
    pub content: String,
    pub description: String,
    pub depth: usize,
    pub subtasks: Vec<DoistTask>,
}

/// The mathematical value of a [`DoistTask`].
pub ghost struct TaskView {
    pub id: Seq<char>,
    pub parent_id: Option<Seq<char>>,
    pub content: Seq<char>,
    pub description: Seq<char>,
    pub depth: nat,
    pub subtasks: Seq<TaskView>,
}

impl View for DoistTask {
    type V = TaskView;

    open spec fn view(&self) -> TaskView {
        task_view(*self)
    }
}

/// The value of a task: its fields' values, and its subtasks' values in order.
pub open spec fn task_view(task: DoistTask) -> TaskView
    decreases task,
{
    TaskView {
        id: task.id@,
        parent_id: match task.parent_id {
            Some(p) => Some(p@),
            None => None,
        },
        content: task.content@,
        description: task.description@,
        depth: task.depth as nat,
        subtasks: Seq::new(
            task.subtasks.len() as nat,
            |i: int|
                if 0 <= i < task.subtasks.len() {
                    task_view(task.subtasks[i])
                } else {
                    arbitrary()
                },
        ),
    }
}

/// The values of a list of tasks, one by one.
pub open spec fn views_of(tasks: Seq<DoistTask>) -> Seq<TaskView> {
    Seq::new(tasks.len(), |i: int| tasks[i]@)
}

impl TaskView {
    /// The heading line of the task below a project whose own level is
    /// `base`: `base + depth + 1` markers, a space, the content without a
    /// heading prefix of its own, and a line break.
    pub open spec fn heading(self, base: nat) -> Seq<char> {
        repeated(MARKER, base + self.depth + 1) + seq![' '] + without_heading_prefix(self.content)
            + seq!['\n']
    }

    /// The heading line and the description line. The description line is
    /// there even when the description is empty.
    pub open spec fn own_lines(self, base: nat) -> Seq<char> {
        self.heading(base) + self.description + seq!['\n']
    }

    /// The text of the whole subtree: the task's own lines, then each child's
    /// subtree in order, a line break before each.
    pub open spec fn outline(self, base: nat) -> Seq<char>
        decreases self, self.subtasks.len() + 1,
    {
        self.own_lines(base) + self.children_outline(base, self.subtasks.len())
    }

    /// The text of the first `k` children's subtrees, a line break before each.
    pub open spec fn children_outline(self, base: nat, k: nat) -> Seq<char>
        decreases self, k,
    {
        if k == 0 || k > self.subtasks.len() {
            Seq::empty()
        } else {
            self.children_outline(base, (k - 1) as nat) + seq!['\n'] + self.subtasks[k - 1].outline(
                base,
            )
        }
    }

    /// Where the text of the child at `k` starts in the outline: after the
    /// task's own lines, the text of the children before it, and the line
    /// break that separates it from them.
    pub open spec fn child_start(self, base: nat, k: nat) -> nat {
        self.own_lines(base).len() + self.children_outline(base, k).len() + 1
    }

    /// Whether the task lies at depth `d` and every task below it lies one
    /// level below its parent.
    pub open spec fn is_levelled(self, d: nat) -> bool
        decreases self,
    {
        &&& self.depth == d
        &&& forall|k: int|
            0 <= k < self.subtasks.len() ==> (#[trigger] self.subtasks[k]).is_levelled(d + 1)
    }

    /// Whether `other` is the task itself or one of the tasks below it, with
    /// its subtree.
    pub open spec fn holds(self, other: TaskView) -> bool
        decreases self,
    {
        self == other || exists|k: int|
            0 <= k < self.subtasks.len() && (#[trigger] self.subtasks[k]).holds(other)
    }

    /// The number of tasks in the subtree, the task itself included.
    pub open spec fn size(self) -> nat
        decreases self,
    {
        1 + forest_size(self.subtasks)
    }
}

/// The number of tasks in a forest, descendants included.
pub open spec fn forest_size(forest: Seq<TaskView>) -> nat
    decreases forest,
{
    if forest.len() == 0 {
        0
    } else {
        forest_size(forest.drop_last()) + forest.last().size()
    }
}

impl Clone for DoistTask {
    /// A copy of the whole subtree.
    fn clone(&self) -> (copy: Self)
        ensures
            copy@ == self@,
        decreases self,
    {
        let mut subtasks: Vec<DoistTask> = Vec::new();
        let mut i: usize = 0;
        while i < self.subtasks.len()
            invariant
                i <= self.subtasks.len(),
                subtasks.len() == i,
                forall|k: int| 0 <= k < i ==> subtasks[k]@ == self.subtasks[k]@,
            decreases self.subtasks.len() - i,
        {
            subtasks.push(self.subtasks[i].clone());
            i = i + 1;
        }
        let copy = DoistTask {
            id: self.id.clone(),
            parent_id: match &self.parent_id {
                Some(p) => Some(p.clone()),
                None => None,
            },
            content: self.content.clone(),
            description: self.description.clone(),
            depth: self.depth,
            subtasks,
        };
        assert(copy@.subtasks =~= self@.subtasks);
        copy
    }
}

impl DoistTask {
    /// A flat record, as the fetch layer hands it over.
    pub fn new(id: String, parent_id: Option<String>, content: String, description: String) -> (task:
        Self)
        ensures
            task@ == (TaskView {
                id: id@,
                parent_id: match parent_id {
                    Some(p) => Some(p@),
                    None => None,
                },
                content: content@,
                description: description@,
                depth: 0,
                subtasks: Seq::empty(),
            }),
    {
        let task = DoistTask { id, parent_id, content, description, depth: 0, subtasks: Vec::new() };
        assert(task@.subtasks =~= Seq::empty());
        task
    }

    /// Renders the subtree as nested headings, depth first, below a project
    /// heading of level `base_depth`.
    pub fn print_task(&self, base_depth: usize) -> (text: String)
        ensures
            text@ == self@.outline(base_depth as nat),
        decreases self,
    {
        let mut text = String::new();
        push_repeated(&mut text, MARKER, base_depth);
        push_repeated(&mut text, MARKER, self.depth);
        text.push(MARKER);
        text.push(' ');
        let content = strip_heading_prefix(self.content.as_str());
        text.append(content.as_str());
        text.push('\n');
        text.append(self.description.as_str());
        text.push('\n');
        let mut i: usize = 0;
        while i < self.subtasks.len()
            invariant
                i <= self.subtasks.len(),
                text@ == self@.own_lines(base_depth as nat) + self@.children_outline(
                    base_depth as nat,
                    i as nat,
                ),
            decreases self.subtasks.len() - i,
        {
            text.push('\n');
            let child = self.subtasks[i].print_task(base_depth);
            text.append(child.as_str());
            i = i + 1;
        }
        text
    }
}

/// The text of the first children is the beginning of the text of more of
/// them.
proof fn lemma_children_outline_grows(node: TaskView, base: nat, a: nat, b: nat)
    requires
        a <= b <= node.subtasks.len(),
    ensures
        node.children_outline(base, a).is_prefix_of(node.children_outline(base, b)),
    decreases b,
{
    if a < b {
        lemma_children_outline_grows(node, base, a, (b - 1) as nat);
    }
}

/// Rendering is depth first and in preorder. The outline of a task begins
/// with the task's own lines. The text of each child's subtree comes after
/// them, in one piece, and it ends before the text of the next child begins.
pub proof fn lemma_outline_is_preorder(node: TaskView, base: nat, k: nat)
    requires
        k < node.subtasks.len(),
    ensures
        node.own_lines(base).is_prefix_of(node.outline(base)),
        node.own_lines(base).len() < node.child_start(base, k),
        node.child_start(base, k) + node.subtasks[k as int].outline(base).len()
            <= node.outline(base).len(),
        node.outline(base).subrange(
            node.child_start(base, k) as int,
            (node.child_start(base, k) + node.subtasks[k as int].outline(base).len()) as int,
        ) == node.subtasks[k as int].outline(base),
        k + 1 < node.subtasks.len() ==> node.child_start(base, k) + node.subtasks[k as int].outline(
            base,
        ).len() < node.child_start(base, k + 1),
{
    let own = node.own_lines(base);
    let child = node.subtasks[k as int].outline(base);
    let upto = node.children_outline(base, k + 1);
    let all = node.children_outline(base, node.subtasks.len());
    lemma_children_outline_grows(node, base, k + 1, node.subtasks.len());
    let start = node.child_start(base, k) as int;
    assert(node.outline(base).subrange(start, (start + child.len()) as int) =~= child) by {
        assert forall|t: int| 0 <= t < child.len() implies node.outline(base)[start + t]
            == child[t] by {
            assert(all[start + t - own.len()] == upto[start + t - own.len()]);
        }
    }
}

/// Below a task at depth `d` of a levelled tree, each child's heading has one
/// marker more than the task's own.
pub proof fn lemma_child_heading_is_one_deeper(node: TaskView, d: nat, base: nat, k: int)
    requires
        node.is_levelled(d),
        0 <= k < node.subtasks.len(),
    ensures
        node.heading(base) == repeated(MARKER, base + d + 1) + seq![' '] + without_heading_prefix(
            node.content,
        ) + seq!['\n'],
        node.subtasks[k].heading(base) == repeated(MARKER, base + d + 2) + seq![
            ' ',
        ] + without_heading_prefix(node.subtasks[k].content) + seq!['\n'],
{
    assert(node.subtasks[k].is_levelled(d + 1));
}

/// Rendering is repeatable: the text of a subtree depends on the value of the
/// subtree alone, so two renderings of one subtree agree character by
/// character.
pub proof fn lemma_rendering_repeats(first: DoistTask, second: DoistTask, base: nat)
    requires
        first@ == second@,
    ensures
        first@.outline(base) == second@.outline(base),
{
}

} // verus!
