use todoist_to_org::forest::{
    check_hierarchy, depth_of_task, find_task, has_cycle, has_duplicates, parent_of,
};
use todoist_to_org::{DoistTask, OutlineError, TodoistAccount};

fn record(id: &str, parent: Option<&str>) -> DoistTask {
    DoistTask::new(
        id.to_string(),
        parent.map(|p| p.to_string()),
        format!("content of {}", id),
        format!("about {}", id),
    )
}

fn count_nodes(forest: &Vec<DoistTask>) -> usize {
    let mut total = 0;
    for node in forest {
        total += 1 + count_nodes(&node.subtasks);
    }
    total
}

fn depths_are_consistent(node: &DoistTask, depth: usize) -> bool {
    node.depth == depth
        && node
            .subtasks
            .iter()
            .all(|child| depths_are_consistent(child, depth + 1))
}

fn ids_in_preorder(forest: &Vec<DoistTask>, out: &mut Vec<String>) {
    for node in forest {
        out.push(node.id.clone());
        ids_in_preorder(&node.subtasks, out);
    }
}

/// A list with three roots, a chain of four levels, and siblings given out of
/// order.
fn mixed_list() -> Vec<DoistTask> {
    vec![
        record("c1", Some("b")),
        record("a", None),
        record("b", Some("a")),
        record("z", None),
        record("c2", Some("b")),
        record("d", Some("c1")),
        record("a2", Some("a")),
        record("lost", Some("nowhere")),
    ]
}

#[test]
fn forest_keeps_every_task() {
    let tasks = mixed_list();
    let forest = TodoistAccount::build_forest(&tasks).unwrap();
    assert_eq!(count_nodes(&forest), tasks.len());
    let mut seen = Vec::new();
    ids_in_preorder(&forest, &mut seen);
    let mut sorted = seen.clone();
    sorted.sort();
    sorted.dedup();
    assert_eq!(sorted.len(), tasks.len());
    for t in &tasks {
        assert!(seen.contains(&t.id));
    }
}

#[test]
fn forest_order_follows_the_input() {
    let forest = TodoistAccount::build_forest(&mixed_list()).unwrap();
    let mut seen = Vec::new();
    ids_in_preorder(&forest, &mut seen);
    assert_eq!(seen, vec!["a", "b", "c1", "d", "c2", "a2", "z", "lost"]);
    let roots: Vec<&str> = forest.iter().map(|t| t.id.as_str()).collect();
    assert_eq!(roots, vec!["a", "z", "lost"]);
}

#[test]
fn depth_is_parent_depth_plus_one() {
    let forest = TodoistAccount::build_forest(&mixed_list()).unwrap();
    for root in &forest {
        assert!(depths_are_consistent(root, 0));
    }
    let d = &forest[0].subtasks[0].subtasks[0].subtasks[0];
    assert_eq!(d.id, "d");
    assert_eq!(d.depth, 3);
}

#[test]
fn supplied_depth_is_not_trusted() {
    let mut root = record("a", None);
    root.depth = 7;
    let mut child = record("b", Some("a"));
    child.depth = 0;
    let forest = TodoistAccount::build_forest(&vec![child, root]).unwrap();
    assert_eq!(forest.len(), 1);
    assert_eq!(forest[0].depth, 0);
    assert_eq!(forest[0].subtasks[0].depth, 1);
}

#[test]
fn node_carries_the_fields_of_its_record() {
    let forest = TodoistAccount::build_forest(&mixed_list()).unwrap();
    let b = &forest[0].subtasks[0];
    assert_eq!(b.id, "b");
    assert_eq!(b.parent_id, Some("a".to_string()));
    assert_eq!(b.content, "content of b");
    assert_eq!(b.description, "about b");
}

#[test]
fn self_reference_is_cyclic() {
    let tasks = vec![record("x", None), record("a", Some("a"))];
    assert_eq!(
        TodoistAccount::build_forest(&tasks),
        Err(OutlineError::CyclicHierarchy)
    );
    assert_eq!(check_hierarchy(&tasks), Err(OutlineError::CyclicHierarchy));
}

#[test]
fn mutual_parents_are_cyclic() {
    let tasks = vec![record("a", Some("b")), record("b", Some("a"))];
    assert_eq!(
        TodoistAccount::build_forest(&tasks),
        Err(OutlineError::CyclicHierarchy)
    );
}

#[test]
fn long_cycle_with_a_tail_is_cyclic() {
    let tasks = vec![
        record("tail", Some("a")),
        record("a", Some("b")),
        record("b", Some("c")),
        record("c", Some("a")),
        record("free", None),
    ];
    assert!(has_cycle(&tasks));
    assert_eq!(depth_of_task(&tasks, 0), None);
    assert_eq!(depth_of_task(&tasks, 4), Some(0));
    assert_eq!(
        TodoistAccount::build_forest(&tasks),
        Err(OutlineError::CyclicHierarchy)
    );
}

#[test]
fn longest_chain_is_no_cycle() {
    let tasks = vec![
        record("d", Some("c")),
        record("c", Some("b")),
        record("b", Some("a")),
        record("a", None),
    ];
    assert!(!has_cycle(&tasks));
    assert_eq!(depth_of_task(&tasks, 0), Some(3));
    let forest = TodoistAccount::build_forest(&tasks).unwrap();
    assert_eq!(forest.len(), 1);
    assert_eq!(forest[0].subtasks[0].subtasks[0].subtasks[0].id, "d");
}

#[test]
fn unresolved_parent_becomes_a_root() {
    let tasks = vec![record("a", Some("gone")), record("b", Some("a"))];
    let forest = TodoistAccount::build_forest(&tasks).unwrap();
    assert_eq!(forest.len(), 1);
    assert_eq!(forest[0].id, "a");
    assert_eq!(forest[0].depth, 0);
    assert_eq!(forest[0].parent_id, Some("gone".to_string()));
    assert_eq!(forest[0].subtasks.len(), 1);
    assert_eq!(forest[0].subtasks[0].depth, 1);
}

#[test]
fn duplicate_identifier_is_refused() {
    let tasks = vec![record("a", None), record("b", None), record("a", None)];
    assert!(has_duplicates(&tasks));
    assert_eq!(
        TodoistAccount::build_forest(&tasks),
        Err(OutlineError::DuplicateIdentifier)
    );
    assert_eq!(
        check_hierarchy(&tasks),
        Err(OutlineError::DuplicateIdentifier)
    );
}

#[test]
fn duplicate_is_reported_before_cycle() {
    let tasks = vec![record("a", None), record("a", Some("a"))];
    assert_eq!(
        TodoistAccount::build_forest(&tasks),
        Err(OutlineError::DuplicateIdentifier)
    );
}

#[test]
fn empty_list_gives_empty_forest() {
    let tasks: Vec<DoistTask> = Vec::new();
    assert_eq!(check_hierarchy(&tasks), Ok(()));
    assert_eq!(TodoistAccount::build_forest(&tasks), Ok(Vec::new()));
}

#[test]
fn find_task_gives_first_position() {
    let tasks = mixed_list();
    assert_eq!(find_task(&tasks, &"a".to_string()), Some(1));
    assert_eq!(find_task(&tasks, &"lost".to_string()), Some(7));
    assert_eq!(find_task(&tasks, &"nowhere".to_string()), None);
    let twice = vec![record("a", None), record("a", None)];
    assert_eq!(find_task(&twice, &"a".to_string()), Some(0));
}

#[test]
fn parent_of_resolves_by_identifier() {
    let tasks = mixed_list();
    assert_eq!(parent_of(&tasks, 0), Some(2));
    assert_eq!(parent_of(&tasks, 1), None);
    assert_eq!(parent_of(&tasks, 7), None);
}

#[test]
fn depth_of_task_counts_hops() {
    let tasks = mixed_list();
    assert_eq!(depth_of_task(&tasks, 1), Some(0));
    assert_eq!(depth_of_task(&tasks, 2), Some(1));
    assert_eq!(depth_of_task(&tasks, 0), Some(2));
    assert_eq!(depth_of_task(&tasks, 5), Some(3));
    assert_eq!(depth_of_task(&tasks, 7), Some(0));
}

#[test]
fn hierarchy_checks_pass_on_a_forest() {
    let tasks = mixed_list();
    assert!(!has_duplicates(&tasks));
    assert!(!has_cycle(&tasks));
    assert_eq!(check_hierarchy(&tasks), Ok(()));
}

#[test]
fn build_tree_gives_children_with_subtrees() {
    let tasks = mixed_list();
    let children = TodoistAccount::build_tree(&tasks[2], &tasks);
    let ids: Vec<&str> = children.iter().map(|t| t.id.as_str()).collect();
    assert_eq!(ids, vec!["c1", "c2"]);
    assert_eq!(children[0].depth, 2);
    assert_eq!(children[0].subtasks.len(), 1);
    assert_eq!(children[0].subtasks[0].id, "d");
    assert_eq!(children[0].subtasks[0].depth, 3);
    assert!(children[1].subtasks.is_empty());
    assert!(TodoistAccount::build_tree(&tasks[3], &tasks).is_empty());
}

#[test]
fn clone_copies_the_whole_subtree() {
    let forest = TodoistAccount::build_forest(&mixed_list()).unwrap();
    let copy = forest[0].clone();
    assert_eq!(copy, forest[0]);
    assert_eq!(count_nodes(&vec![copy]), 6);
}
