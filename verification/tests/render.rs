use todoist_to_org::text::{
    mark_white_space, push_repeated, replace_spaces, strip_heading_prefix, trim, unmarked_span,
};
use todoist_to_org::{DoistProject, DoistTask, TodoistAccount};

fn item(id: &str, parent: Option<&str>, content: &str, description: &str) -> DoistTask {
    DoistTask::new(
        id.to_string(),
        parent.map(|p| p.to_string()),
        content.to_string(),
        description.to_string(),
    )
}

fn family() -> Vec<DoistTask> {
    let tasks = vec![
        item("p", None, "parent", "P"),
        item("k1", Some("p"), "first", "K1"),
        item("g", Some("k1"), "grandchild", "G"),
        item("k2", Some("p"), "second", "K2"),
        item("q", None, "other", "Q"),
    ];
    TodoistAccount::build_forest(&tasks).unwrap()
}

#[test]
fn inbox_with_one_subtask_renders_nested() {
    let tasks = vec![
        item("a", None, "Buy milk", ""),
        item("b", Some("a"), "2% milk", "get 2%"),
    ];
    let forest = TodoistAccount::build_forest(&tasks).unwrap();
    let project = DoistProject::new("1".to_string(), "Inbox".to_string(), forest);
    let text = project.to_string();
    assert!(text.starts_with("* Project Inbox\n** Buy milk\n\n"));
    assert_eq!(
        text,
        "* Project Inbox\n** Buy milk\n\n\n*** 2% milk\nget 2%\n"
    );
}

#[test]
fn heading_prefix_in_content_is_stripped() {
    let mut t = item("a", None, "* Reminder", "");
    assert_eq!(t.print_task(1), "** Reminder\n\n");
    t.depth = 3;
    assert_eq!(t.print_task(1), "***** Reminder\n\n");
    assert_eq!(t.print_task(0), "**** Reminder\n\n");
}

#[test]
fn empty_project_is_heading_only() {
    let forest = TodoistAccount::build_forest(&Vec::new()).unwrap();
    let project = DoistProject::new("1".to_string(), "Inbox".to_string(), forest);
    assert_eq!(project.to_string(), "* Project Inbox\n");
}

#[test]
fn project_name_is_trimmed_in_heading() {
    let project = DoistProject::new("1".to_string(), "  My  Work \t\n".to_string(), Vec::new());
    assert_eq!(project.to_string(), "* Project My  Work\n");
}

#[test]
fn marker_count_is_base_plus_depth_plus_one() {
    let mut t = item("a", None, "x", "y");
    assert_eq!(t.print_task(0), "* x\ny\n");
    assert_eq!(t.print_task(2), "*** x\ny\n");
    t.depth = 2;
    assert_eq!(t.print_task(1), "**** x\ny\n");
}

#[test]
fn description_line_is_there_when_empty() {
    let t = item("a", None, "only a title", "");
    assert_eq!(t.print_task(1), "** only a title\n\n");
}

#[test]
fn rendering_twice_gives_the_same_text() {
    let forest = family();
    let first: Vec<String> = forest.iter().map(|t| t.print_task(1)).collect();
    let second: Vec<String> = forest.iter().map(|t| t.print_task(1)).collect();
    assert_eq!(first, second);
    let project = DoistProject::new("7".to_string(), "Twice".to_string(), family());
    assert_eq!(project.to_string(), project.to_string());
    assert_eq!(forest[0].clone().print_task(1), forest[0].print_task(1));
}

#[test]
fn rendering_is_depth_first_preorder() {
    let forest = family();
    let text = forest[0].print_task(1);
    assert_eq!(
        text,
        "** parent\nP\n\n*** first\nK1\n\n**** grandchild\nG\n\n*** second\nK2\n"
    );
    let at = |needle: &str| text.find(needle).unwrap();
    assert!(at("** parent") < at("*** first"));
    assert!(at("*** first") < at("**** grandchild"));
    assert!(at("**** grandchild") < at("*** second"));
    let first_subtree = forest[0].subtasks[0].print_task(1);
    assert_eq!(first_subtree, "*** first\nK1\n\n**** grandchild\nG\n");
    assert!(text.contains(&first_subtree));
    let second_subtree = forest[0].subtasks[1].print_task(1);
    assert!(at(&first_subtree) + first_subtree.len() < at(&second_subtree));
}

#[test]
fn project_document_lists_roots_in_forest_order() {
    let project = DoistProject::new("7".to_string(), "Home".to_string(), family());
    assert_eq!(
        project.to_string(),
        "* Project Home\n** parent\nP\n\n*** first\nK1\n\n**** grandchild\nG\n\n*** second\nK2\n** other\nQ\n"
    );
}

#[test]
fn strip_heading_prefix_removes_it_once() {
    assert_eq!(strip_heading_prefix("* Reminder"), "Reminder");
    assert_eq!(strip_heading_prefix("* * twice"), "* twice");
    assert_eq!(strip_heading_prefix("** bold"), "** bold");
    assert_eq!(strip_heading_prefix("*no space"), "*no space");
    assert_eq!(strip_heading_prefix("* "), "");
    assert_eq!(strip_heading_prefix("*"), "*");
    assert_eq!(strip_heading_prefix(""), "");
    assert_eq!(strip_heading_prefix(" * indented"), " * indented");
    assert_eq!(strip_heading_prefix("* été"), "été");
}

#[test]
fn push_repeated_appends_copies() {
    let mut s = "ab".to_string();
    push_repeated(&mut s, '*', 3);
    assert_eq!(s, "ab***");
    push_repeated(&mut s, '-', 0);
    assert_eq!(s, "ab***");
}

#[test]
fn trim_removes_white_space_around() {
    assert_eq!(trim("  Inbox "), "Inbox");
    assert_eq!(trim("Inbox"), "Inbox");
    assert_eq!(trim("\t\n a b \r\n"), "a b");
    assert_eq!(trim("\u{a0}\u{2003}wide\u{3000}"), "wide");
    assert_eq!(trim("   "), "");
    assert_eq!(trim(""), "");
    assert_eq!(trim(" é "), "é");
    assert_eq!(trim("x"), "x");
    assert_eq!(trim(" _ "), "_");
}

#[test]
fn trim_agrees_with_the_standard_library() {
    let samples = [
        "", " ", "a", " a", "a ", " a b  c ", "\u{85}x\u{85}", "\u{200b}x", "\u{1680}y\u{2028}",
        "\n\n", "é\u{a0}", "\u{feff}z ",
    ];
    for s in samples {
        assert_eq!(trim(s), s.trim());
    }
}

#[test]
fn replace_spaces_puts_underscores() {
    assert_eq!(replace_spaces("my work list"), "my_work_list");
    assert_eq!(replace_spaces("a  b"), "a__b");
    assert_eq!(replace_spaces("tab\tstays"), "tab\tstays");
    assert_eq!(replace_spaces(""), "");
    assert_eq!(replace_spaces(" "), "_");
}

#[test]
fn white_space_is_marked_character_by_character() {
    assert_eq!(
        mark_white_space(" a\tb\u{a0}é\n"),
        vec![true, false, true, false, true, false, true]
    );
    assert_eq!(mark_white_space(""), Vec::<bool>::new());
    assert_eq!(mark_white_space("_*"), vec![false, false]);
}

#[test]
fn unmarked_span_drops_marked_ends_only() {
    assert_eq!(unmarked_span(&vec![true, false, true, false, true]), (1, 4));
    assert_eq!(unmarked_span(&vec![false, true, false]), (0, 3));
    assert_eq!(unmarked_span(&vec![true, true, false]), (2, 3));
    assert_eq!(unmarked_span(&vec![false]), (0, 1));
    assert_eq!(unmarked_span(&vec![true, true]), (2, 2));
    assert_eq!(unmarked_span(&Vec::new()), (0, 0));
}

#[test]
fn levelled_children_are_one_marker_deeper() {
    let forest = family();
    let parent = forest[0].print_task(1);
    let child = forest[0].subtasks[0].print_task(1);
    let grandchild = forest[0].subtasks[0].subtasks[0].print_task(1);
    assert!(parent.starts_with("** parent"));
    assert!(child.starts_with("*** first"));
    assert!(grandchild.starts_with("**** grandchild"));
}
