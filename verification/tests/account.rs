use todoist_to_org::project::file_name_from;
use todoist_to_org::{
    DoistProject, DoistTask, DoistTaskFilters, OutlineError, OutlineFile, ProjectFailure,
    TaskFilterKind, TodoistAccount,
};

fn flat(id: &str, parent: Option<&str>, content: &str) -> DoistTask {
    DoistTask::new(
        id.to_string(),
        parent.map(|p| p.to_string()),
        content.to_string(),
        String::new(),
    )
}

fn fetched(id: &str, name: &str, tasks: Vec<DoistTask>) -> DoistProject {
    DoistProject::new(id.to_string(), name.to_string(), tasks)
}

#[test]
fn new_account_keeps_bearer_header_value() {
    let account = TodoistAccount::new("abc123".to_string());
    assert_eq!(account.bearer(), "Bearer abc123");
    assert!(account.projects().is_empty());
    assert_eq!(TodoistAccount::new(String::new()).bearer(), "Bearer ");
}

#[test]
fn download_builds_each_forest() {
    let mut account = TodoistAccount::new("t".to_string());
    let failures = account.download(vec![
        fetched(
            "1",
            "Inbox",
            vec![flat("b", Some("a"), "child"), flat("a", None, "root")],
        ),
        fetched("2", "Empty", Vec::new()),
    ]);
    assert!(failures.is_empty());
    assert_eq!(account.bearer(), "Bearer t");
    let projects = account.projects();
    assert_eq!(projects.len(), 2);
    assert_eq!(projects[0].id, "1");
    assert_eq!(projects[0].name, "Inbox");
    assert_eq!(projects[0].tasks.len(), 1);
    assert_eq!(projects[0].tasks[0].id, "a");
    assert_eq!(projects[0].tasks[0].subtasks[0].id, "b");
    assert_eq!(projects[0].tasks[0].subtasks[0].depth, 1);
    assert!(projects[1].tasks.is_empty());
}

#[test]
fn download_reports_a_bad_project_and_goes_on() {
    let mut account = TodoistAccount::new("t".to_string());
    let failures = account.download(vec![
        fetched("1", "Loop", vec![flat("a", Some("a"), "round")]),
        fetched("2", "Fine", vec![flat("x", None, "ok")]),
        fetched("3", "Twice", vec![flat("d", None, "one"), flat("d", None, "two")]),
        fetched("4", "Also fine", Vec::new()),
    ]);
    assert_eq!(
        failures,
        vec![
            ProjectFailure {
                project_id: "1".to_string(),
                error: OutlineError::CyclicHierarchy
            },
            ProjectFailure {
                project_id: "3".to_string(),
                error: OutlineError::DuplicateIdentifier
            },
        ]
    );
    let ids: Vec<&str> = account.projects().iter().map(|p| p.id.as_str()).collect();
    assert_eq!(ids, vec!["2", "4"]);
}

#[test]
fn download_twice_appends() {
    let mut account = TodoistAccount::new("t".to_string());
    account.download(vec![fetched("1", "One", Vec::new())]);
    account.download(vec![fetched("2", "Two", Vec::new())]);
    let ids: Vec<&str> = account.projects().iter().map(|p| p.id.as_str()).collect();
    assert_eq!(ids, vec!["1", "2"]);
}

#[test]
fn dump_to_gives_path_and_document() {
    let mut account = TodoistAccount::new("t".to_string());
    account.download(vec![
        fetched("1", " My Work List ", vec![flat("a", None, "Buy milk")]),
        fetched("2", "Inbox", Vec::new()),
    ]);
    let files = account.dump_to("/home/me/org");
    assert_eq!(
        files,
        vec![
            OutlineFile {
                path: "/home/me/org/my_work_list.org".to_string(),
                text: "* Project My Work List\n** Buy milk\n\n".to_string(),
            },
            OutlineFile {
                path: "/home/me/org/inbox.org".to_string(),
                text: "* Project Inbox\n".to_string(),
            },
        ]
    );
}

#[test]
fn dump_to_drops_one_trailing_slash() {
    let mut account = TodoistAccount::new("t".to_string());
    account.download(vec![fetched("2", "Inbox", Vec::new())]);
    assert_eq!(account.dump_to("out/")[0].path, "out/inbox.org");
    assert_eq!(account.dump_to("out//")[0].path, "out//inbox.org");
    assert_eq!(account.dump_to("out")[0].path, "out/inbox.org");
    assert_eq!(account.dump_to("/")[0].path, "/inbox.org");
    assert_eq!(account.dump_to("")[0].path, "/inbox.org");
}

#[test]
fn dump_to_of_empty_account_is_empty() {
    let account = TodoistAccount::new("t".to_string());
    assert!(account.dump_to("/tmp").is_empty());
}

#[test]
fn file_name_is_lowered_trimmed_and_underscored() {
    let project = fetched("1", "  Große LISTE Ä ", Vec::new());
    assert_eq!(project.file_name(), "große_liste_ä.org");
    assert_eq!(fetched("2", "Inbox", Vec::new()).file_name(), "inbox.org");
    assert_eq!(fetched("3", "", Vec::new()).file_name(), ".org");
    assert_eq!(fetched("4", "A  B", Vec::new()).file_name(), "a__b.org");
}

#[test]
fn file_name_from_takes_the_name_as_it_is_given() {
    assert_eq!(file_name_from(" my list "), "my_list.org");
    assert_eq!(file_name_from("Kept Upper"), "Kept_Upper.org");
    assert_eq!(file_name_from("\tx y\n"), "x_y.org");
}

#[test]
fn filters_become_query_pairs() {
    assert_eq!(
        TaskFilterKind::ProjectId("42".to_string()).parse_filter(),
        ("project_id".to_string(), "42".to_string())
    );
    assert_eq!(
        TaskFilterKind::SectionId("7".to_string()).parse_filter(),
        ("section_id".to_string(), "7".to_string())
    );
    assert_eq!(
        TaskFilterKind::Label("home".to_string()).parse_filter(),
        ("label".to_string(), "home".to_string())
    );
    assert_eq!(
        TaskFilterKind::Filter("today | overdue".to_string()).parse_filter(),
        ("filter".to_string(), "today | overdue".to_string())
    );
}

#[test]
fn query_keeps_the_order_of_the_filters() {
    let mut filters = DoistTaskFilters::new();
    assert!(filters.build_query().is_empty());
    filters.push(TaskFilterKind::ProjectId("42".to_string()));
    filters.push(TaskFilterKind::Label("home".to_string()));
    filters.push(TaskFilterKind::ProjectId("43".to_string()));
    assert_eq!(
        filters.build_query(),
        vec![
            ("project_id".to_string(), "42".to_string()),
            ("label".to_string(), "home".to_string()),
            ("project_id".to_string(), "43".to_string()),
        ]
    );
}

#[test]
fn each_error_has_its_message() {
    assert_eq!(
        OutlineError::CyclicHierarchy.message(),
        "cyclic hierarchy: a task is its own ancestor"
    );
    assert_eq!(
        OutlineError::DuplicateIdentifier.message(),
        "duplicate identifier: two tasks share an id"
    );
    assert_eq!(
        OutlineError::UnresolvedWriterTarget.message(),
        "unresolved writer target"
    );
    assert_eq!(
        OutlineError::External("connection refused".to_string()).message(),
        "connection refused"
    );
}

#[test]
fn failure_message_names_the_project() {
    let failure = ProjectFailure {
        project_id: "2203".to_string(),
        error: OutlineError::CyclicHierarchy,
    };
    assert_eq!(
        failure.message(),
        "project 2203: cyclic hierarchy: a task is its own ancestor"
    );
}
