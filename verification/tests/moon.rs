use moon_tui::moon::{
    extract_json, query_projects, query_tasks, respond_to_device_queries, run_args, DepJson,
    ProjectConfig, ProjectJson, ProjectsResponse, Task, TaskJson, TaskOptionsJson, TasksResponse,
};

fn task(command: &str, args: &[&str], script: &str) -> Task {
    Task {
        id: "t".into(),
        command: command.into(),
        args: args.iter().map(|a| a.to_string()).collect(),
        script: script.into(),
        target: String::new(),
        toolchains: vec![],
        interactive: false,
        task_type: String::new(),
        deps: vec![],
    }
}

fn json_task(id: &str) -> TaskJson {
    TaskJson {
        id: id.into(),
        command: None,
        args: None,
        script: None,
        target: None,
        toolchains: None,
        options: None,
        deps: None,
        task_type: None,
    }
}

#[test]
fn full_command_prefers_the_script() {
    assert_eq!(task("cargo", &["test", "-q"], "").full_command(), "cargo test -q");
    assert_eq!(task("cargo", &[], "").full_command(), "cargo");
    assert_eq!(task("cargo", &["x"], "make all").full_command(), "make all");
    assert_eq!(task("", &[], "").full_command(), "");
    assert_eq!(task("", &["a"], "").full_command(), " a");
}

#[test]
fn json_is_found_after_text() {
    assert_eq!(extract_json(b"syncing\n{\"a\":{}}\n"), Some(&b"{\"a\":{}}\n"[..]));
    assert_eq!(extract_json("caf\u{e9} {".as_bytes()), Some(&b"{"[..]));
    assert_eq!(extract_json(b"{}"), Some(&b"{}"[..]));
    assert_eq!(extract_json(b"no json"), None);
    assert_eq!(extract_json(b""), None);
    assert_eq!(extract_json(b"\xff{}"), None);
    assert_eq!(extract_json(b"{}\xff"), None);
}

#[test]
fn projects_come_from_the_answer() {
    assert!(query_projects(None).is_empty());
    let projects = query_projects(Some(ProjectsResponse {
        projects: vec![
            ProjectJson {
                id: "web".into(),
                config: ProjectConfig { tags: Some(vec!["ui".into(), "ts".into()]) },
            },
            ProjectJson { id: "api".into(), config: ProjectConfig { tags: None } },
        ],
    }));
    assert_eq!(projects.len(), 2);
    assert_eq!(projects[0].id, "web");
    assert_eq!(projects[0].tags, vec!["ui", "ts"]);
    assert_eq!(projects[1].id, "api");
    assert!(projects[1].tags.is_empty());
}

#[test]
fn tasks_come_from_the_answer() {
    assert!(query_tasks(None).is_empty());
    let full = TaskJson {
        command: Some("cargo".into()),
        args: Some(vec!["build".into()]),
        script: Some("s".into()),
        target: Some("web:build".into()),
        toolchains: Some(vec!["rust".into()]),
        options: Some(TaskOptionsJson { interactive: Some(true) }),
        deps: Some(vec![
            DepJson { target: Some("api:build".into()) },
            DepJson { target: None },
            DepJson { target: Some("lib:build".into()) },
        ]),
        task_type: Some("build".into()),
        ..json_task("build")
    };
    let quiet = TaskJson {
        options: Some(TaskOptionsJson { interactive: None }),
        ..json_task("quiet")
    };
    let tasks = query_tasks(Some(TasksResponse {
        tasks: vec![
            ("api".into(), vec![("bare".into(), json_task("bare"))]),
            ("none".into(), vec![]),
            ("web".into(), vec![("build".into(), full), ("quiet".into(), quiet)]),
        ],
    }));
    assert_eq!(tasks.iter().map(|t| t.id.as_str()).collect::<Vec<_>>(), ["bare", "build", "quiet"]);
    assert_eq!(tasks[0].full_command(), "");
    assert!(!tasks[0].interactive && tasks[0].deps.is_empty());
    let t = &tasks[1];
    assert_eq!((t.command.as_str(), t.script.as_str()), ("cargo", "s"));
    assert_eq!(t.args, vec!["build"]);
    assert_eq!(t.target, "web:build");
    assert_eq!(t.toolchains, vec!["rust"]);
    assert!(t.interactive);
    assert_eq!(t.deps, vec!["api:build", "lib:build"]);
    assert_eq!(t.task_type, "build");
    assert!(!tasks[2].interactive);
}

#[test]
fn run_arguments() {
    assert_eq!(run_args("web:build", false), vec!["run", "web:build", "--color"]);
    assert_eq!(run_args("web:build", true), vec!["run", "web:build", "--color", "--force"]);
}

#[test]
fn device_queries_are_answered() {
    let position = b"\x1b[1;1R".to_vec();
    let status = b"\x1b[0n".to_vec();
    let attributes = b"\x1b[?62;22c".to_vec();
    assert_eq!(respond_to_device_queries(b"\x1b[6n"), vec![position.clone()]);
    assert_eq!(respond_to_device_queries(b"x\x1b[5ny"), vec![status.clone()]);
    assert_eq!(respond_to_device_queries(b"\x1b[c"), vec![attributes.clone()]);
    assert_eq!(respond_to_device_queries(b"\x1b[0c"), vec![attributes.clone()]);
    assert_eq!(
        respond_to_device_queries(b"\x1b[5n\x1b[31m\x1b[6n\x1b[c"),
        vec![status, position.clone(), attributes]
    );
    assert_eq!(respond_to_device_queries(b"\x1b[\x1b[6n"), vec![position]);
    assert!(respond_to_device_queries(b"\x1b[6").is_empty());
    assert!(respond_to_device_queries(b"\x1b[").is_empty());
    assert!(respond_to_device_queries(b"6n").is_empty());
    assert!(respond_to_device_queries(b"").is_empty());
    assert!(respond_to_device_queries(b"\xff\x1b[6n").is_empty());
}
