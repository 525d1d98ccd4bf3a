use oxproc::config::{TaskConfig, TaskKind};
use oxproc::engine::{
    aggregate_parallel, begin_task, check_task_cwd, final_shell_command, outcome_from_status,
    BeginStep, TaskEntry, TaskError, TaskOutcome, TaskSet,
};

fn shell(name: &str, cmd: &str) -> TaskEntry {
    TaskEntry {
        name: name.to_string(),
        config: TaskConfig {
            kind: TaskKind::Shell {
                cmd: cmd.to_string(),
                cwd: None,
            },
        },
    }
}

fn composite(name: &str, children: &[&str], parallel: bool) -> TaskEntry {
    TaskEntry {
        name: name.to_string(),
        config: TaskConfig {
            kind: TaskKind::Composite {
                children: children.iter().map(|c| c.to_string()).collect(),
                parallel,
            },
        },
    }
}

#[test]
fn unknown_task_lists_all_names() {
    let ts = TaskSet {
        entries: vec![shell("deploy", "echo d"), shell("api.build", "echo b")],
    };
    let step = begin_task(&ts, &Vec::new(), &"nope".to_string());
    match step {
        BeginStep::Refused(e) => {
            assert_eq!(
                e.message(),
                "Unknown task 'nope'. Available tasks: api:build, deploy"
            );
        }
        _ => panic!("expected a refusal"),
    }
}

#[test]
fn unknown_task_with_no_tasks_defined() {
    let ts = TaskSet { entries: Vec::new() };
    let step = begin_task(&ts, &Vec::new(), &"x".to_string());
    match step {
        BeginStep::Refused(e) => {
            assert_eq!(e.message(), "Unknown task 'x'. No tasks defined under [tasks].");
        }
        _ => panic!("expected a refusal"),
    }
}

#[test]
fn cycle_renders_full_path() {
    let ts = TaskSet {
        entries: vec![
            composite("a", &["b"], false),
            composite("b", &["a"], false),
        ],
    };
    // Requesting `a` again while `a -> b` is already on the stack.
    let stack = vec!["a".to_string(), "b".to_string()];
    let step = begin_task(&ts, &stack, &"a".to_string());
    match step {
        BeginStep::Refused(e) => {
            assert_eq!(e.message(), "Dependency cycle detected: a -> b -> a");
        }
        _ => panic!("expected a refusal"),
    }
}

#[test]
fn sequential_stops_at_first_failure() {
    let ts = TaskSet {
        entries: vec![
            composite("all", &["x", "y"], false),
            shell("all.x", "false"),
            shell("all.y", "true"),
        ],
    };
    let step = begin_task(&ts, &Vec::new(), &"all".to_string());
    let mut run = match step {
        BeginStep::RunSequential(m) => m,
        _ => panic!("expected a sequential run"),
    };
    assert_eq!(run.pending(), Some("all.x".to_string()));
    run.record(TaskOutcome::Failed(3));
    // The second child is never handed out, and the failure's code is the
    // composite's outcome.
    assert_eq!(run.pending(), None);
    assert_eq!(run.outcome(), TaskOutcome::Failed(3));
}

#[test]
fn sequential_runs_all_on_success() {
    let ts = TaskSet {
        entries: vec![
            composite("all", &["x", "y"], false),
            shell("all.x", "true"),
            shell("all.y", "true"),
        ],
    };
    let mut run = match begin_task(&ts, &Vec::new(), &"all".to_string()) {
        BeginStep::RunSequential(m) => m,
        _ => panic!("expected a sequential run"),
    };
    assert_eq!(run.pending(), Some("all.x".to_string()));
    run.record(TaskOutcome::Success);
    assert_eq!(run.pending(), Some("all.y".to_string()));
    run.record(TaskOutcome::Success);
    assert_eq!(run.pending(), None);
    assert_eq!(run.outcome(), TaskOutcome::Success);
}

#[test]
fn parallel_launches_all_and_reports_first_failure() {
    let ts = TaskSet {
        entries: vec![
            composite("all", &["x", "y"], true),
            shell("all.x", "false"),
            shell("all.y", "true"),
        ],
    };
    let run = match begin_task(&ts, &Vec::new(), &"all".to_string()) {
        BeginStep::RunParallel(m) => m,
        _ => panic!("expected a parallel run"),
    };
    // Every child is launched, regardless of what any sibling will do.
    assert_eq!(run.children, vec!["all.x".to_string(), "all.y".to_string()]);
    assert_eq!(run.displays, vec!["all:x".to_string(), "all:y".to_string()]);
    assert_eq!(run.stack, vec!["all".to_string()]);
    // The first failure in launch order decides, with every outcome present.
    assert_eq!(
        aggregate_parallel(&vec![TaskOutcome::Failed(3), TaskOutcome::Success]),
        TaskOutcome::Failed(3)
    );
    assert_eq!(
        aggregate_parallel(&vec![TaskOutcome::Success, TaskOutcome::Failed(7)]),
        TaskOutcome::Failed(7)
    );
    assert_eq!(
        aggregate_parallel(&vec![TaskOutcome::Success, TaskOutcome::Success]),
        TaskOutcome::Success
    );
}

#[test]
fn shell_command_appends_arguments() {
    let cmd = "echo hi".to_string();
    assert_eq!(final_shell_command(&cmd, &Vec::new()), "echo hi");
    assert_eq!(
        final_shell_command(&cmd, &vec!["-v".to_string(), "x".to_string()]),
        "echo hi -v x"
    );
}

#[test]
fn missing_task_cwd_is_refused_before_running() {
    let r = check_task_cwd("front.build", &"/repo/missing".to_string(), false);
    match r {
        Err(e) => assert_eq!(
            e.message(),
            "Task 'front:build' cwd does not exist: /repo/missing"
        ),
        Ok(()) => panic!("expected a refusal"),
    }
    assert!(check_task_cwd("front.build", &"/repo".to_string(), true).is_ok());
}

#[test]
fn status_mapping() {
    assert!(matches!(
        outcome_from_status(true, Some(0)),
        Ok(TaskOutcome::Success)
    ));
    assert!(matches!(
        outcome_from_status(false, Some(4)),
        Ok(TaskOutcome::Failed(4))
    ));
    match outcome_from_status(false, None) {
        Err(e) => assert_eq!(e.message(), "Task terminated by signal"),
        Ok(_) => panic!("expected the signal error"),
    }
}
