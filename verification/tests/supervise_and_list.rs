use oxproc::config::{detect_source, ConfigError, ConfigSource, ProcessConfig, TaskConfig, TaskKind};
use oxproc::engine::{TaskEntry, TaskSet};
use oxproc::list::{format_list_human, format_list_names_only, gather_list_info};
use oxproc::manager::{plan_process, record_process, resolve_path, select_processes};
use oxproc::shutdown::{escalation_targets, stop_all, StopDecision};
use oxproc::state::{ManagerInfo, ManagerState, ProcessInfo};

fn config(name: &str, cwd: Option<&str>) -> ProcessConfig {
    ProcessConfig {
        name: name.to_string(),
        command: format!("run {}", name),
        stdout_log: None,
        stderr_log: None,
        cwd: cwd.map(|c| c.to_string()),
    }
}

fn state_with(pgids: &[(u32, i32)]) -> ManagerState {
    ManagerState {
        manager: ManagerInfo {
            pid: 777,
            started_at_ms: 0,
            project_root: "/p".to_string(),
            version: 1,
        },
        processes: pgids
            .iter()
            .enumerate()
            .map(|(i, (pid, pgid))| ProcessInfo {
                name: format!("p{}", i),
                pid: *pid,
                pgid: *pgid,
                cmd: "cmd".to_string(),
                cwd: None,
                stdout_log: "o".to_string(),
                stderr_log: "e".to_string(),
                started_at_ms: 0,
            })
            .collect(),
    }
}

#[test]
fn source_detection() {
    assert!(matches!(detect_source(true, true), Ok(ConfigSource::ProcToml)));
    assert!(matches!(detect_source(true, false), Ok(ConfigSource::ProcToml)));
    assert!(matches!(detect_source(false, true), Ok(ConfigSource::Procfile)));
    match detect_source(false, false) {
        Err(e) => assert_eq!(
            e.message(),
            "Neither proc.toml nor Procfile found in the current directory"
        ),
        Ok(_) => panic!("expected an error"),
    }
}

#[test]
fn config_error_messages() {
    assert_eq!(ConfigError::EmptyProcfile.message(), "Procfile is empty");
    assert_eq!(
        ConfigError::FileReadError { message: "denied".to_string() }.message(),
        "Failed to read file: denied"
    );
    assert_eq!(
        ConfigError::TomlParseError { message: "bad".to_string() }.message(),
        "Failed to parse proc.toml: bad"
    );
    assert_eq!(
        ConfigError::InvalidTask {
            task: "build".to_string(),
            reason: "cannot have both 'cmd' and 'run'".to_string()
        }
        .message(),
        "Invalid task definition for 'build': cannot have both 'cmd' and 'run'"
    );
}

#[test]
fn paths_resolve_against_root() {
    assert_eq!(resolve_path("/root/p", "/abs/x"), "/abs/x");
    assert_eq!(resolve_path("/root/p", "rel/x"), "/root/p/rel/x");
}

#[test]
fn missing_process_cwd_fails_before_spawn() {
    let c = config("web", Some("missing"));
    match plan_process(&c, "/repo", false) {
        Err(m) => assert_eq!(m, "Process 'web' cwd does not exist: /repo/missing"),
        Ok(_) => panic!("expected an error"),
    }
}

#[test]
fn plan_defaults_and_recording() {
    let c = config("web", Some("/srv"));
    let plan = plan_process(&c, "/repo", true).expect("plan");
    assert_eq!(plan.name, "web");
    assert_eq!(plan.cwd_abs.as_deref(), Some("/srv"));
    assert_eq!(plan.stdout_log, "web.out.log");
    assert_eq!(plan.stderr_log, "web.err.log");
    assert_eq!(plan.stdout_sink, "/repo/web.out.log");
    assert_eq!(plan.stderr_sink, "/repo/web.err.log");
    let info = record_process(&plan, 31, 32, 1234);
    assert_eq!(info.name, "web");
    assert_eq!(info.pid, 31);
    assert_eq!(info.pgid, 32);
    assert_eq!(info.cmd, "run web");
    assert_eq!(info.cwd.as_deref(), Some("/srv"));
    assert_eq!(info.started_at_ms, 1234);
}

#[test]
fn log_selection_filters_by_name() {
    let st = state_with(&[(1, 1), (2, 2)]);
    let all = select_processes(&st, &None);
    assert_eq!(all.len(), 2);
    let one = select_processes(&st, &Some("p1".to_string()));
    assert_eq!(one.len(), 1);
    assert_eq!(one[0].pid, 2);
    let none = select_processes(&st, &Some("zzz".to_string()));
    assert!(none.is_empty());
}

#[test]
fn stop_with_no_state_reports_and_succeeds() {
    match stop_all(&None, None) {
        StopDecision::NoState => {}
        StopDecision::Stop(_) => panic!("nothing should be stopped"),
    }
}

#[test]
fn stop_plan_targets_whole_groups() {
    let st = state_with(&[(10, 100), (20, 200)]);
    match stop_all(&Some(st.clone()), None) {
        StopDecision::Stop(p) => {
            assert_eq!(p.term_group_targets, vec![-100, -200]);
            assert_eq!(p.check_pids, vec![10, 20]);
            assert_eq!(p.grace_secs, 5);
            assert_eq!(p.manager_pid, 777);
        }
        StopDecision::NoState => panic!("state exists"),
    }
    match stop_all(&Some(st.clone()), Some(9)) {
        StopDecision::Stop(p) => assert_eq!(p.grace_secs, 9),
        StopDecision::NoState => panic!("state exists"),
    }
    let survivors = escalation_targets(&st, &vec![false, true]);
    assert_eq!(survivors, vec![-200]);
}

#[test]
fn gathers_processes_and_tasks_sorted() {
    let configs = vec![config("Worker", None), config("api", None)];
    let tasks = Some(TaskSet {
        entries: vec![
            TaskEntry {
                name: "frontend.build".to_string(),
                config: TaskConfig {
                    kind: TaskKind::Shell { cmd: "echo build".to_string(), cwd: None },
                },
            },
            TaskEntry {
                name: "all".to_string(),
                config: TaskConfig {
                    kind: TaskKind::Composite {
                        children: vec!["frontend.build".to_string()],
                        parallel: true,
                    },
                },
            },
        ],
    });
    let info = gather_list_info(ConfigSource::ProcToml, &configs, &tasks);
    assert_eq!(info.processes, vec!["api".to_string(), "Worker".to_string()]);
    assert_eq!(info.tasks.len(), 2);
    assert_eq!(info.tasks[0].name, "all");
    assert_eq!(info.tasks[0].kind, "composite");
    assert_eq!(info.tasks[0].children, vec!["frontend:build".to_string()]);
    assert!(info.tasks[0].parallel);
    assert_eq!(info.tasks[1].name, "frontend:build");
    assert_eq!(info.tasks[1].kind, "shell");

    let human = format_list_human(&info, false, false);
    assert!(human.contains("Source: ProcToml\n"));
    assert!(human.contains("Processes (2):"));
    assert!(human.contains("  api\n"));
    assert!(human.contains("Tasks (2):"));
    assert!(human.contains("  all (group: frontend:build)\n"));
    assert!(human.contains("  frontend:build\n"));

    let names = format_list_names_only(&info, false, false);
    assert_eq!(names, "api\nWorker\nall\nfrontend:build");
    let only_procs = format_list_names_only(&info, true, false);
    assert_eq!(only_procs, "api\nWorker");
}

#[test]
fn procfile_projects_list_no_tasks() {
    let configs = vec![config("web", None), config("worker", None)];
    let info = gather_list_info(ConfigSource::Procfile, &configs, &None);
    assert_eq!(info.processes.len(), 2);
    assert!(info.tasks.is_empty());
    let human = format_list_human(&info, false, false);
    assert!(human.contains("Tasks: (not available with Procfile)"));
}

#[test]
fn procfile_lines_parse() {
    let c = oxproc::config::parse_procfile_line(" web :  echo web ").expect("a declaration");
    assert_eq!(c.name, "web");
    assert_eq!(c.command, "echo web");
    assert!(c.cwd.is_none() && c.stdout_log.is_none() && c.stderr_log.is_none());
    // The first separator splits; later ones belong to the command.
    let c = oxproc::config::parse_procfile_line("api: run --listen host:80").expect("a declaration");
    assert_eq!(c.name, "api");
    assert_eq!(c.command, "run --listen host:80");
    assert!(oxproc::config::parse_procfile_line("no separator here").is_none());
    assert!(oxproc::config::content_is_blank("  \n\t "));
    assert!(!oxproc::config::content_is_blank(" x "));
}
