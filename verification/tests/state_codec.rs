use oxproc::codec::{decode_state, encode_state};
use oxproc::state::{
    manager_lock_path, manager_log_path, manager_pid_path, no_state_message, parse_pid,
    state_file_path, state_ready, ManagerInfo, ManagerState, ProcessInfo,
};

fn sample_state() -> ManagerState {
    ManagerState {
        manager: ManagerInfo {
            pid: 4242,
            started_at_ms: 1700000000123,
            project_root: "/home/dev/my \"project\"\\with\nodd chars".to_string(),
            version: 1,
        },
        processes: vec![
            ProcessInfo {
                name: "web".to_string(),
                pid: 100,
                pgid: 100,
                cmd: "sh -c \"echo hi\"".to_string(),
                cwd: Some("./frontend".to_string()),
                stdout_log: "web.out.log".to_string(),
                stderr_log: "web.err.log".to_string(),
                started_at_ms: -5,
            },
            ProcessInfo {
                name: "worker".to_string(),
                pid: 101,
                pgid: 99,
                cmd: "run worker".to_string(),
                cwd: None,
                stdout_log: "worker.out.log".to_string(),
                stderr_log: "worker.err.log".to_string(),
                started_at_ms: 1700000000999,
            },
        ],
    }
}

#[test]
fn save_load_round_trip_field_for_field() {
    let st = sample_state();
    let text = encode_state(&st);
    let back = decode_state(&text).expect("decode what we encoded");
    assert_eq!(back.manager.pid, st.manager.pid);
    assert_eq!(back.manager.started_at_ms, st.manager.started_at_ms);
    assert_eq!(back.manager.project_root, st.manager.project_root);
    assert_eq!(back.manager.version, st.manager.version);
    assert_eq!(back.processes.len(), st.processes.len());
    for (a, b) in back.processes.iter().zip(st.processes.iter()) {
        assert_eq!(a.name, b.name);
        assert_eq!(a.pid, b.pid);
        assert_eq!(a.pgid, b.pgid);
        assert_eq!(a.cmd, b.cmd);
        assert_eq!(a.cwd, b.cwd);
        assert_eq!(a.stdout_log, b.stdout_log);
        assert_eq!(a.stderr_log, b.stderr_log);
        assert_eq!(a.started_at_ms, b.started_at_ms);
    }
}

#[test]
fn round_trip_with_no_processes() {
    let st = ManagerState {
        manager: ManagerInfo {
            pid: 1,
            started_at_ms: 0,
            project_root: "/p".to_string(),
            version: 1,
        },
        processes: Vec::new(),
    };
    let text = encode_state(&st);
    let back = decode_state(&text).expect("decode");
    assert_eq!(back.processes.len(), 0);
    assert_eq!(back.manager.project_root, "/p");
}

#[test]
fn corruption_reads_as_no_state() {
    assert!(decode_state("").is_none());
    assert!(decode_state("not json at all").is_none());
    assert!(decode_state("{\"manager\":{\"pid\":1").is_none());
    let st = sample_state();
    let mut text = encode_state(&st);
    text.push('x');
    assert!(decode_state(&text).is_none());
}

#[test]
fn out_of_range_numbers_are_rejected() {
    // A pid beyond the 32-bit range cannot be a real process id.
    let text = "{\"manager\":{\"pid\":99999999999,\"started_at_ms\":0,\"project_root\":\"/p\",\"version\":1},\"processes\":[]}";
    assert!(decode_state(text).is_none());
}

#[test]
fn state_paths_and_readiness() {
    assert_eq!(state_file_path("/d"), "/d/state.json");
    assert_eq!(manager_pid_path("/d"), "/d/manager.pid");
    assert_eq!(manager_lock_path("/d"), "/d/manager.lock");
    assert_eq!(manager_log_path("/d"), "/d/manager.log");
    assert_eq!(no_state_message(), "No daemon state found for this project.");
    let mut st = sample_state();
    assert!(state_ready(&st));
    st.manager.project_root = String::new();
    assert!(!state_ready(&st));
}

#[test]
fn pid_file_parsing() {
    assert_eq!(parse_pid("123"), Some(123));
    assert_eq!(parse_pid(" 123 \n"), Some(123));
    assert_eq!(parse_pid("-7"), Some(-7));
    assert_eq!(parse_pid("abc"), None);
    assert_eq!(parse_pid(""), None);
    assert_eq!(parse_pid("2147483647"), Some(2147483647));
    assert_eq!(parse_pid("2147483648"), None);
    assert_eq!(parse_pid("-2147483648"), Some(-2147483648));
}
