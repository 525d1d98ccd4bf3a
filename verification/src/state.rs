//! The supervisor's persisted state: who the manager is and which
//! processes it spawned. One state value is written after all processes
//! are up and read by every other invocation (status, stop, logs).
//! Timestamps are carried as milliseconds since the Unix epoch.
use crate::strutil::{str_chars, trimmed, trimmed_range};
use vstd::prelude::*;
use vstd::string::StringExecFns;

verus! {

/// Identity of a running supervisor.
#[derive(Debug, Clone)]
pub struct ManagerInfo {
    pub pid: u32,
    pub started_at_ms: i64,
    pub project_root: String,
    pub version: u32,
}

/// One spawned process, recorded at spawn time and never updated in place.
#[derive(Debug, Clone)]
pub struct ProcessInfo {
    pub name: String,
    pub pid: u32,
    pub pgid: i32,
    pub cmd: String,
    pub cwd: Option<String>,
    pub stdout_log: String,
    pub stderr_log: String,
    pub started_at_ms: i64,
}

/// The single source of truth other invocations read.
#[derive(Debug, Clone)]
pub struct ManagerState {
    pub manager: ManagerInfo,
    pub processes: Vec<ProcessInfo>,
}

/// The state directory of a project, resolved from the state home and the
/// canonicalized project root.
pub fn state_dir_from_root(state_home: &str, canonical_root: &str) -> (r: String)
    ensures
        r@ == state_home@ + "/oxproc/"@ + crate::dirs::spec_project_id(
            vstd::string::StringSliceAdditionalSpecFns::spec_bytes(canonical_root),
        ),
{
    crate::dirs::state_dir_for_project(state_home, canonical_root)
}

/// The path of the persisted state file inside a state directory.
pub fn state_file_path(dir: &str) -> (r: String)
    ensures
        r@ == dir@ + "/state.json"@,
{
    let mut r = dir.to_owned();
    r.append("/state.json");
    r
}

/// The path of the manager's pid file inside a state directory.
pub fn manager_pid_path(dir: &str) -> (r: String)
    ensures
        r@ == dir@ + "/manager.pid"@,
{
    let mut r = dir.to_owned();
    r.append("/manager.pid");
    r
}

/// The path of the manager's lock file inside a state directory.
pub fn manager_lock_path(dir: &str) -> (r: String)
    ensures
        r@ == dir@ + "/manager.lock"@,
{
    let mut r = dir.to_owned();
    r.append("/manager.lock");
    r
}

/// The path of the manager's own log file inside a state directory.
pub fn manager_log_path(dir: &str) -> (r: String)
    ensures
        r@ == dir@ + "/manager.log"@,
{
    let mut r = dir.to_owned();
    r.append("/manager.log");
    r
}

/// Whether a loaded state is a usable "ready" signal: the manager must
/// name its project root.
pub fn state_ready(st: &ManagerState) -> (r: bool)
    ensures
        r == (st.manager.project_root@.len() > 0),
{
    !st.manager.project_root.as_str().is_empty()
}

/// The report for a request that found nothing persisted: a normal
/// condition, not an error.
pub fn no_state_message() -> (r: String)
    ensures
        r@ == "No daemon state found for this project."@,
{
    String::from_str("No daemon state found for this project.")
}

/// Read a pid from the text of a pid file: surrounding whitespace is
/// ignored, the rest must be a decimal integer in pid range.
pub fn parse_pid(s: &str) -> (r: Option<i32>)
    ensures
        r == (match crate::num::int_of_chars(trimmed(s@)) {
            Some(v) => if i32::MIN <= v <= i32::MAX {
                Some(v as i32)
            } else {
                None::<i32>
            },
            None => None::<i32>,
        }),
{
    let cs = str_chars(s);
    let bounds = trimmed_range(cs.as_slice());
    crate::num::chars_to_i32(&cs.as_slice()[bounds.0..bounds.1])
}

} // verus!
