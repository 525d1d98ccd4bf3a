//! Supervisor-side planning: how each configured process will be spawned
//! and recorded, and which recorded processes a log request selects. The
//! spawning itself (process groups, pipes, signals) is the caller's work;
//! every path, default and error message is decided here, before anything
//! runs.
use crate::config::ProcessConfig;
use crate::state::{ManagerInfo, ManagerState, ProcessInfo};
use crate::strutil::lemma_take_snoc;
use vstd::prelude::*;
use vstd::string::StringExecFns;

verus! {

/// A path resolved against the project root: an absolute path (leading
/// separator) passes through, anything else is taken relative to the root
/// (given without a trailing separator).
pub open spec fn spec_resolved_path(root: Seq<char>, p: Seq<char>) -> Seq<char> {
    if p.len() > 0 && p[0] == '/' {
        p
    } else {
        root + seq!['/'] + p
    }
}

pub fn resolve_path(root: &str, p: &str) -> (r: String)
    ensures
        r@ == spec_resolved_path(root@, p@),
{
    let mut absolute = false;
    if !p.is_empty() {
        if p.get_char(0) == '/' {
            absolute = true;
        }
    }
    if absolute {
        p.to_owned()
    } else {
        let mut r = root.to_owned();
        r.append("/");
        r.append(p);
        proof {
            reveal_strlit("/");
            assert("/"@ =~= seq!['/']);
            assert(r@ =~= root@ + seq!['/'] + p@);
        }
        r
    }
}

/// The default log file name of a process stream.
pub open spec fn default_log_name(name: Seq<char>, suffix: Seq<char>) -> Seq<char> {
    name + suffix
}

/// Everything needed to spawn and record one process, resolved up front.
#[derive(Debug)]
pub struct ProcessPlan {
    pub name: String,
    pub command: String,
    /// The working directory to spawn in, already absolute, if one was
    /// declared.
    pub cwd_abs: Option<String>,
    /// The declared working directory as given, recorded as-is.
    pub cwd_raw: Option<String>,
    /// The log paths as recorded in the state (explicit or defaulted).
    pub stdout_log: String,
    pub stderr_log: String,
    /// The absolute paths the log sinks write to.
    pub stdout_sink: String,
    pub stderr_sink: String,
}

/// How a declared working directory resolves for a process.
pub open spec fn spec_process_cwd(root: Seq<char>, cwd: Option<String>) -> Option<Seq<char>> {
    match cwd {
        Some(c) => Some(spec_resolved_path(root, c@)),
        None => None,
    }
}

/// The recorded stdout log path of a process.
pub open spec fn spec_stdout_log(c: ProcessConfig) -> Seq<char> {
    match c.stdout_log {
        Some(s) => s@,
        None => c.name@ + ".out.log"@,
    }
}

/// The recorded stderr log path of a process.
pub open spec fn spec_stderr_log(c: ProcessConfig) -> Seq<char> {
    match c.stderr_log {
        Some(s) => s@,
        None => c.name@ + ".err.log"@,
    }
}

/// Resolve one process's spawn plan. A declared working directory that
/// does not exist fails the whole startup, before any process is spawned
/// or state persisted, naming the process and the resolved absolute path.
pub fn plan_process(config: &ProcessConfig, root: &str, cwd_exists: bool) -> (r: Result<
    ProcessPlan,
    String,
>)
    ensures
        (config.cwd is Some && !cwd_exists) ==> (r matches Err(m) && m@ == "Process '"@
            + config.name@ + "' cwd does not exist: "@ + spec_resolved_path(
            root@,
            config.cwd->0@,
        )),
        (config.cwd is None || cwd_exists) ==> (r matches Ok(p) && {
            &&& p.name@ == config.name@
            &&& p.command@ == config.command@
            &&& crate::engine::opt_str_view(p.cwd_abs) == spec_process_cwd(root@, config.cwd)
            &&& crate::engine::opt_str_view(p.cwd_raw) == crate::engine::opt_str_view(config.cwd)
            &&& p.stdout_log@ == spec_stdout_log(*config)
            &&& p.stderr_log@ == spec_stderr_log(*config)
            &&& p.stdout_sink@ == spec_resolved_path(root@, spec_stdout_log(*config))
            &&& p.stderr_sink@ == spec_resolved_path(root@, spec_stderr_log(*config))
        }),
{
    let cwd_abs: Option<String> = match &config.cwd {
        Some(c) => Some(resolve_path(root, c.as_str())),
        None => None,
    };
    if let Some(abs) = &cwd_abs {
        if !cwd_exists {
            let mut m = String::from_str("Process '");
            m.append(config.name.as_str());
            m.append("' cwd does not exist: ");
            m.append(abs.as_str());
            proof {
                assert(m@ =~= "Process '"@ + config.name@ + "' cwd does not exist: "@
                    + spec_resolved_path(root@, config.cwd->0@));
            }
            return Err(m);
        }
    }
    let stdout_log = match &config.stdout_log {
        Some(s) => s.clone(),
        None => {
            let mut n = config.name.clone();
            n.append(".out.log");
            n
        },
    };
    let stderr_log = match &config.stderr_log {
        Some(s) => s.clone(),
        None => {
            let mut n = config.name.clone();
            n.append(".err.log");
            n
        },
    };
    let stdout_sink = resolve_path(root, stdout_log.as_str());
    let stderr_sink = resolve_path(root, stderr_log.as_str());
    let cwd_raw: Option<String> = match &config.cwd {
        Some(c) => Some(c.clone()),
        None => None,
    };
    Ok(
        ProcessPlan {
            name: config.name.clone(),
            command: config.command.clone(),
            cwd_abs,
            cwd_raw,
            stdout_log,
            stderr_log,
            stdout_sink,
            stderr_sink,
        },
    )
}

/// Record one spawned process, immutably, from its plan and the
/// observations made at spawn time.
pub fn record_process(plan: &ProcessPlan, pid: u32, pgid: i32, now_ms: i64) -> (r: ProcessInfo)
    ensures
        r.name@ == plan.name@,
        r.pid == pid,
        r.pgid == pgid,
        r.cmd@ == plan.command@,
        crate::engine::opt_str_view(r.cwd) == crate::engine::opt_str_view(plan.cwd_raw),
        r.stdout_log@ == plan.stdout_log@,
        r.stderr_log@ == plan.stderr_log@,
        r.started_at_ms == now_ms,
{
    ProcessInfo {
        name: plan.name.clone(),
        pid,
        pgid,
        cmd: plan.command.clone(),
        cwd: match &plan.cwd_raw {
            Some(c) => Some(c.clone()),
            None => None,
        },
        stdout_log: plan.stdout_log.clone(),
        stderr_log: plan.stderr_log.clone(),
        started_at_ms: now_ms,
    }
}

/// The single state value persisted once every process is up: the "ready"
/// signal every other invocation reads.
pub fn make_manager_state(pid: u32, now_ms: i64, root: &str, processes: Vec<ProcessInfo>) -> (r:
    ManagerState)
    ensures
        r.manager.pid == pid,
        r.manager.started_at_ms == now_ms,
        r.manager.project_root@ == root@,
        r.manager.version == 1,
        r.processes == processes,
{
    ManagerState {
        manager: ManagerInfo {
            pid,
            started_at_ms: now_ms,
            project_root: root.to_owned(),
            version: 1,
        },
        processes,
    }
}

impl ProcessInfo {
    /// An equal copy of this record.
    pub fn duplicate(&self) -> (r: ProcessInfo)
        ensures
            r == *self,
    {
        ProcessInfo {
            name: self.name.clone(),
            pid: self.pid,
            pgid: self.pgid,
            cmd: self.cmd.clone(),
            cwd: match &self.cwd {
                Some(c) => Some(c.clone()),
                None => None,
            },
            stdout_log: self.stdout_log.clone(),
            stderr_log: self.stderr_log.clone(),
            started_at_ms: self.started_at_ms,
        }
    }
}

/// Whether a process record matches a log request's filter: no filter
/// selects everything.
pub open spec fn spec_selected(p: ProcessInfo, name: Option<String>) -> bool {
    match name {
        Some(n) => p.name@ == n@,
        None => true,
    }
}

/// The processes a log request addresses, in recorded order.
pub fn select_processes(state: &ManagerState, name: &Option<String>) -> (r: Vec<ProcessInfo>)
    ensures
        r@ == state.processes@.filter(|p: ProcessInfo| spec_selected(p, *name)),
{
    let ghost pred = |p: ProcessInfo| spec_selected(p, *name);
    let mut r: Vec<ProcessInfo> = Vec::new();
    let mut i: usize = 0;
    proof {
        reveal(Seq::filter);
        assert(state.processes@.take(0) =~= Seq::<ProcessInfo>::empty());
        assert(r@ =~= state.processes@.take(0).filter(pred));
    }
    while i < state.processes.len()
        invariant
            i <= state.processes@.len(),
            pred == (|p: ProcessInfo| spec_selected(p, *name)),
            r@ == state.processes@.take(i as int).filter(pred),
        decreases state.processes@.len() - i,
    {
        let p = &state.processes[i];
        let wanted = match name {
            Some(n) => p.name.eq(n),
            None => true,
        };
        if wanted {
            r.push(p.duplicate());
        }
        i = i + 1;
        proof {
            reveal(Seq::filter);
            lemma_take_snoc(state.processes@, i - 1);
            assert(state.processes@.take(i as int).drop_last() =~= state.processes@.take(i - 1));
            if wanted {
                assert(r@ =~= state.processes@.take(i as int).filter(pred));
            } else {
                assert(r@ =~= state.processes@.take(i as int).filter(pred));
            }
        }
    }
    proof {
        assert(state.processes@.take(state.processes@.len() as int) =~= state.processes@);
    }
    r
}

} // verus!
