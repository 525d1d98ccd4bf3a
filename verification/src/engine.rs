//! The task engine's decisions. A task is resolved against the task set,
//! the call stack guards against dependency cycles, and composite tasks
//! become small run machines: a sequential run hands out one child at a
//! time and stops at the first failure; a parallel run hands out every
//! child up front and aggregates the outcomes afterwards. The caller
//! performs the actual process work and feeds each child's outcome back.
use crate::config::{TaskConfig, TaskKind};
use crate::strutil::{join_strings, joined_with, lemma_map_values_push, lemma_take_snoc, name_ordering, sort_names};
use crate::task::{display_task_name, displayed_name, resolve_child_name, resolved_child};
use vstd::prelude::*;
use vstd::string::StringExecFns;

verus! {

/// The final outcome of running a task tree: success, or the exit code of
/// the failure that decided it.
#[derive(Debug, Clone, Copy, PartialEq, Eq, Structural)]
pub enum TaskOutcome {
    Success,
    Failed(i32),
}

/// Why a task tree could not be run (or finished abnormally).
#[derive(Debug, Clone)]
pub enum TaskError {
    /// The requested name is not in the task set; `available` lists every
    /// defined task in display form, sorted.
    UnknownTask { query: String, available: Vec<String> },
    /// The request would re-enter a task already being run; `path` is the
    /// full chain of display names ending in the repeated task.
    DependencyCycle { path: Vec<String> },
    /// A shell task names a working directory that does not exist.
    MissingCwd { task: String, cwd: String },
    /// A shell task was terminated by a signal instead of exiting.
    SignalTerminated,
}

/// One named task definition.
#[derive(Debug, Clone)]
pub struct TaskEntry {
    pub name: String,
    pub config: TaskConfig,
}

/// The full task map, as a list of named definitions. The configuration
/// provider guarantees unique names; lookup takes the first match.
#[derive(Debug, Clone)]
pub struct TaskSet {
    pub entries: Vec<TaskEntry>,
}

/// The first definition of a name in the task set, if any.
pub open spec fn find_task(entries: Seq<TaskEntry>, name: Seq<char>) -> Option<TaskConfig>
    decreases entries.len(),
{
    if entries.len() == 0 {
        None
    } else if entries[0].name@ == name {
        Some(entries[0].config)
    } else {
        find_task(entries.drop_first(), name)
    }
}

pub open spec fn has_task(entries: Seq<TaskEntry>, name: Seq<char>) -> bool {
    find_task(entries, name) is Some
}

proof fn lemma_find_task_skip(entries: Seq<TaskEntry>, name: Seq<char>, i: int)
    requires
        0 <= i <= entries.len(),
        forall|j: int| 0 <= j < i ==> entries[j].name@ != name,
    ensures
        find_task(entries, name) == find_task(entries.skip(i), name),
    decreases i,
{
    if i == 0 {
        assert(entries.skip(0) =~= entries);
    } else {
        lemma_find_task_skip(entries.drop_first(), name, i - 1);
        assert(entries.drop_first().skip(i - 1) =~= entries.skip(i));
    }
}

pub fn find_task_index(ts: &TaskSet, name: &String) -> (r: Option<usize>)
    ensures
        match r {
            Some(i) => i < ts.entries@.len() && ts.entries@[i as int].name@ == name@ && find_task(
                ts.entries@,
                name@,
            ) == Some(ts.entries@[i as int].config),
            None => find_task(ts.entries@, name@) is None,
        },
{
    let mut i: usize = 0;
    while i < ts.entries.len()
        invariant
            i <= ts.entries@.len(),
            forall|j: int| 0 <= j < i ==> ts.entries@[j].name@ != name@,
        decreases ts.entries@.len() - i,
    {
        if ts.entries[i].name.eq(name) {
            proof {
                lemma_find_task_skip(ts.entries@, name@, i as int);
                assert(ts.entries@.skip(i as int)[0] == ts.entries@[i as int]);
            }
            return Some(i);
        }
        i = i + 1;
    }
    proof {
        lemma_find_task_skip(ts.entries@, name@, i as int);
        assert(ts.entries@.skip(i as int).len() == 0);
    }
    None
}

/// Whether a name is already on the call stack.
pub open spec fn spec_on_stack(stack: Seq<String>, name: Seq<char>) -> bool {
    exists|i: int| 0 <= i < stack.len() && stack[i]@ == name
}

fn stack_contains(stack: &Vec<String>, name: &String) -> (r: bool)
    ensures
        r == spec_on_stack(stack@, name@),
{
    let mut i: usize = 0;
    while i < stack.len()
        invariant
            i <= stack@.len(),
            forall|j: int| 0 <= j < i ==> stack@[j]@ != name@,
        decreases stack@.len() - i,
    {
        if stack[i].eq(name) {
            return true;
        }
        i = i + 1;
    }
    false
}

pub open spec fn opt_str_view(o: Option<String>) -> Option<Seq<char>> {
    match o {
        Some(s) => Some(s@),
        None => None,
    }
}

fn clone_opt_string(o: &Option<String>) -> (r: Option<String>)
    ensures
        opt_str_view(r) == opt_str_view(*o),
{
    match o {
        Some(s) => Some(s.clone()),
        None => None,
    }
}

fn clone_strings(v: &Vec<String>) -> (r: Vec<String>)
    ensures
        r@.map_values(|s: String| s@) == v@.map_values(|s: String| s@),
{
    let mut r: Vec<String> = Vec::new();
    let mut i: usize = 0;
    while i < v.len()
        invariant
            i <= v@.len(),
            r@.len() == i,
            r@.map_values(|s: String| s@) == v@.take(i as int).map_values(|s: String| s@),
        decreases v@.len() - i,
    {
        let ghost prior = r@;
        let c = v[i].clone();
        r.push(c);
        i = i + 1;
        proof {
            let f = |s: String| s@;
            lemma_map_values_push(prior, f, v@[i - 1]);
            lemma_take_snoc(v@, i - 1);
            lemma_map_values_push(v@.take(i - 1), f, v@[i - 1]);
        }
    }
    proof {
        assert(v@.take(v@.len() as int) =~= v@);
    }
    r
}

/// Every defined task name in display form, sorted.
pub fn available_display_names(ts: &TaskSet) -> (r: Vec<String>)
    ensures
        r@.map_values(|s: String| s@) == ts.entries@.map_values(
            |e: TaskEntry| displayed_name(e.name@),
        ).sort_by(name_ordering(false)),
{
    let mut names: Vec<String> = Vec::new();
    let mut i: usize = 0;
    while i < ts.entries.len()
        invariant
            i <= ts.entries@.len(),
            names@.len() == i,
            names@.map_values(|s: String| s@) == ts.entries@.take(i as int).map_values(
                |e: TaskEntry| displayed_name(e.name@),
            ),
        decreases ts.entries@.len() - i,
    {
        let ghost prior = names@;
        let d = display_task_name(ts.entries[i].name.as_str());
        names.push(d);
        i = i + 1;
        proof {
            let f = |s: String| s@;
            let g = |e: TaskEntry| displayed_name(e.name@);
            lemma_map_values_push(prior, f, d);
            lemma_take_snoc(ts.entries@, i - 1);
            lemma_map_values_push(ts.entries@.take(i - 1), g, ts.entries@[i - 1]);
        }
    }
    proof {
        assert(ts.entries@.take(ts.entries@.len() as int) =~= ts.entries@);
    }
    sort_names(&names, false)
}

/// A sequential composite run: children are handed out in declared order,
/// and the first failure stops the run and becomes its outcome.
#[derive(Debug)]
pub struct SeqRun {
    pub children: Vec<String>,
    pub next_idx: usize,
    pub failed_code: Option<i32>,
    pub stack: Vec<String>,
}

impl SeqRun {
    /// The child that should run next, if the run is still going.
    pub open spec fn pending_name(self) -> Option<Seq<char>> {
        if self.failed_code is Some {
            None
        } else if self.next_idx < self.children@.len() {
            Some(self.children@[self.next_idx as int]@)
        } else {
            None
        }
    }

    /// The outcome if the run stopped now.
    pub open spec fn outcome_spec(self) -> TaskOutcome {
        match self.failed_code {
            Some(c) => TaskOutcome::Failed(c),
            None => TaskOutcome::Success,
        }
    }

    pub fn pending(&self) -> (r: Option<String>)
        ensures
            match r {
                Some(s) => self.pending_name() == Some(s@),
                None => self.pending_name() is None,
            },
    {
        if self.failed_code.is_some() {
            None
        } else if self.next_idx < self.children.len() {
            Some(self.children[self.next_idx].clone())
        } else {
            None
        }
    }

    /// Record the outcome of the child last handed out. A failure ends the
    /// run: no further child is ever handed out, and the failure's exit
    /// code becomes the run's outcome.
    pub fn record(&mut self, outcome: TaskOutcome)
        requires
            old(self).pending_name() is Some,
        ensures
            final(self).children == old(self).children,
            final(self).stack == old(self).stack,
            outcome matches TaskOutcome::Failed(c) ==> {
                &&& final(self).failed_code == Some(c)
                &&& final(self).pending_name() is None
                &&& final(self).outcome_spec() == TaskOutcome::Failed(c)
            },
            outcome == TaskOutcome::Success ==> {
                &&& final(self).failed_code == old(self).failed_code
                &&& final(self).next_idx == old(self).next_idx + 1
            },
    {
        match outcome {
            TaskOutcome::Success => {
                let n = self.children.len();
                assert(self.next_idx < n);
                self.next_idx = self.next_idx + 1;
            },
            TaskOutcome::Failed(c) => {
                self.failed_code = Some(c);
            },
        }
    }

    pub fn outcome(&self) -> (r: TaskOutcome)
        ensures
            r == self.outcome_spec(),
    {
        match self.failed_code {
            Some(c) => TaskOutcome::Failed(c),
            None => TaskOutcome::Success,
        }
    }
}

/// A parallel composite run: every child is launched before any outcome is
/// awaited, and the outcomes are aggregated afterwards.
#[derive(Debug)]
pub struct ParRun {
    pub children: Vec<String>,
    pub displays: Vec<String>,
    pub stack: Vec<String>,
}

/// The first failure in launch order decides a parallel composite; with no
/// failure it succeeds. Every outcome is present: siblings of a failed
/// child still ran to completion.
pub open spec fn spec_first_failure(rs: Seq<TaskOutcome>) -> TaskOutcome
    decreases rs.len(),
{
    if rs.len() == 0 {
        TaskOutcome::Success
    } else if rs[0] matches TaskOutcome::Failed(_) {
        rs[0]
    } else {
        spec_first_failure(rs.drop_first())
    }
}

proof fn lemma_first_failure_skip(rs: Seq<TaskOutcome>, i: int)
    requires
        0 <= i <= rs.len(),
        forall|j: int| 0 <= j < i ==> rs[j] == TaskOutcome::Success,
    ensures
        spec_first_failure(rs) == spec_first_failure(rs.skip(i)),
    decreases i,
{
    if i == 0 {
        assert(rs.skip(0) =~= rs);
    } else {
        lemma_first_failure_skip(rs.drop_first(), i - 1);
        assert(rs.drop_first().skip(i - 1) =~= rs.skip(i));
    }
}

/// Aggregate a parallel run's outcomes, one per child in launch order.
pub fn aggregate_parallel(results: &Vec<TaskOutcome>) -> (r: TaskOutcome)
    ensures
        r == spec_first_failure(results@),
{
    let mut i: usize = 0;
    while i < results.len()
        invariant
            i <= results@.len(),
            forall|j: int| 0 <= j < i ==> results@[j] == TaskOutcome::Success,
        decreases results@.len() - i,
    {
        match results[i] {
            TaskOutcome::Failed(c) => {
                proof {
                    lemma_first_failure_skip(results@, i as int);
                    assert(results@.skip(i as int)[0] == results@[i as int]);
                }
                return TaskOutcome::Failed(c);
            },
            TaskOutcome::Success => {
                i = i + 1;
            },
        }
    }
    proof {
        lemma_first_failure_skip(results@, i as int);
        assert(results@.skip(i as int).len() == 0);
    }
    TaskOutcome::Success
}

/// What starting a task resolves to.
#[derive(Debug)]
pub enum BeginStep {
    /// The request is refused before anything runs.
    Refused(TaskError),
    /// A leaf: run this command, in this working directory if given.
    RunShell { cmd: String, cwd: Option<String> },
    /// A sequential composite, ready to hand out children.
    RunSequential(SeqRun),
    /// A parallel composite, with every child's resolved name and display
    /// label, ready to be launched all at once.
    RunParallel(ParRun),
}

/// Resolve one task against the task set and the current call stack.
///
/// An unknown name is refused with the sorted list of every defined task;
/// a name already on the stack is refused with the full cycle path. A
/// found composite pushes its own name onto the stack its children will
/// be resolved under, and resolves each child reference against its own
/// namespace.
pub fn begin_task(ts: &TaskSet, stack: &Vec<String>, name: &String) -> (r: BeginStep)
    ensures
        !has_task(ts.entries@, name@) ==> (r matches BeginStep::Refused(e) && e matches
            TaskError::UnknownTask { query, available } && query@ == displayed_name(name@)
            && available@.map_values(|s: String| s@) == ts.entries@.map_values(
            |en: TaskEntry| displayed_name(en.name@),
        ).sort_by(name_ordering(false))),
        has_task(ts.entries@, name@) && spec_on_stack(stack@, name@) ==> (r matches
            BeginStep::Refused(e) && e matches TaskError::DependencyCycle { path }
            && path@.map_values(|s: String| s@) == (stack@.map_values(|s: String| s@) + seq![
            name@,
        ]).map_values(|n: Seq<char>| displayed_name(n))),
        (match find_task(ts.entries@, name@) {
            Some(cfg) => !spec_on_stack(stack@, name@) ==> (match cfg.kind {
                TaskKind::Shell { cmd, cwd } => r matches BeginStep::RunShell {
                    cmd: c2,
                    cwd: w2,
                } && c2@ == cmd@ && opt_str_view(w2) == opt_str_view(cwd),
                TaskKind::Composite { children, parallel } => {
                    if parallel {
                        r matches BeginStep::RunParallel(m) && m.children@.map_values(
                            |s: String| s@,
                        ) == children@.map_values(|c: String| resolved_child(name@, c@))
                            && m.displays@.map_values(|s: String| s@) == children@.map_values(
                            |c: String| displayed_name(resolved_child(name@, c@)),
                        ) && m.stack@.map_values(|s: String| s@) == stack@.map_values(
                            |s: String| s@,
                        ).push(name@)
                    } else {
                        r matches BeginStep::RunSequential(m) && m.children@.map_values(
                            |s: String| s@,
                        ) == children@.map_values(|c: String| resolved_child(name@, c@))
                            && m.next_idx == 0 && m.failed_code is None && m.stack@.map_values(
                            |s: String| s@,
                        ) == stack@.map_values(|s: String| s@).push(name@)
                    }
                },
            }),
            None => true,
        }),
{
    let found = find_task_index(ts, name);
    match found {
        None => {
            let available = available_display_names(ts);
            BeginStep::Refused(
                TaskError::UnknownTask { query: display_task_name(name.as_str()), available },
            )
        },
        Some(idx) => {
            if stack_contains(stack, name) {
                let mut path: Vec<String> = Vec::new();
                let mut i: usize = 0;
                while i < stack.len()
                    invariant
                        i <= stack@.len(),
                        path@.len() == i,
                        path@.map_values(|s: String| s@) == stack@.take(i as int).map_values(
                            |s: String| s@,
                        ).map_values(|n: Seq<char>| displayed_name(n)),
                    decreases stack@.len() - i,
                {
                    let ghost prior = path@;
                    let d = display_task_name(stack[i].as_str());
                    path.push(d);
                    i = i + 1;
                    proof {
                        let f = |s: String| s@;
                        let g = |n: Seq<char>| displayed_name(n);
                        lemma_map_values_push(prior, f, d);
                        lemma_take_snoc(stack@, i - 1);
                        lemma_map_values_push(stack@.take(i - 1), f, stack@[i - 1]);
                        lemma_map_values_push(stack@.take(i - 1).map_values(f), g, stack@[i - 1]@);
                    }
                }
                let ghost prior = path@;
                let nd = display_task_name(name.as_str());
                path.push(nd);
                proof {
                    let f = |s: String| s@;
                    let g = |n: Seq<char>| displayed_name(n);
                    assert(stack@.take(stack@.len() as int) =~= stack@);
                    lemma_map_values_push(prior, f, nd);
                    lemma_map_values_push(stack@.map_values(f), g, name@);
                    assert(stack@.map_values(f).push(name@) =~= stack@.map_values(f) + seq![
                        name@,
                    ]);
                }
                BeginStep::Refused(TaskError::DependencyCycle { path })
            } else {
                let entry = &ts.entries[idx];
                match &entry.config.kind {
                    TaskKind::Shell { cmd, cwd } => BeginStep::RunShell {
                        cmd: cmd.clone(),
                        cwd: clone_opt_string(cwd),
                    },
                    TaskKind::Composite { children, parallel } => {
                        let mut new_stack = clone_strings(stack);
                        let ghost ns_prior = new_stack@;
                        new_stack.push(name.clone());
                        proof {
                            let f = |s: String| s@;
                            lemma_map_values_push(ns_prior, f, new_stack@[ns_prior.len() as int]);
                        }
                        let mut abs: Vec<String> = Vec::new();
                        let mut disp: Vec<String> = Vec::new();
                        let mut i: usize = 0;
                        while i < children.len()
                            invariant
                                i <= children@.len(),
                                abs@.len() == i,
                                disp@.len() == i,
                                abs@.map_values(|s: String| s@) == children@.take(
                                    i as int,
                                ).map_values(|c: String| resolved_child(name@, c@)),
                                disp@.map_values(|s: String| s@) == children@.take(
                                    i as int,
                                ).map_values(
                                    |c: String| displayed_name(resolved_child(name@, c@)),
                                ),
                            decreases children@.len() - i,
                        {
                            let ghost abs_prior = abs@;
                            let ghost disp_prior = disp@;
                            let a = resolve_child_name(name.as_str(), children[i].as_str());
                            let d = display_task_name(a.as_str());
                            disp.push(d);
                            abs.push(a);
                            i = i + 1;
                            proof {
                                let f = |s: String| s@;
                                let g1 = |c: String| resolved_child(name@, c@);
                                let g2 = |c: String| displayed_name(resolved_child(name@, c@));
                                lemma_map_values_push(abs_prior, f, abs@[i - 1]);
                                lemma_map_values_push(disp_prior, f, d);
                                lemma_take_snoc(children@, i - 1);
                                lemma_map_values_push(children@.take(i - 1), g1, children@[i - 1]);
                                lemma_map_values_push(children@.take(i - 1), g2, children@[i - 1]);
                            }
                        }
                        proof {
                            assert(children@.take(children@.len() as int) =~= children@);
                        }
                        if *parallel {
                            BeginStep::RunParallel(
                                ParRun { children: abs, displays: disp, stack: new_stack },
                            )
                        } else {
                            BeginStep::RunSequential(
                                SeqRun {
                                    children: abs,
                                    next_idx: 0,
                                    failed_code: None,
                                    stack: new_stack,
                                },
                            )
                        }
                    },
                }
            }
        },
    }
}

/// The command a leaf actually runs: the configured command with the
/// caller's extra arguments appended, space-separated.
pub fn final_shell_command(cmd: &String, args: &Vec<String>) -> (r: String)
    ensures
        args@.len() == 0 ==> r@ == cmd@,
        args@.len() > 0 ==> r@ == cmd@ + seq![' '] + joined_with(
            args@.map_values(|s: String| s@),
            " "@,
        ),
{
    let mut r = cmd.clone();
    if args.len() > 0 {
        let joined = join_strings(args, " ");
        r.append(" ");
        r.append(joined.as_str());
        proof {
            reveal_strlit(" ");
            assert(" "@ =~= seq![' ']);
            assert(r@ =~= cmd@ + seq![' '] + joined_with(args@.map_values(|s: String| s@), " "@));
        }
    }
    r
}

/// The directory a shell task runs in: a declared directory resolved
/// against the project root, or the root itself.
pub open spec fn spec_task_cwd(root: Seq<char>, cwd: Option<Seq<char>>) -> Seq<char> {
    match cwd {
        Some(c) => crate::manager::spec_resolved_path(root, c),
        None => root,
    }
}

pub fn resolve_task_cwd(root: &str, cwd: &Option<String>) -> (r: String)
    ensures
        r@ == spec_task_cwd(root@, opt_str_view(*cwd)),
{
    match cwd {
        Some(c) => crate::manager::resolve_path(root, c.as_str()),
        None => root.to_owned(),
    }
}

/// Check a shell task's explicitly declared working directory before
/// anything is executed: a missing directory refuses the task, naming it
/// and the resolved absolute path.
pub fn check_task_cwd(name: &str, resolved: &String, cwd_exists: bool) -> (r: Result<
    (),
    TaskError,
>)
    ensures
        cwd_exists ==> r is Ok,
        !cwd_exists ==> (r matches Err(e) && e matches TaskError::MissingCwd { task, cwd }
            && task@ == displayed_name(name@) && cwd@ == resolved@),
{
    if cwd_exists {
        Ok(())
    } else {
        Err(
            TaskError::MissingCwd {
                task: display_task_name(name),
                cwd: resolved.clone(),
            },
        )
    }
}

/// Turn a finished shell command's status into the task's outcome: success
/// passes, a nonzero exit code fails with that code, and death by signal
/// is a distinct error rather than an exit code.
pub fn outcome_from_status(success: bool, code: Option<i32>) -> (r: Result<TaskOutcome, TaskError>)
    ensures
        success ==> r == Ok::<TaskOutcome, TaskError>(TaskOutcome::Success),
        !success ==> (match code {
            Some(c) => r == Ok::<TaskOutcome, TaskError>(TaskOutcome::Failed(c)),
            None => r matches Err(TaskError::SignalTerminated),
        }),
{
    if success {
        Ok(TaskOutcome::Success)
    } else {
        match code {
            Some(c) => Ok(TaskOutcome::Failed(c)),
            None => Err(TaskError::SignalTerminated),
        }
    }
}

/// The user-facing description of a task error.
pub open spec fn spec_task_error_message(e: TaskError) -> Seq<char> {
    match e {
        TaskError::UnknownTask { query, available } => {
            if available@.len() == 0 {
                "Unknown task '"@ + query@ + "'. No tasks defined under [tasks]."@
            } else {
                "Unknown task '"@ + query@ + "'. Available tasks: "@ + joined_with(
                    available@.map_values(|s: String| s@),
                    ", "@,
                )
            }
        },
        TaskError::DependencyCycle { path } => "Dependency cycle detected: "@ + joined_with(
            path@.map_values(|s: String| s@),
            " -> "@,
        ),
        TaskError::MissingCwd { task, cwd } => "Task '"@ + task@ + "' cwd does not exist: "@
            + cwd@,
        TaskError::SignalTerminated => "Task terminated by signal"@,
    }
}

impl TaskError {
    /// Render this error for display.
    pub fn message(&self) -> (r: String)
        ensures
            r@ == spec_task_error_message(*self),
    {
        match self {
            TaskError::UnknownTask { query, available } => {
                if available.len() == 0 {
                    let mut r = String::from_str("Unknown task '");
                    r.append(query.as_str());
                    r.append("'. No tasks defined under [tasks].");
                    proof {
                        assert(r@ =~= "Unknown task '"@ + query@
                            + "'. No tasks defined under [tasks]."@);
                    }
                    r
                } else {
                    let mut r = String::from_str("Unknown task '");
                    r.append(query.as_str());
                    r.append("'. Available tasks: ");
                    let joined = join_strings(available, ", ");
                    r.append(joined.as_str());
                    proof {
                        assert(r@ =~= "Unknown task '"@ + query@ + "'. Available tasks: "@
                            + joined_with(available@.map_values(|s: String| s@), ", "@));
                    }
                    r
                }
            },
            TaskError::DependencyCycle { path } => {
                let mut r = String::from_str("Dependency cycle detected: ");
                let joined = join_strings(path, " -> ");
                r.append(joined.as_str());
                r
            },
            TaskError::MissingCwd { task, cwd } => {
                let mut r = String::from_str("Task '");
                r.append(task.as_str());
                r.append("' cwd does not exist: ");
                r.append(cwd.as_str());
                proof {
                    assert(r@ =~= "Task '"@ + task@ + "' cwd does not exist: "@ + cwd@);
                }
                r
            },
            TaskError::SignalTerminated => String::from_str("Task terminated by signal"),
        }
    }
}

} // verus!
