//! The `list` view of a project: which processes and tasks are
//! configured, sorted case-insensitively for display, in a human layout
//! and a names-only layout.
use crate::config::{ConfigSource, ProcessConfig, TaskKind};
use crate::engine::{find_task, TaskEntry, TaskSet};
use crate::num::{dec_seq, dec_usize};
use crate::strutil::{
    join_strings, joined_with, lemma_map_values_push, lemma_take_snoc, name_ordering, sort_names,
};
use crate::task::{display_task_name, displayed_name, resolve_child_name, resolved_child};
use vstd::prelude::*;
use vstd::string::StringExecFns;

verus! {

/// One task as shown by `list`.
#[derive(Debug)]
pub struct TaskInfo {
    pub name: String,
    pub kind: String,
    pub children: Vec<String>,
    pub parallel: bool,
}

/// Everything `list` shows.
#[derive(Debug)]
pub struct ListInfo {
    pub source: ConfigSource,
    pub processes: Vec<String>,
    pub tasks: Vec<TaskInfo>,
}

/// Whether a task line correctly presents the definition under a key:
/// the display name, the kind, and for a composite its resolved children,
/// sorted for display.
pub open spec fn spec_task_info(t: TaskInfo, key: Seq<char>, cfg: crate::config::TaskConfig) -> bool {
    &&& t.name@ == displayed_name(key)
    &&& match cfg.kind {
        TaskKind::Shell { cmd, cwd } => {
            &&& t.kind@ == "shell"@
            &&& t.children@.len() == 0
            &&& t.parallel == false
        },
        TaskKind::Composite { children, parallel } => {
            &&& t.kind@ == "composite"@
            &&& t.parallel == parallel
            &&& t.children@.map_values(|s: String| s@) == children@.map_values(
                |c: String| displayed_name(resolved_child(key, c@)),
            ).sort_by(name_ordering(true))
        },
    }
}

proof fn lemma_find_task_some(entries: Seq<TaskEntry>, name: Seq<char>)
    requires
        exists|i: int| 0 <= i < entries.len() && entries[i].name@ == name,
    ensures
        find_task(entries, name) is Some,
    decreases entries.len(),
{
    if entries.len() > 0 && entries[0].name@ != name {
        let i = choose|i: int| 0 <= i < entries.len() && entries[i].name@ == name;
        assert(entries.drop_first()[i - 1].name@ == name);
        lemma_find_task_some(entries.drop_first(), name);
    }
}

fn build_task_info(ts: &TaskSet, key: &String, idx: usize) -> (r: TaskInfo)
    requires
        idx < ts.entries@.len(),
        find_task(ts.entries@, key@) == Some(ts.entries@[idx as int].config),
    ensures
        spec_task_info(r, key@, find_task(ts.entries@, key@)->0),
{
    let name = display_task_name(key.as_str());
    match &ts.entries[idx].config.kind {
        TaskKind::Shell { .. } => TaskInfo {
            name,
            kind: String::from_str("shell"),
            children: Vec::new(),
            parallel: false,
        },
        TaskKind::Composite { children, parallel } => {
            let mut resolved: Vec<String> = Vec::new();
            let mut i: usize = 0;
            proof {
                assert(resolved@.map_values(|s: String| s@) =~= children@.take(0).map_values(
                    |c: String| displayed_name(resolved_child(key@, c@)),
                ));
            }
            while i < children.len()
                invariant
                    i <= children@.len(),
                    resolved@.len() == i,
                    resolved@.map_values(|s: String| s@) == children@.take(i as int).map_values(
                        |c: String| displayed_name(resolved_child(key@, c@)),
                    ),
                decreases children@.len() - i,
            {
                let ghost prior = resolved@;
                let a = resolve_child_name(key.as_str(), children[i].as_str());
                let d = display_task_name(a.as_str());
                resolved.push(d);
                i = i + 1;
                proof {
                    let f = |s: String| s@;
                    let g = |c: String| displayed_name(resolved_child(key@, c@));
                    lemma_map_values_push(prior, f, resolved@[i - 1]);
                    lemma_take_snoc(children@, i - 1);
                    lemma_map_values_push(children@.take(i - 1), g, children@[i - 1]);
                }
            }
            proof {
                assert(children@.take(children@.len() as int) =~= children@);
            }
            let sorted = sort_names(&resolved, true);
            TaskInfo {
                name,
                kind: String::from_str("composite"),
                children: sorted,
                parallel: *parallel,
            }
        },
    }
}

/// Assemble the `list` view: process names sorted case-insensitively, and
/// (for a project with tasks) one entry per defined task, ordered by the
/// case-insensitively sorted internal keys.
pub fn gather_list_info(source: ConfigSource, configs: &Vec<ProcessConfig>, tasks: &Option<
    TaskSet,
>) -> (r: ListInfo)
    ensures
        r.source == source,
        r.processes@.map_values(|s: String| s@) == configs@.map_values(
            |c: ProcessConfig| c.name@,
        ).sort_by(name_ordering(true)),
        (match tasks {
            Some(ts) => {
                let keys = ts.entries@.map_values(|e: TaskEntry| e.name@).sort_by(
                    name_ordering(true),
                );
                &&& r.tasks@.len() == keys.len()
                &&& forall|i: int|
                    0 <= i < keys.len() ==> find_task(ts.entries@, keys[i]) is Some
                        && spec_task_info(
                        #[trigger] r.tasks@[i],
                        keys[i],
                        find_task(ts.entries@, keys[i])->0,
                    )
            },
            None => r.tasks@.len() == 0,
        }),
{
    let mut names: Vec<String> = Vec::new();
    let mut i: usize = 0;
    proof {
        assert(names@.map_values(|s: String| s@) =~= configs@.take(0).map_values(
            |c: ProcessConfig| c.name@,
        ));
    }
    while i < configs.len()
        invariant
            i <= configs@.len(),
            names@.len() == i,
            names@.map_values(|s: String| s@) == configs@.take(i as int).map_values(
                |c: ProcessConfig| c.name@,
            ),
        decreases configs@.len() - i,
    {
        let ghost prior = names@;
        names.push(configs[i].name.clone());
        i = i + 1;
        proof {
            let f = |s: String| s@;
            let g = |c: ProcessConfig| c.name@;
            lemma_map_values_push(prior, f, names@[i - 1]);
            lemma_take_snoc(configs@, i - 1);
            lemma_map_values_push(configs@.take(i - 1), g, configs@[i - 1]);
        }
    }
    proof {
        assert(configs@.take(configs@.len() as int) =~= configs@);
    }
    let processes = sort_names(&names, true);
    let mut out_tasks: Vec<TaskInfo> = Vec::new();
    match tasks {
        None => {},
        Some(ts) => {
            let mut keys: Vec<String> = Vec::new();
            let mut i: usize = 0;
            proof {
                assert(keys@.map_values(|s: String| s@) =~= ts.entries@.take(0).map_values(
                    |e: TaskEntry| e.name@,
                ));
            }
            while i < ts.entries.len()
                invariant
                    i <= ts.entries@.len(),
                    keys@.len() == i,
                    keys@.map_values(|s: String| s@) == ts.entries@.take(i as int).map_values(
                        |e: TaskEntry| e.name@,
                    ),
                decreases ts.entries@.len() - i,
            {
                let ghost prior = keys@;
                keys.push(ts.entries[i].name.clone());
                i = i + 1;
                proof {
                    let f = |s: String| s@;
                    let g = |e: TaskEntry| e.name@;
                    lemma_map_values_push(prior, f, keys@[i - 1]);
                    lemma_take_snoc(ts.entries@, i - 1);
                    lemma_map_values_push(ts.entries@.take(i - 1), g, ts.entries@[i - 1]);
                }
            }
            proof {
                assert(ts.entries@.take(ts.entries@.len() as int) =~= ts.entries@);
            }
            let sorted_keys = sort_names(&keys, true);
            let ghost keyseq = ts.entries@.map_values(|e: TaskEntry| e.name@).sort_by(
                name_ordering(true),
            );
            let mut j: usize = 0;
            while j < sorted_keys.len()
                invariant
                    j <= sorted_keys@.len(),
                    out_tasks@.len() == j,
                    sorted_keys@.map_values(|s: String| s@) == keyseq,
                    keyseq == ts.entries@.map_values(|e: TaskEntry| e.name@).sort_by(
                        name_ordering(true),
                    ),
                    forall|k: int|
                        0 <= k < j ==> find_task(ts.entries@, #[trigger] keyseq[k]) is Some
                            && spec_task_info(
                            out_tasks@[k],
                            keyseq[k],
                            find_task(ts.entries@, keyseq[k])->0,
                        ),
                decreases sorted_keys@.len() - j,
            {
                let key = &sorted_keys[j];
                proof {
                    let names_all = ts.entries@.map_values(|e: TaskEntry| e.name@);
                    crate::strutil::lemma_name_ordering_total(true);
                    names_all.lemma_sort_by_ensures(name_ordering(true));
                    broadcast use vstd::seq_lib::group_to_multiset_ensures;

                    assert(sorted_keys@.map_values(|s: String| s@)[j as int] == key@);
                    assert(keyseq[j as int] == key@);
                    assert(keyseq.contains(key@)) by {
                        assert(keyseq[j as int] == key@);
                    }
                    assert(keyseq.to_multiset() =~= names_all.to_multiset());
                    assert(keyseq.to_multiset().count(key@) > 0);
                    assert(names_all.contains(key@));
                    let w = choose|w: int| 0 <= w < names_all.len() && names_all[w] == key@;
                    assert(ts.entries@[w].name@ == key@);
                    lemma_find_task_some(ts.entries@, key@);
                }
                let ghost prior_tasks = out_tasks@;
                match crate::engine::find_task_index(ts, key) {
                    Some(idx) => {
                        let info = build_task_info(ts, key, idx);
                        out_tasks.push(info);
                    },
                    None => {
                        proof {
                            assert(false);
                        }
                    },
                }
                j = j + 1;
                proof {
                    assert forall|k: int|
                        0 <= k < j implies find_task(ts.entries@, #[trigger] keyseq[k]) is Some
                        && spec_task_info(
                        out_tasks@[k],
                        keyseq[k],
                        find_task(ts.entries@, keyseq[k])->0,
                    ) by {
                        if k == j - 1 {
                            assert(out_tasks@[k] == out_tasks@.last());
                            assert(find_task(ts.entries@, keyseq[k]) is Some);
                        } else {
                            assert(out_tasks@[k] == prior_tasks[k]);
                        }
                    }
                }
            }
            proof {
                assert(sorted_keys@.map_values(|s: String| s@).len() == keyseq.len());
                assert(out_tasks@.len() == keyseq.len());
                assert forall|k: int|
                    0 <= k < keyseq.len() implies find_task(ts.entries@, keyseq[k]) is Some
                    && spec_task_info(
                    #[trigger] out_tasks@[k],
                    keyseq[k],
                    find_task(ts.entries@, keyseq[k])->0,
                ) by {
                    assert(find_task(ts.entries@, #[trigger] keyseq[k]) is Some);
                }
            }
        },
    }
    ListInfo { source, processes, tasks: out_tasks }
}

/// The body lines of the process section: two spaces, the name, newline.
pub open spec fn name_lines(names: Seq<Seq<char>>) -> Seq<char>
    decreases names.len(),
{
    if names.len() == 0 {
        Seq::<char>::empty()
    } else {
        name_lines(names.drop_last()) + "  "@ + names.last() + "\n"@
    }
}

/// One task line: composites show their (already resolved and sorted)
/// children.
pub open spec fn task_line(t: TaskInfo) -> Seq<char> {
    if t.kind@ == "composite"@ {
        if t.children@.len() == 0 {
            "  "@ + t.name@ + " (group)\n"@
        } else {
            "  "@ + t.name@ + " (group: "@ + joined_with(
                t.children@.map_values(|s: String| s@),
                ", "@,
            ) + ")\n"@
        }
    } else {
        "  "@ + t.name@ + "\n"@
    }
}

pub open spec fn task_lines(tasks: Seq<TaskInfo>) -> Seq<char>
    decreases tasks.len(),
{
    if tasks.len() == 0 {
        Seq::<char>::empty()
    } else {
        task_lines(tasks.drop_last()) + task_line(tasks.last())
    }
}

/// The name of a source as shown in the header.
pub open spec fn source_name(source: ConfigSource) -> Seq<char> {
    match source {
        ConfigSource::ProcToml => "ProcToml"@,
        ConfigSource::Procfile => "Procfile"@,
    }
}

/// The process section, if shown.
pub open spec fn spec_process_section(info: ListInfo, show: bool) -> Seq<char> {
    if show {
        "Processes ("@ + dec_seq(info.processes@.len()) + "):\n"@ + (if info.processes@.len()
            == 0 {
            "  (none)\n"@
        } else {
            name_lines(info.processes@.map_values(|s: String| s@))
        })
    } else {
        Seq::<char>::empty()
    }
}

/// The task section, if shown: a Procfile project has no tasks to list.
pub open spec fn spec_task_section(info: ListInfo, show: bool) -> Seq<char> {
    if show {
        match info.source {
            ConfigSource::Procfile => "Tasks: (not available with Procfile)\n"@,
            ConfigSource::ProcToml => "Tasks ("@ + dec_seq(info.tasks@.len()) + "):\n"@ + (
            if info.tasks@.len() == 0 {
                "  (none)\n"@
            } else {
                task_lines(info.tasks@)
            }),
        }
    } else {
        Seq::<char>::empty()
    }
}

/// The whole human-readable listing.
pub open spec fn spec_format_list(info: ListInfo, processes_only: bool, tasks_only: bool) -> Seq<
    char,
> {
    "Source: "@ + source_name(info.source) + "\n"@ + spec_process_section(info, !tasks_only)
        + spec_task_section(info, !processes_only)
}

fn append_name_lines(out: &mut String, names: &Vec<String>)
    ensures
        final(out)@ == old(out)@ + name_lines(names@.map_values(|s: String| s@)),
{
    let ghost base = out@;
    let mut i: usize = 0;
    proof {
        assert(names@.take(0).map_values(|s: String| s@) =~= Seq::<Seq<char>>::empty());
        assert(out@ =~= base + name_lines(names@.take(0).map_values(|s: String| s@)));
    }
    while i < names.len()
        invariant
            i <= names@.len(),
            out@ == base + name_lines(names@.take(i as int).map_values(|s: String| s@)),
        decreases names@.len() - i,
    {
        out.append("  ");
        out.append(names[i].as_str());
        out.append("\n");
        i = i + 1;
        proof {
            let f = |s: String| s@;
            let m = names@.take(i as int).map_values(f);
            lemma_take_snoc(names@, i - 1);
            lemma_map_values_push(names@.take(i - 1), f, names@[i - 1]);
            assert(m.drop_last() =~= names@.take(i - 1).map_values(f));
            assert(m.last() == names@[i - 1]@);
            assert(out@ =~= base + name_lines(m));
        }
    }
    proof {
        assert(names@.take(names@.len() as int) =~= names@);
    }
}

fn append_task_lines(out: &mut String, tasks: &Vec<TaskInfo>)
    ensures
        final(out)@ == old(out)@ + task_lines(tasks@),
{
    let ghost base = out@;
    let mut i: usize = 0;
    proof {
        assert(tasks@.take(0) =~= Seq::<TaskInfo>::empty());
        assert(out@ =~= base + task_lines(tasks@.take(0)));
    }
    while i < tasks.len()
        invariant
            i <= tasks@.len(),
            out@ == base + task_lines(tasks@.take(i as int)),
        decreases tasks@.len() - i,
    {
        let t = &tasks[i];
        out.append("  ");
        out.append(t.name.as_str());
        if t.kind.eq(&String::from_str("composite")) {
            if t.children.len() == 0 {
                out.append(" (group)\n");
            } else {
                out.append(" (group: ");
                let joined = join_strings(&t.children, ", ");
                out.append(joined.as_str());
                out.append(")\n");
            }
        } else {
            out.append("\n");
        }
        i = i + 1;
        proof {
            lemma_take_snoc(tasks@, i - 1);
            assert(tasks@.take(i as int).drop_last() =~= tasks@.take(i - 1));
            assert(tasks@.take(i as int).last() == tasks@[i - 1]);
            assert(out@ =~= base + task_lines(tasks@.take(i as int)));
        }
    }
    proof {
        assert(tasks@.take(tasks@.len() as int) =~= tasks@);
    }
}

/// Render the listing for people.
pub fn format_list_human(info: &ListInfo, processes_only: bool, tasks_only: bool) -> (r: String)
    ensures
        r@ == spec_format_list(*info, processes_only, tasks_only),
{
    let mut out = String::from_str("Source: ");
    match info.source {
        ConfigSource::ProcToml => out.append("ProcToml"),
        ConfigSource::Procfile => out.append("Procfile"),
    }
    out.append("\n");
    let ghost header = out@;
    if !tasks_only {
        out.append("Processes (");
        let n = dec_usize(info.processes.len());
        out.append(n.as_str());
        out.append("):\n");
        if info.processes.len() == 0 {
            out.append("  (none)\n");
        } else {
            append_name_lines(&mut out, &info.processes);
        }
        proof {
            assert(out@ =~= header + spec_process_section(*info, true));
        }
    }
    let ghost mid = out@;
    proof {
        assert(mid =~= header + spec_process_section(*info, !tasks_only));
    }
    if !processes_only {
        match info.source {
            ConfigSource::Procfile => {
                out.append("Tasks: (not available with Procfile)\n");
            },
            ConfigSource::ProcToml => {
                out.append("Tasks (");
                let n = dec_usize(info.tasks.len());
                out.append(n.as_str());
                out.append("):\n");
                if info.tasks.len() == 0 {
                    out.append("  (none)\n");
                } else {
                    append_task_lines(&mut out, &info.tasks);
                }
            },
        }
        proof {
            assert(out@ =~= mid + spec_task_section(*info, true));
        }
    }
    proof {
        assert(out@ =~= spec_format_list(*info, processes_only, tasks_only));
    }
    out
}

/// The names-only listing: selected names, one per line; a Procfile
/// project contributes no task names.
pub open spec fn spec_names_only(info: ListInfo, processes_only: bool, tasks_only: bool) -> Seq<
    Seq<char>,
> {
    (if !tasks_only {
        info.processes@.map_values(|s: String| s@)
    } else {
        Seq::<Seq<char>>::empty()
    }) + (if !processes_only && info.source == ConfigSource::ProcToml {
        info.tasks@.map_values(|t: TaskInfo| t.name@)
    } else {
        Seq::<Seq<char>>::empty()
    })
}

/// Render the names-only listing.
pub fn format_list_names_only(info: &ListInfo, processes_only: bool, tasks_only: bool) -> (r:
    String)
    ensures
        r@ == joined_with(spec_names_only(*info, processes_only, tasks_only), "\n"@),
{
    let mut lines: Vec<String> = Vec::new();
    if !tasks_only {
        let mut i: usize = 0;
        while i < info.processes.len()
            invariant
                i <= info.processes@.len(),
                lines@.len() == i,
                lines@.map_values(|s: String| s@) == info.processes@.take(i as int).map_values(
                    |s: String| s@,
                ),
            decreases info.processes@.len() - i,
        {
            let ghost prior = lines@;
            lines.push(info.processes[i].clone());
            i = i + 1;
            proof {
                let f = |s: String| s@;
                lemma_map_values_push(prior, f, lines@[i - 1]);
                lemma_take_snoc(info.processes@, i - 1);
                lemma_map_values_push(info.processes@.take(i - 1), f, info.processes@[i - 1]);
            }
        }
        proof {
            assert(info.processes@.take(info.processes@.len() as int) =~= info.processes@);
        }
    }
    let ghost first_part = lines@.map_values(|s: String| s@);
    let show_tasks = if processes_only {
        false
    } else {
        match info.source {
            ConfigSource::ProcToml => true,
            ConfigSource::Procfile => false,
        }
    };
    if show_tasks {
        let mut i: usize = 0;
        while i < info.tasks.len()
            invariant
                i <= info.tasks@.len(),
                lines@.len() == first_part.len() + i,
                lines@.map_values(|s: String| s@) == first_part + info.tasks@.take(
                    i as int,
                ).map_values(|t: TaskInfo| t.name@),
            decreases info.tasks@.len() - i,
        {
            let ghost prior = lines@;
            lines.push(info.tasks[i].name.clone());
            i = i + 1;
            proof {
                let f = |s: String| s@;
                let g = |t: TaskInfo| t.name@;
                lemma_map_values_push(prior, f, lines@[lines@.len() - 1]);
                lemma_take_snoc(info.tasks@, i - 1);
                lemma_map_values_push(info.tasks@.take(i - 1), g, info.tasks@[i - 1]);
                assert(lines@.map_values(f) =~= first_part + info.tasks@.take(i as int).map_values(
                    g,
                ));
            }
        }
        proof {
            assert(info.tasks@.take(info.tasks@.len() as int) =~= info.tasks@);
        }
    }
    proof {
        assert(lines@.map_values(|s: String| s@) =~= spec_names_only(
            *info,
            processes_only,
            tasks_only,
        ));
    }
    join_strings(&lines, "\n")
}

} // verus!
