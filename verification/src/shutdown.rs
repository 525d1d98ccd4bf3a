//! The shutdown protocol's decisions, shared by the in-process path (the
//! supervisor tearing itself down) and the out-of-process `stop` command
//! acting on persisted state. The caller performs the signalling and the
//! waiting; everything that determines *what* to signal is decided here.
use crate::state::{ManagerState, ProcessInfo};
use crate::strutil::{lemma_map_values_push, lemma_take_snoc};
use vstd::prelude::*;

verus! {

/// What a `stop` request amounts to.
#[derive(Debug)]
pub enum StopDecision {
    /// Nothing was ever started (or it is already gone): report that and
    /// finish successfully.
    NoState,
    /// Run the protocol below.
    Stop(StopPlan),
}

/// The whole escalating-termination protocol, precomputed: first signal
/// each process group gracefully, wait out the grace period, re-probe the
/// recorded pids, then forcefully kill the groups of survivors, and
/// finally take down the manager itself.
#[derive(Debug)]
pub struct StopPlan {
    /// One negated process-group id per tracked process, in recorded
    /// order: the graceful signal goes to each whole group.
    pub term_group_targets: Vec<i64>,
    /// The recorded pid of each tracked process, to probe for liveness
    /// after the grace period.
    pub check_pids: Vec<u32>,
    /// How long to wait between the graceful signal and escalation.
    pub grace_secs: u64,
    /// The supervisor to take down after its processes.
    pub manager_pid: u32,
}

/// The group target of one process: its group id, negated, so the signal
/// reaches the whole group.
pub open spec fn group_target(p: ProcessInfo) -> i64 {
    (-(p.pgid as int)) as i64
}

/// Decide a stop request. With no loaded state there is nothing to stop
/// and the request succeeds with a report; with state, the full protocol
/// is laid out.
pub fn stop_all(state: &Option<ManagerState>, grace_secs: Option<u64>) -> (r: StopDecision)
    ensures
        state is None ==> r is NoState,
        (match state {
            Some(st) => (r matches StopDecision::Stop(p) && p.term_group_targets@
                == st.processes@.map_values(|q: ProcessInfo| group_target(q)) && p.check_pids@
                == st.processes@.map_values(|q: ProcessInfo| q.pid) && p.grace_secs == (
            match grace_secs {
                Some(g) => g,
                None => 5,
            }) && p.manager_pid == st.manager.pid),
            None => true,
        }),
{
    match state {
        None => StopDecision::NoState,
        Some(st) => {
            let mut targets: Vec<i64> = Vec::new();
            let mut pids: Vec<u32> = Vec::new();
            let mut i: usize = 0;
            proof {
                assert(targets@ =~= st.processes@.take(0).map_values(
                    |q: ProcessInfo| group_target(q),
                ));
                assert(pids@ =~= st.processes@.take(0).map_values(|q: ProcessInfo| q.pid));
            }
            while i < st.processes.len()
                invariant
                    i <= st.processes@.len(),
                    targets@ == st.processes@.take(i as int).map_values(
                        |q: ProcessInfo| group_target(q),
                    ),
                    pids@ == st.processes@.take(i as int).map_values(|q: ProcessInfo| q.pid),
                decreases st.processes@.len() - i,
            {
                let ghost tprior = targets@;
                let ghost pprior = pids@;
                let pgid = st.processes[i].pgid;
                targets.push(-(pgid as i64));
                pids.push(st.processes[i].pid);
                i = i + 1;
                proof {
                    lemma_take_snoc(st.processes@, i - 1);
                    lemma_map_values_push(
                        st.processes@.take(i - 1),
                        |q: ProcessInfo| group_target(q),
                        st.processes@[i - 1],
                    );
                    lemma_map_values_push(
                        st.processes@.take(i - 1),
                        |q: ProcessInfo| q.pid,
                        st.processes@[i - 1],
                    );
                }
            }
            proof {
                assert(st.processes@.take(st.processes@.len() as int) =~= st.processes@);
            }
            let grace = match grace_secs {
                Some(g) => g,
                None => 5,
            };
            StopDecision::Stop(
                StopPlan {
                    term_group_targets: targets,
                    check_pids: pids,
                    grace_secs: grace,
                    manager_pid: st.manager.pid,
                },
            )
        },
    }
}

/// The escalation step: the survivors' group targets, in recorded order.
pub open spec fn spec_escalation(procs: Seq<ProcessInfo>, alive: Seq<bool>) -> Seq<i64>
    decreases procs.len(),
{
    if procs.len() == 0 {
        Seq::<i64>::empty()
    } else {
        spec_escalation(procs.drop_last(), alive.drop_last()) + (if alive.last() {
            seq![group_target(procs.last())]
        } else {
            Seq::<i64>::empty()
        })
    }
}

/// After the grace period, decide which groups still need a forceful
/// kill: exactly those whose recorded pid was still alive when probed.
pub fn escalation_targets(state: &ManagerState, alive: &Vec<bool>) -> (r: Vec<i64>)
    requires
        alive@.len() == state.processes@.len(),
    ensures
        r@ == spec_escalation(state.processes@, alive@),
{
    let mut r: Vec<i64> = Vec::new();
    let mut i: usize = 0;
    proof {
        assert(state.processes@.take(0) =~= Seq::<ProcessInfo>::empty());
        assert(alive@.take(0) =~= Seq::<bool>::empty());
        assert(r@ =~= spec_escalation(state.processes@.take(0), alive@.take(0)));
    }
    while i < state.processes.len()
        invariant
            i <= state.processes@.len(),
            alive@.len() == state.processes@.len(),
            r@ == spec_escalation(state.processes@.take(i as int), alive@.take(i as int)),
        decreases state.processes@.len() - i,
    {
        if alive[i] {
            let pgid = state.processes[i].pgid;
            r.push(-(pgid as i64));
        }
        i = i + 1;
        proof {
            assert(state.processes@.take(i as int).drop_last() =~= state.processes@.take(i - 1));
            assert(alive@.take(i as int).drop_last() =~= alive@.take(i - 1));
            assert(state.processes@.take(i as int).last() == state.processes@[i - 1]);
            assert(alive@.take(i as int).last() == alive@[i - 1]);
            if alive@[i - 1] {
                assert(r@ =~= spec_escalation(
                    state.processes@.take(i as int),
                    alive@.take(i as int),
                ));
            } else {
                assert(r@ =~= spec_escalation(
                    state.processes@.take(i as int),
                    alive@.take(i as int),
                ));
            }
        }
    }
    proof {
        assert(state.processes@.take(state.processes@.len() as int) =~= state.processes@);
        assert(alive@.take(alive@.len() as int) =~= alive@);
    }
    r
}

} // verus!
