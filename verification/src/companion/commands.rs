//! Questions about the companions that are running.

use crate::companion::entity::{ActiveProcess, Companion};
use vstd::prelude::*;

verus! {

/// The process ids of those of the first `k` processes that are window
/// managed, in their order.
pub open spec fn controlled_pids(processes: Seq<ActiveProcess>, k: int) -> Seq<u32>
    decreases k,
{
    if k <= 0 || k > processes.len() {
        Seq::empty()
    } else if processes[k - 1].is_window_managed {
        controlled_pids(processes, k - 1).push(processes[k - 1].pid)
    } else {
        controlled_pids(processes, k - 1)
    }
}

/// The process ids of the running companions whose windows are managed, in
/// the order of the processes.
pub fn get_controlled_pids(processes: &Vec<ActiveProcess>) -> (pids: Vec<u32>)
    ensures
        pids@ == controlled_pids(processes@, processes.len() as int),
{
    let mut pids: Vec<u32> = Vec::new();
    let mut i: usize = 0;
    while i < processes.len()
        invariant
            i <= processes.len(),
            pids@ == controlled_pids(processes@, i as int),
        decreases processes.len() - i,
    {
        if processes[i].is_window_managed {
            pids.push(processes[i].pid);
        }
        i = i + 1;
    }
    pids
}

/// The process ids of all running companions, in the order of the
/// processes.
pub fn get_all_pids(processes: &Vec<ActiveProcess>) -> (pids: Vec<u32>)
    ensures
        pids@ == Seq::new(processes@.len(), |i: int| processes@[i].pid),
{
    let mut pids: Vec<u32> = Vec::new();
    let mut i: usize = 0;
    while i < processes.len()
        invariant
            i <= processes.len(),
            pids@.len() == i,
            forall|j: int| 0 <= j < i ==> pids@[j] == processes@[j].pid,
        decreases processes.len() - i,
    {
        pids.push(processes[i].pid);
        i = i + 1;
    }
    assert(pids@ =~= Seq::new(processes@.len(), |i: int| processes@[i].pid));
    pids
}

/// Whether a companion is to be started: the feature is switched on, and so
/// is the companion.
pub fn may_launch(global_enabled: bool, comp: &Companion) -> (go: bool)
    ensures
        go == (global_enabled && comp.is_enabled),
{
    global_enabled && comp.is_enabled
}

/// Whether the companions of the application are started after all
/// companions were stopped: only where the feature is switched on, and only
/// when the application itself has just started.
pub fn refresh_companions(is_enabled: bool, is_initial_start: bool) -> (start: bool)
    ensures
        start == (is_enabled && is_initial_start),
{
    is_enabled && is_initial_start
}

} // verus!
