//! One monitoring tick: absorb a fresh snapshot into the per-process
//! registry, classify every process against its own updated baseline,
//! log the resulting alerts, and re-sort the visible process list.

use std::collections::HashMap;
use vstd::prelude::*;

use crate::app::{App, ProcessInfo};
use crate::classify::{
    classify_sample, cpu_anomaly, cpu_alert_text, mem_anomaly, mem_alert_text, AlertConfig,
};
use crate::order::resort_spec;
use crate::process_data::{retained, seq_average, ProcessData, MAX_SAMPLES};

verus! {

/// Every window in the registry is well formed.
pub open spec fn reg_wf(reg: Map<u64, ProcessData>) -> bool {
    forall|p: u64| #[trigger] reg.dom().contains(p) ==> reg[p].wf()
}

/// Whether some entry of the snapshot carries this process identifier.
pub open spec fn has_pid(s: Seq<ProcessInfo>, p: u64) -> bool {
    exists|k: int| 0 <= k < s.len() && (#[trigger] s[k]).pid == p
}

/// Identifiers are unique within a snapshot.
pub open spec fn distinct_pids(s: Seq<ProcessInfo>) -> bool {
    forall|i: int, j: int|
        0 <= i < j < s.len() ==> (#[trigger] s[i]).pid != (#[trigger] s[j]).pid
}

/// The full sample history a process has before this tick: what its
/// registry entry recorded, or nothing for a first observation.
pub open spec fn prior_history(reg: Map<u64, ProcessData>, pid: u64) -> Seq<(u64, u64)> {
    if reg.dom().contains(pid) {
        reg[pid].history@
    } else {
        Seq::empty()
    }
}

/// The window capacity a process's entry carries, or the default for a
/// first observation.
pub open spec fn prior_capacity(reg: Map<u64, ProcessData>, pid: u64) -> nat {
    if reg.dom().contains(pid) {
        reg[pid].capacity as nat
    } else {
        MAX_SAMPLES as nat
    }
}

/// The alert messages one snapshot entry produces, judged against its
/// window averages as they stand after this tick's sample is added: the
/// CPU message first, then the memory message, each only if its rule fires.
pub open spec fn entry_messages(
    reg: Map<u64, ProcessData>,
    e: ProcessInfo,
    cfg: AlertConfig,
) -> Seq<Seq<char>> {
    let h1 = prior_history(reg, e.pid).push((e.cpu, e.memory));
    let cap = prior_capacity(reg, e.pid);
    let cpu_avg = seq_average(retained(h1, cap).map_values(|t: (u64, u64)| t.0));
    let mem_avg = seq_average(retained(h1, cap).map_values(|t: (u64, u64)| t.1));
    (if cpu_anomaly(e.cpu, cpu_avg, cfg) {
        seq![cpu_alert_text(e.name@, e.pid, e.cpu)]
    } else {
        Seq::empty()
    }) + (if mem_anomaly(e.memory, mem_avg, cfg) {
        seq![mem_alert_text(e.name@, e.pid, e.memory)]
    } else {
        Seq::empty()
    })
}

/// All alert messages of one tick, in snapshot order.
pub open spec fn tick_messages(
    s: Seq<ProcessInfo>,
    reg: Map<u64, ProcessData>,
    cfg: AlertConfig,
) -> Seq<Seq<char>>
    decreases s.len(),
{
    if s.len() == 0 {
        Seq::empty()
    } else {
        tick_messages(s.drop_last(), reg, cfg) + entry_messages(reg, s.last(), cfg)
    }
}

/// Absorb one snapshot: append each entry's sample to its process's
/// windows (creating windows on first observation), classify each process
/// against its updated averages, log every alert that fires, and re-sort
/// the visible process list under the current key and direction.
pub fn tick(
    registry: &mut HashMap<u64, ProcessData>,
    app: &mut App,
    snapshot: &Vec<ProcessInfo>,
    cfg: &AlertConfig,
)
    requires
        old(app).alerts_wf(),
        reg_wf(old(registry)@),
        distinct_pids(snapshot@),
    ensures
        final(app).alerts_wf(),
        reg_wf(final(registry)@),
        final(app).alert_history@ == old(app).alert_history@ + tick_messages(
            snapshot@,
            old(registry)@,
            *cfg,
        ),
        final(app).processes@ == resort_spec(snapshot@, old(app).sort_by, old(app).sort_order),
        final(app).sort_by == old(app).sort_by,
        final(app).sort_order == old(app).sort_order,
        forall|k: int|
            0 <= k < snapshot@.len() ==> {
                let pid = (#[trigger] snapshot@[k]).pid;
                &&& final(registry)@.dom().contains(pid)
                &&& final(registry)@[pid].history@ == prior_history(old(registry)@, pid).push(
                    (snapshot@[k].cpu, snapshot@[k].memory),
                )
                &&& final(registry)@[pid].capacity as nat == prior_capacity(old(registry)@, pid)
            },
        forall|p: u64|
            #[trigger] final(registry)@.dom().contains(p) <==> (old(registry)@.dom().contains(p)
                || has_pid(snapshot@, p)),
        forall|p: u64|
            old(registry)@.dom().contains(p) && !has_pid(snapshot@, p)
                ==> (#[trigger] final(registry)@[p]) == old(registry)@[p],
{
    broadcast use vstd::std_specs::hash::group_hash_axioms;

    let ghost reg0 = registry@;
    let n = snapshot.len();
    let mut msgs: Vec<String> = Vec::new();
    proof {
        assert(snapshot@.take(0) =~= Seq::<ProcessInfo>::empty());
        assert(msgs@.map_values(|m: String| m@) =~= tick_messages(snapshot@.take(0), reg0, *cfg));
    }
    let mut k: usize = 0;
    while k < n
        invariant
            k <= n,
            n == snapshot@.len(),
            distinct_pids(snapshot@),
            reg_wf(registry@),
            msgs@.map_values(|m: String| m@) == tick_messages(snapshot@.take(k as int), reg0, *cfg),
            forall|j: int|
                0 <= j < k ==> {
                    let pid = (#[trigger] snapshot@[j]).pid;
                    &&& registry@.dom().contains(pid)
                    &&& registry@[pid].history@ == prior_history(reg0, pid).push(
                        (snapshot@[j].cpu, snapshot@[j].memory),
                    )
                    &&& registry@[pid].capacity as nat == prior_capacity(reg0, pid)
                },
            forall|p: u64|
                #[trigger] registry@.dom().contains(p) <==> (reg0.dom().contains(p) || has_pid(
                    snapshot@.take(k as int),
                    p,
                )),
            forall|p: u64|
                !has_pid(snapshot@.take(k as int), p) && reg0.dom().contains(p)
                    ==> #[trigger] registry@[p] == reg0[p],
        decreases n - k,
    {
        let pid = snapshot[k].pid;
        proof {
            assert(!has_pid(snapshot@.take(k as int), pid)) by {
                if has_pid(snapshot@.take(k as int), pid) {
                    let j = choose|j: int|
                        0 <= j < k && (#[trigger] snapshot@.take(k as int)[j]).pid == pid;
                    assert(snapshot@[j].pid == snapshot@[k as int].pid);
                }
            }
        }
        let mut data = match registry.remove(&pid) {
            Some(d) => d,
            None => ProcessData::new(),
        };
        proof {
            assert(data.wf());
            assert(data.history@ == prior_history(reg0, pid));
            assert(data.capacity as nat == prior_capacity(reg0, pid));
        }
        let e_cpu = snapshot[k].cpu;
        let e_mem = snapshot[k].memory;
        data.add_sample(e_cpu, e_mem);
        let cpu_avg = data.cpu_average();
        let mem_avg = data.memory_average();
        let (c, m) = classify_sample(
            snapshot[k].name.as_str(),
            pid,
            e_cpu,
            cpu_avg,
            e_mem,
            mem_avg,
            cfg,
        );
        let ghost msgs_pre = msgs@;
        if let Some(cm) = c {
            msgs.push(cm);
        }
        if let Some(mm) = m {
            msgs.push(mm);
        }
        registry.insert(pid, data);
        proof {
            let pre = snapshot@.take(k as int);
            let cur = snapshot@.take(k + 1);
            assert(cur.drop_last() =~= pre);
            assert(cur.last() == snapshot@[k as int]);
            assert(msgs@.map_values(|m: String| m@) =~= msgs_pre.map_values(|m: String| m@)
                + entry_messages(reg0, snapshot@[k as int], *cfg));
            assert(msgs@.map_values(|m: String| m@) =~= tick_messages(cur, reg0, *cfg));
            assert forall|p: u64| #[trigger] registry@.dom().contains(p) <==> (
            reg0.dom().contains(p) || has_pid(cur, p)) by {
                if has_pid(cur, p) && !has_pid(pre, p) && p != pid {
                    let j = choose|j: int| 0 <= j < cur.len() && (#[trigger] cur[j]).pid == p;
                    assert(pre[j] == cur[j] || j == k);
                }
                if p == pid {
                    assert(has_pid(cur, p)) by {
                        assert(cur[k as int].pid == p);
                    }
                }
            }
            assert forall|p: u64|
                !has_pid(cur, p) && reg0.dom().contains(p) implies #[trigger] registry@[p]
                == reg0[p] by {
                assert(!has_pid(pre, p)) by {
                    if has_pid(pre, p) {
                        let j = choose|j: int| 0 <= j < pre.len() && (#[trigger] pre[j]).pid == p;
                        assert(cur[j].pid == p);
                    }
                }
                assert(p != pid) by {
                    assert(cur[k as int].pid == pid);
                }
            }
        }
        k = k + 1;
    }
    proof {
        assert(snapshot@.take(n as int) =~= snapshot@);
    }
    let total = msgs.len();
    let ghost all_msgs = msgs@.map_values(|m: String| m@);
    proof {
        assert(all_msgs.take(0) =~= Seq::<Seq<char>>::empty());
        assert(app.alert_history@ + all_msgs.take(0) =~= app.alert_history@);
    }
    let mut t: usize = 0;
    while t < total
        invariant
            t <= total,
            total == msgs@.len(),
            all_msgs == msgs@.map_values(|m: String| m@),
            all_msgs == tick_messages(snapshot@, reg0, *cfg),
            app.alerts_wf(),
            app.alert_history@ == old(app).alert_history@ + all_msgs.take(t as int),
            app.sort_by == old(app).sort_by,
            app.sort_order == old(app).sort_order,
        decreases total - t,
    {
        let message = msgs[t].clone();
        app.add_alert(message);
        proof {
            assert(all_msgs.take(t + 1) =~= all_msgs.take(t as int).push(all_msgs[t as int]));
            assert(app.alert_history@ =~= old(app).alert_history@ + all_msgs.take(t + 1));
        }
        t = t + 1;
    }
    proof {
        assert(all_msgs.take(total as int) =~= all_msgs);
    }
    app.sort_processes(snapshot);
}

} // verus!
