//! Session state of the monitor: the bounded most-recent-first alert log,
//! the sort key/direction state machine, and the sorted list of visible
//! process identifiers.

use vstd::prelude::*;

use crate::order::{ascending_pids, lemma_sorted_ids_ensures, resort_spec, sort_indices};
use crate::process_data::retained;

verus! {

/// Capacity of the alert log.
pub const ALERT_CAPACITY: usize = 3;

/// Sort key for the process table.
#[derive(Clone, Copy, PartialEq, Eq, Debug, Structural)]
pub enum SortBy {
    Pid,
    Name,
    Cpu,
    Memory,
}

/// Sort direction for the process table.
#[derive(Clone, Copy, PartialEq, Eq, Debug, Structural)]
pub enum SortOrder {
    Asc,
    Desc,
}

/// One process observation inside a snapshot: identifier, name, CPU usage
/// in hundredths of a percent, and resident memory in bytes.
#[derive(Clone)]
pub struct ProcessInfo {
    pub pid: u64,
    pub name: String,
    pub cpu: u64,
    pub memory: u64,
}

/// The opposite direction.
pub open spec fn flip(o: SortOrder) -> SortOrder {
    match o {
        SortOrder::Asc => SortOrder::Desc,
        SortOrder::Desc => SortOrder::Asc,
    }
}

/// The sort-command state machine: selecting the active key again flips
/// the direction; selecting another key installs it, biased descending.
pub open spec fn sort_transition(state: (SortBy, SortOrder), key: SortBy) -> (SortBy, SortOrder) {
    if state.0 == key {
        (state.0, flip(state.1))
    } else {
        (key, SortOrder::Desc)
    }
}

/// A bounded most-recent-first log after one push: the new message in
/// front, the oldest entry dropped if the log was full.
pub open spec fn log_push(log: Seq<Seq<char>>, m: Seq<char>) -> Seq<Seq<char>> {
    seq![m] + (if log.len() < ALERT_CAPACITY {
        log
    } else {
        log.drop_last()
    })
}

/// Live view state and alert log of one monitoring session.
pub struct App {
    /// Process identifiers of the latest snapshot, in display order.
    pub processes: Vec<u64>,
    /// Alert messages, most recent first, at most `ALERT_CAPACITY` of them.
    pub alerts: Vec<String>,
    pub sort_by: SortBy,
    pub sort_order: SortOrder,
    /// Every alert message ever added, in order of arrival.
    pub alert_history: Ghost<Seq<Seq<char>>>,
}

impl App {
    /// The log holds exactly the most recent `min(pushes, ALERT_CAPACITY)`
    /// messages of the alert history, newest first.
    pub open spec fn alerts_wf(self) -> bool {
        self.alerts@.map_values(|s: String| s@) == retained(
            self.alert_history@,
            ALERT_CAPACITY as nat,
        ).reverse()
    }

    /// A fresh session: nothing visible, no alerts, CPU usage descending.
    pub fn new() -> (r: App)
        ensures
            r.alerts_wf(),
            r.processes@ == Seq::<u64>::empty(),
            r.alerts@ == Seq::<String>::empty(),
            r.sort_by == SortBy::Cpu,
            r.sort_order == SortOrder::Desc,
            r.alert_history@ == Seq::<Seq<char>>::empty(),
    {
        let r = App {
            processes: Vec::new(),
            alerts: Vec::with_capacity(ALERT_CAPACITY),
            sort_by: SortBy::Cpu,
            sort_order: SortOrder::Desc,
            alert_history: Ghost(Seq::empty()),
        };
        proof {
            assert(r.alerts@.map_values(|s: String| s@) =~= retained(
                r.alert_history@,
                ALERT_CAPACITY as nat,
            ).reverse());
        }
        r
    }

    /// Push a message in front of the log, discarding the oldest entry if
    /// the log is already full.
    pub fn add_alert(&mut self, alert: String)
        requires
            old(self).alerts_wf(),
        ensures
            final(self).alerts_wf(),
            final(self).alert_history@ == old(self).alert_history@.push(alert@),
            final(self).alerts@.map_values(|s: String| s@) == log_push(
                old(self).alerts@.map_values(|s: String| s@),
                alert@,
            ),
            final(self).processes == old(self).processes,
            final(self).sort_by == old(self).sort_by,
            final(self).sort_order == old(self).sort_order,
    {
        let ghost h0 = self.alert_history@;
        let ghost m = alert@;
        let ghost log0 = self.alerts@.map_values(|s: String| s@);
        proof {
            assert(log0.len() == retained(h0, ALERT_CAPACITY as nat).reverse().len());
        }
        if self.alerts.len() == ALERT_CAPACITY {
            self.alerts.pop();
        }
        self.alerts.insert(0, alert);
        self.alert_history = Ghost(h0.push(m));
        proof {
            let h1 = h0.push(m);
            let cap = ALERT_CAPACITY as nat;
            let log1 = self.alerts@.map_values(|s: String| s@);
            assert(log1 =~= log_push(log0, m));
            assert(retained(h1, cap) =~= if retained(h0, cap).len() < cap {
                retained(h0, cap).push(m)
            } else {
                retained(h0, cap).drop_first().push(m)
            });
            assert(log1 =~= retained(h1, cap).reverse());
        }
    }

    /// Replace the visible process list with the snapshot's identifiers,
    /// stably sorted by the current key and direction.
    pub fn sort_processes(&mut self, snapshot: &Vec<ProcessInfo>)
        ensures
            final(self).processes@ == resort_spec(
                snapshot@,
                old(self).sort_by,
                old(self).sort_order,
            ),
            final(self).alerts == old(self).alerts,
            final(self).sort_by == old(self).sort_by,
            final(self).sort_order == old(self).sort_order,
            final(self).alert_history == old(self).alert_history,
    {
        let key = self.sort_by;
        let ids = sort_indices(snapshot, key);
        proof {
            lemma_sorted_ids_ensures(snapshot@, key);
        }
        let n = ids.len();
        let mut out: Vec<u64> = Vec::new();
        match self.sort_order {
            SortOrder::Asc => {
                let mut k: usize = 0;
                while k < n
                    invariant
                        k <= n,
                        n == snapshot@.len(),
                        ids@ == crate::order::sorted_ids(snapshot@, key),
                        n == ids@.len(),
                        forall|t: int| 0 <= t < n ==> 0 <= #[trigger] ids@[t] < n,
                        out@.len() == k,
                        forall|t: int|
                            0 <= t < k ==> #[trigger] out@[t] == ascending_pids(snapshot@, key)[t],
                    decreases n - k,
                {
                    out.push(snapshot[ids[k]].pid);
                    k = k + 1;
                }
                proof {
                    assert(out@ =~= ascending_pids(snapshot@, key));
                }
            },
            SortOrder::Desc => {
                let mut k: usize = n;
                while k > 0
                    invariant
                        k <= n,
                        n == snapshot@.len(),
                        ids@ == crate::order::sorted_ids(snapshot@, key),
                        n == ids@.len(),
                        forall|t: int| 0 <= t < n ==> 0 <= #[trigger] ids@[t] < n,
                        out@.len() == n - k,
                        forall|t: int|
                            0 <= t < n - k ==> #[trigger] out@[t] == ascending_pids(
                                snapshot@,
                                key,
                            )[n - 1 - t],
                    decreases k,
                {
                    k = k - 1;
                    out.push(snapshot[ids[k]].pid);
                }
                proof {
                    assert(out@ =~= ascending_pids(snapshot@, key).reverse());
                }
            },
        }
        self.processes = out;
    }

    /// Apply one sort command to the key/direction state machine.
    pub fn set_sort_by(&mut self, sort_by: SortBy)
        ensures
            (final(self).sort_by, final(self).sort_order) == sort_transition(
                (old(self).sort_by, old(self).sort_order),
                sort_by,
            ),
            final(self).processes == old(self).processes,
            final(self).alerts == old(self).alerts,
            final(self).alert_history == old(self).alert_history,
    {
        if self.sort_by == sort_by {
            self.sort_order = match self.sort_order {
                SortOrder::Asc => SortOrder::Desc,
                SortOrder::Desc => SortOrder::Asc,
            };
        } else {
            self.sort_by = sort_by;
            self.sort_order = SortOrder::Desc;
        }
    }
}

/// However many alerts were ever pushed, the log holds exactly the most
/// recent `min(pushes, ALERT_CAPACITY)` of them, newest first.
pub proof fn lemma_alert_log_content(a: App)
    requires
        a.alerts_wf(),
    ensures
        a.alerts@.len() == if a.alert_history@.len() <= ALERT_CAPACITY {
            a.alert_history@.len()
        } else {
            ALERT_CAPACITY as nat
        },
        forall|i: int|
            0 <= i < a.alerts@.len() ==> (#[trigger] a.alerts@[i])@ == a.alert_history@[
                a.alert_history@.len() - 1 - i],
{
    let log = a.alerts@.map_values(|s: String| s@);
    assert(log.len() == a.alerts@.len());
    assert forall|i: int| 0 <= i < a.alerts@.len() implies (#[trigger] a.alerts@[i])@
        == a.alert_history@[a.alert_history@.len() - 1 - i] by {
        assert(log[i] == retained(a.alert_history@, ALERT_CAPACITY as nat).reverse()[i]);
    }
}

/// Selecting the active sort key twice in a row toggles the direction and
/// leaves the key as it was; selecting a different key installs that key
/// with the direction reset to descending.
pub proof fn lemma_sort_transition_toggle(state: (SortBy, SortOrder), key: SortBy)
    ensures
        sort_transition(sort_transition(state, key), key).0 == sort_transition(state, key).0,
        sort_transition(sort_transition(state, key), key).1 == flip(sort_transition(state, key).1),
        state.0 != key ==> sort_transition(state, key) == (key, SortOrder::Desc),
{
}

} // verus!
