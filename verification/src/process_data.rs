//! Bounded rolling history of resource samples for a single process.
//!
//! CPU usage is held in hundredths of a percent, memory in bytes, so that
//! averages and thresholds are exact integer arithmetic.

use vstd::prelude::*;

verus! {

/// Number of samples a window holds by default: a fixed time horizon of
/// fifteen minutes at one sample every five seconds.
pub const MAX_SAMPLES: usize = 180;

/// Sum of a sequence of samples.
pub open spec fn seq_sum(s: Seq<u64>) -> int
    decreases s.len(),
{
    if s.len() == 0 {
        0
    } else {
        seq_sum(s.drop_last()) + s.last()
    }
}

/// Arithmetic mean with floor division; an empty window averages to zero,
/// so "no baseline yet" reads as "no anomaly possible".
pub open spec fn seq_average(s: Seq<u64>) -> int {
    if s.len() == 0 {
        0
    } else {
        seq_sum(s) / (s.len() as int)
    }
}

/// One step of a bounded FIFO window: append a sample, evicting the oldest
/// entry when the window is already at capacity.
pub open spec fn window_push(s: Seq<u64>, cap: nat, x: u64) -> Seq<u64> {
    if s.len() < cap {
        s.push(x)
    } else {
        s.drop_first().push(x)
    }
}

/// The suffix of a full sample history that a window of capacity `cap`
/// retains: the most recent `min(len, cap)` entries, in arrival order.
pub open spec fn retained<A>(h: Seq<A>, cap: nat) -> Seq<A> {
    if h.len() <= cap {
        h
    } else {
        h.subrange(h.len() - cap, h.len() as int)
    }
}

/// Rolling windows of CPU and memory samples for one process, with a ghost
/// record of every sample ever added.
pub struct ProcessData {
    /// CPU samples in hundredths of a percent, oldest first.
    pub cpu_usage_history: Vec<u64>,
    /// Memory samples in bytes, oldest first.
    pub memory_usage_history: Vec<u64>,
    /// Capacity bound shared by both windows.
    pub capacity: usize,
    /// Every `(cpu, memory)` sample added since construction, in order.
    pub history: Ghost<Seq<(u64, u64)>>,
}

impl ProcessData {
    /// Both windows hold exactly the most recent `min(samples, capacity)`
    /// entries of the sample history, in arrival order.
    pub open spec fn wf(self) -> bool {
        &&& self.capacity >= 1
        &&& self.cpu_usage_history@ == retained(self.history@, self.capacity as nat).map_values(
            |t: (u64, u64)| t.0,
        )
        &&& self.memory_usage_history@ == retained(self.history@, self.capacity as nat).map_values(
            |t: (u64, u64)| t.1,
        )
    }

    /// An empty pair of windows with the default capacity.
    pub fn new() -> (r: ProcessData)
        ensures
            r.wf(),
            r.capacity == MAX_SAMPLES,
            r.history@ == Seq::<(u64, u64)>::empty(),
            r.cpu_usage_history@ == Seq::<u64>::empty(),
            r.memory_usage_history@ == Seq::<u64>::empty(),
    {
        Self::with_capacity(MAX_SAMPLES)
    }

    /// An empty pair of windows bounded by `capacity` samples.
    pub fn with_capacity(capacity: usize) -> (r: ProcessData)
        requires
            capacity >= 1,
        ensures
            r.wf(),
            r.capacity == capacity,
            r.history@ == Seq::<(u64, u64)>::empty(),
            r.cpu_usage_history@ == Seq::<u64>::empty(),
            r.memory_usage_history@ == Seq::<u64>::empty(),
    {
        let r = ProcessData {
            cpu_usage_history: Vec::new(),
            memory_usage_history: Vec::new(),
            capacity,
            history: Ghost(Seq::empty()),
        };
        proof {
            assert(r.cpu_usage_history@ =~= retained(r.history@, capacity as nat).map_values(
                |t: (u64, u64)| t.0,
            ));
            assert(r.memory_usage_history@ =~= retained(r.history@, capacity as nat).map_values(
                |t: (u64, u64)| t.1,
            ));
        }
        r
    }

    /// Append one sample pair, evicting the oldest pair first when the
    /// window is at capacity. Always succeeds.
    pub fn add_sample(&mut self, cpu_usage: u64, memory_usage: u64)
        requires
            old(self).wf(),
        ensures
            final(self).wf(),
            final(self).capacity == old(self).capacity,
            final(self).history@ == old(self).history@.push((cpu_usage, memory_usage)),
            final(self).cpu_usage_history@ == window_push(
                old(self).cpu_usage_history@,
                old(self).capacity as nat,
                cpu_usage,
            ),
            final(self).memory_usage_history@ == window_push(
                old(self).memory_usage_history@,
                old(self).capacity as nat,
                memory_usage,
            ),
    {
        let ghost h0 = self.history@;
        let ghost cap = self.capacity as nat;
        if self.cpu_usage_history.len() == self.capacity {
            self.cpu_usage_history.remove(0);
        }
        self.cpu_usage_history.push(cpu_usage);
        if self.memory_usage_history.len() == self.capacity {
            self.memory_usage_history.remove(0);
        }
        self.memory_usage_history.push(memory_usage);
        self.history = Ghost(h0.push((cpu_usage, memory_usage)));
        proof {
            let h1 = h0.push((cpu_usage, memory_usage));
            assert(retained(h1, cap) =~= if retained(h0, cap).len() < cap {
                retained(h0, cap).push((cpu_usage, memory_usage))
            } else {
                retained(h0, cap).drop_first().push((cpu_usage, memory_usage))
            });
            assert(self.cpu_usage_history@ =~= retained(h1, cap).map_values(|t: (u64, u64)| t.0));
            assert(self.memory_usage_history@ =~= retained(h1, cap).map_values(
                |t: (u64, u64)| t.1,
            ));
        }
    }

    /// Mean of the held CPU samples, in hundredths of a percent; zero when
    /// the window is empty.
    pub fn cpu_average(&self) -> (r: u64)
        ensures
            r as int == seq_average(self.cpu_usage_history@),
    {
        average(&self.cpu_usage_history)
    }

    /// Mean of the held memory samples, in bytes; zero when the window is
    /// empty.
    pub fn memory_average(&self) -> (r: u64)
        ensures
            r as int == seq_average(self.memory_usage_history@),
    {
        average(&self.memory_usage_history)
    }
}

/// However many samples were ever added, each window holds exactly the
/// most recent `min(samples, capacity)` of them, in arrival order.
pub proof fn lemma_window_content(d: ProcessData)
    requires
        d.wf(),
    ensures
        d.cpu_usage_history@.len() == if d.history@.len() <= d.capacity {
            d.history@.len()
        } else {
            d.capacity as nat
        },
        d.memory_usage_history@.len() == d.cpu_usage_history@.len(),
        forall|i: int|
            0 <= i < d.cpu_usage_history@.len() ==> #[trigger] d.cpu_usage_history@[i]
                == d.history@[d.history@.len() - d.cpu_usage_history@.len() + i].0,
        forall|i: int|
            0 <= i < d.memory_usage_history@.len() ==> #[trigger] d.memory_usage_history@[i]
                == d.history@[d.history@.len() - d.memory_usage_history@.len() + i].1,
{
}

/// A window holding a single sample averages to exactly that sample.
pub proof fn lemma_average_single(s: Seq<u64>)
    requires
        s.len() == 1,
    ensures
        seq_average(s) == s[0],
{
    assert(s.drop_last() =~= Seq::<u64>::empty());
    assert(seq_sum(Seq::<u64>::empty()) == 0);
    assert(seq_sum(s) == seq_sum(s.drop_last()) + s.last());
    assert(s.last() == s[0]);
}

proof fn lemma_seq_sum_bound(s: Seq<u64>)
    ensures
        0 <= seq_sum(s) <= s.len() * (u64::MAX as int),
    decreases s.len(),
{
    if s.len() == 0 {
    } else {
        lemma_seq_sum_bound(s.drop_last());
        assert(s.len() * (u64::MAX as int) == (s.len() - 1) * (u64::MAX as int) + (
        u64::MAX as int)) by (nonlinear_arith);
    }
}

fn average(v: &Vec<u64>) -> (r: u64)
    ensures
        r as int == seq_average(v@),
{
    if v.len() == 0 {
        return 0;
    }
    let mut acc: u128 = 0;
    let mut i: usize = 0;
    while i < v.len()
        invariant
            i <= v@.len(),
            acc as int == seq_sum(v@.subrange(0, i as int)),
            0 <= acc as int <= (i as int) * (u64::MAX as int),
        decreases v@.len() - i,
    {
        proof {
            assert(v@.subrange(0, i + 1).drop_last() =~= v@.subrange(0, i as int));
            assert((i + 1) * (u64::MAX as int) == (i as int) * (u64::MAX as int) + (
            u64::MAX as int)) by (nonlinear_arith);
        }
        acc = acc + (v[i] as u128);
        i = i + 1;
    }
    proof {
        assert(v@.subrange(0, v@.len() as int) =~= v@);
        let n = v@.len() as int;
        let m = u64::MAX as int;
        assert(acc as int <= n * m);
        vstd::arithmetic::div_mod::lemma_div_is_ordered(acc as int, n * m, n);
        vstd::arithmetic::div_mod::lemma_div_by_multiple(m, n);
        assert((acc as int) / n <= m);
    }
    let r = acc / (v.len() as u128);
    r as u64
}

} // verus!
