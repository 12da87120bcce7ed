//! Server metrics: tool call counts, bounded duration samples, connection and
//! plugin-result counters.
//!
//! Counters wrap around at `u64::MAX`, as an atomic `fetch_add` does. The
//! floating-point views (averages and ratios) are derived from the integer
//! snapshots by the caller.
use std::collections::VecDeque;
use vstd::prelude::*;
use vstd::relations::sorted_by;
use vstd::relations::total_ordering;
use crate::text::str_eq;

verus! {

broadcast use vstd::seq_lib::group_to_multiset_ensures;

/// Maximum duration samples kept per tool.
pub const MAX_DURATION_SAMPLES: usize = 1000;

/// One more, wrapping around at the top of the range.
pub open spec fn bump(x: u64) -> u64 {
    if x == u64::MAX {
        0
    } else {
        (x + 1) as u64
    }
}

fn bump_exec(x: u64) -> (r: u64)
    ensures
        r == bump(x),
{
    if x == u64::MAX {
        0
    } else {
        x + 1
    }
}

/// The last `n` items of `s` (all of them when there are fewer).
pub open spec fn keep_recent(s: Seq<u64>, n: nat) -> Seq<u64> {
    if s.len() > n {
        s.subrange(s.len() - n, s.len() as int)
    } else {
        s
    }
}

pub open spec fn u64_leq() -> spec_fn(u64, u64) -> bool {
    |a: u64, b: u64| a <= b
}

/// The sum of a sequence of samples.
pub open spec fn seq_sum(s: Seq<u64>) -> int
    decreases s.len(),
{
    if s.len() == 0 {
        0
    } else {
        seq_sum(s.drop_last()) + s.last()
    }
}

/// The index of the `pct` percentile in a sorted run of `len` samples.
pub open spec fn percentile_index(len: int, pct: int) -> int {
    let i = len * pct / 100;
    if i < len - 1 {
        i
    } else {
        len - 1
    }
}

/// The `pct` percentile of the samples: the sample at `len * pct / 100`
/// (clamped to the last one) in ascending order, 0 when there is none.
pub open spec fn percentile(s: Seq<u64>, pct: int) -> u64 {
    if s.len() == 0 {
        0
    } else {
        s.sort_by(u64_leq())[percentile_index(s.len() as int, pct)]
    }
}

/// Metrics for a single tool.
#[derive(Debug)]
pub struct ToolMetrics {
    calls: u64,
    errors: u64,
    durations_ms: VecDeque<u64>,
}

/// What a tool's metrics hold: the two counters and the duration samples,
/// oldest first.
#[verifier::ext_equal]
pub struct ToolMetricsView {
    pub calls: u64,
    pub errors: u64,
    pub samples: Seq<u64>,
}

impl View for ToolMetrics {
    type V = ToolMetricsView;

    closed spec fn view(&self) -> ToolMetricsView {
        ToolMetricsView { calls: self.calls, errors: self.errors, samples: self.durations_ms@ }
    }
}

/// Integer snapshot of a tool's metrics.
#[derive(Debug, Clone)]
pub struct ToolMetricsSnapshot {
    pub calls: u64,
    pub errors: u64,
    /// Number of duration samples held.
    pub sample_count: u64,
    /// Sum of the duration samples held, in milliseconds.
    pub duration_total_ms: u128,
    pub p95_duration_ms: u64,
    pub p99_duration_ms: u64,
}

impl ToolMetrics {
    pub open spec fn wf(&self) -> bool {
        self@.samples.len() <= MAX_DURATION_SAMPLES
    }

    pub fn new() -> (m: Self)
        ensures
            m.wf(),
            m@.calls == 0,
            m@.errors == 0,
            m@.samples == Seq::<u64>::empty(),
    {
        ToolMetrics { calls: 0, errors: 0, durations_ms: VecDeque::with_capacity(MAX_DURATION_SAMPLES) }
    }

    /// Record a successful call that took `duration_ms` milliseconds; the
    /// oldest sample leaves once the buffer is full.
    pub fn record_call(&mut self, duration_ms: u64)
        requires
            old(self).wf(),
        ensures
            final(self).wf(),
            final(self)@.calls == bump(old(self)@.calls),
            final(self)@.errors == old(self)@.errors,
            final(self)@.samples == keep_recent(
                old(self)@.samples.push(duration_ms),
                MAX_DURATION_SAMPLES as nat,
            ),
    {
        self.calls = bump_exec(self.calls);
        if self.durations_ms.len() >= MAX_DURATION_SAMPLES {
            let _ = self.durations_ms.pop_front();
        }
        self.durations_ms.push_back(duration_ms);
        proof {
            let s = old(self)@.samples.push(duration_ms);
            if old(self)@.samples.len() >= MAX_DURATION_SAMPLES {
                assert(self@.samples =~= keep_recent(s, MAX_DURATION_SAMPLES as nat));
            } else {
                assert(self@.samples =~= keep_recent(s, MAX_DURATION_SAMPLES as nat));
            }
        }
    }

    /// Record an error.
    pub fn record_error(&mut self)
        ensures
            final(self)@.errors == bump(old(self)@.errors),
            final(self)@.calls == old(self)@.calls,
            final(self)@.samples == old(self)@.samples,
    {
        self.errors = bump_exec(self.errors);
    }

    /// Record a finished call: its duration always, and an error when it
    /// failed.
    pub fn record_finished(&mut self, duration_ms: u64, success: bool)
        requires
            old(self).wf(),
        ensures
            final(self).wf(),
            final(self)@.calls == bump(old(self)@.calls),
            final(self)@.errors == (if success {
                old(self)@.errors
            } else {
                bump(old(self)@.errors)
            }),
            final(self)@.samples == keep_recent(
                old(self)@.samples.push(duration_ms),
                MAX_DURATION_SAMPLES as nat,
            ),
    {
        self.record_call(duration_ms);
        if !success {
            self.record_error();
        }
    }

    /// Number of duration samples held.
    pub fn sample_count(&self) -> (n: usize)
        ensures
            n == self@.samples.len(),
    {
        self.durations_ms.len()
    }

    /// Statistics snapshot: counts, sample total and the 95th and 99th
    /// percentile durations.
    pub fn snapshot(&self) -> (s: ToolMetricsSnapshot)
        requires
            self.wf(),
        ensures
            s.calls == self@.calls,
            s.errors == self@.errors,
            s.sample_count == self@.samples.len(),
            s.duration_total_ms == seq_sum(self@.samples),
            s.p95_duration_ms == percentile(self@.samples, 95),
            s.p99_duration_ms == percentile(self@.samples, 99),
    {
        let sorted = sorted_samples(&self.durations_ms);
        let n = sorted.len();
        let total = sum_samples(&sorted);
        proof {
            lemma_sum_permutation(sorted@, self@.samples);
        }
        let (p95, p99) = if n == 0 {
            (0u64, 0u64)
        } else {
            proof {
                lemma_u64_leq_total();
                self@.samples.lemma_sort_by_ensures(u64_leq());
                vstd::seq_lib::lemma_sorted_unique(sorted@, self@.samples.sort_by(u64_leq()), u64_leq());
            }
            let i95 = clamp_index(n, 95);
            let i99 = clamp_index(n, 99);
            (sorted[i95], sorted[i99])
        };
        ToolMetricsSnapshot {
            calls: self.calls,
            errors: self.errors,
            sample_count: n as u64,
            duration_total_ms: total,
            p95_duration_ms: p95,
            p99_duration_ms: p99,
        }
    }
}

fn clamp_index(n: usize, pct: usize) -> (i: usize)
    requires
        0 < n <= MAX_DURATION_SAMPLES,
        pct <= 100,
    ensures
        i == percentile_index(n as int, pct as int),
        i < n,
{
    assert(n * pct <= 1000 * 100) by (nonlinear_arith)
        requires
            n <= 1000,
            pct <= 100,
    ;
    assert(n * pct / 100 <= n) by (nonlinear_arith)
        requires
            pct <= 100,
    ;
    let i = n * pct / 100;
    if i < n - 1 {
        i
    } else {
        n - 1
    }
}

proof fn lemma_u64_leq_total()
    ensures
        total_ordering(u64_leq()),
{
}

/// Sums of two arrangements of the same samples agree.
proof fn lemma_sum_permutation(a: Seq<u64>, b: Seq<u64>)
    requires
        a.to_multiset() == b.to_multiset(),
    ensures
        seq_sum(a) == seq_sum(b),
    decreases a.len(),
{
    if a.len() == 0 {
        assert(b.to_multiset().len() == 0);
        assert(b.len() == 0);
    } else {
        let x = a.last();
        assert(a =~= a.drop_last().push(x));
        assert(a.to_multiset().count(x) > 0);
        assert(b.to_multiset().count(x) > 0);
        assert(b.contains(x));
        let j = choose|j: int| 0 <= j < b.len() && b[j] == x;
        let rest = b.remove(j);
        assert(rest.to_multiset() == b.to_multiset().remove(x));
        assert(a.drop_last().to_multiset() =~= a.to_multiset().remove(x));
        lemma_sum_permutation(a.drop_last(), rest);
        lemma_sum_remove(b, j);
    }
}

/// Taking one sample out of a run takes it out of the sum.
proof fn lemma_sum_remove(s: Seq<u64>, j: int)
    requires
        0 <= j < s.len(),
    ensures
        seq_sum(s) == seq_sum(s.remove(j)) + s[j],
    decreases s.len(),
{
    if j == s.len() - 1 {
        assert(s.remove(j) =~= s.drop_last());
    } else {
        lemma_sum_remove(s.drop_last(), j);
        assert(s.remove(j).drop_last() =~= s.drop_last().remove(j));
        assert(s.remove(j).last() == s.last());
    }
}

proof fn lemma_sum_bound(s: Seq<u64>)
    ensures
        0 <= seq_sum(s) <= s.len() * 0x1_0000_0000_0000_0000,
    decreases s.len(),
{
    if s.len() > 0 {
        lemma_sum_bound(s.drop_last());
    }
}

fn sum_samples(v: &Vec<u64>) -> (t: u128)
    requires
        v.len() <= MAX_DURATION_SAMPLES,
    ensures
        t == seq_sum(v@),
{
    let mut t: u128 = 0;
    let mut i: usize = 0;
    while i < v.len()
        invariant
            i <= v.len() <= MAX_DURATION_SAMPLES,
            t == seq_sum(v@.subrange(0, i as int)),
        decreases v.len() - i,
    {
        let ghost pre = v@.subrange(0, i as int);
        assert(v@.subrange(0, i + 1).drop_last() =~= pre);
        proof {
            lemma_sum_bound(pre);
            assert(pre.len() * 0x1_0000_0000_0000_0000 <= 1000 * 0x1_0000_0000_0000_0000) by (
            nonlinear_arith)
                requires
                    pre.len() <= 1000,
            ;
        }
        t = t + v[i] as u128;
        i += 1;
    }
    assert(v@.subrange(0, v.len() as int) =~= v@);
    t
}

/// The samples in ascending order.
fn sorted_samples(d: &VecDeque<u64>) -> (v: Vec<u64>)
    ensures
        v@.to_multiset() == d@.to_multiset(),
        sorted_by(v@, u64_leq()),
        v.len() == d@.len(),
{
    let mut out: Vec<u64> = Vec::new();
    let mut i: usize = 0;
    while i < d.len()
        invariant
            i <= d@.len(),
            out@.to_multiset() == d@.subrange(0, i as int).to_multiset(),
            sorted_by(out@, u64_leq()),
        decreases d@.len() - i,
    {
        let x = d[i];
        let mut p: usize = 0;
        while p < out.len() && out[p] <= x
            invariant
                p <= out.len(),
                forall|k: int| 0 <= k < p ==> out@[k] <= x,
            decreases out.len() - p,
        {
            p += 1;
        }
        let ghost before = out@;
        out.insert(p, x);
        proof {
            assert forall|a: int, b: int| 0 <= a < b < out@.len() implies #[trigger] u64_leq()(
                out@[a],
                out@[b],
            ) by {
                if b < p {
                    assert(u64_leq()(before[a], before[b]));
                } else if b == p {
                } else if a < p {
                    assert(out@[b] == before[b - 1]);
                    if p < before.len() {
                        assert(before[p as int] > x);
                        if b - 1 > p {
                            assert(u64_leq()(before[p as int], before[b - 1]));
                        }
                    }
                } else if a == p {
                    assert(before[p as int] > x);
                    if b - 1 > p {
                        assert(u64_leq()(before[p as int], before[b - 1]));
                    }
                } else {
                    assert(u64_leq()(before[a - 1], before[b - 1]));
                }
            }
            assert(d@.subrange(0, i + 1) =~= d@.subrange(0, i as int).push(x));
        }
        i += 1;
    }
    assert(d@.subrange(0, d@.len() as int) =~= d@);
    assert(out@.to_multiset().len() == d@.to_multiset().len());
    out
}

// ---------------------------------------------------------------------------
// Metrics of every tool, by name
// ---------------------------------------------------------------------------

/// The metrics of a tool that has not been called yet.
pub open spec fn fresh_metrics() -> ToolMetricsView {
    ToolMetricsView { calls: 0, errors: 0, samples: Seq::empty() }
}

/// A tool's metrics after one more finished call.
pub open spec fn after_finished(m: ToolMetricsView, duration_ms: u64, success: bool) -> ToolMetricsView {
    ToolMetricsView {
        calls: bump(m.calls),
        errors: if success {
            m.errors
        } else {
            bump(m.errors)
        },
        samples: keep_recent(m.samples.push(duration_ms), MAX_DURATION_SAMPLES as nat),
    }
}

/// The first entry at or after `k` that belongs to tool `name`, or the
/// number of entries when there is none.
pub open spec fn position(e: Seq<(Seq<char>, ToolMetricsView)>, name: Seq<char>, k: int) -> int
    decreases e.len() - k,
{
    if k < 0 || k >= e.len() {
        e.len() as int
    } else if e[k].0 == name {
        k
    } else {
        position(e, name, k + 1)
    }
}

/// The entries with tool `name` registered: unchanged when it already has
/// an entry, else with a fresh entry for it at the end.
pub open spec fn registered(e: Seq<(Seq<char>, ToolMetricsView)>, name: Seq<char>) -> Seq<(Seq<char>, ToolMetricsView)> {
    if position(e, name, 0) < e.len() {
        e
    } else {
        e.push((name, fresh_metrics()))
    }
}

proof fn lemma_position(e: Seq<(Seq<char>, ToolMetricsView)>, name: Seq<char>, k: int)
    requires
        0 <= k <= e.len(),
    ensures
        k <= position(e, name, k) <= e.len(),
        position(e, name, k) < e.len() ==> e[position(e, name, k)].0 == name,
        forall|j: int| k <= j < position(e, name, k) ==> e[j].0 != name,
    decreases e.len() - k,
{
    if k < e.len() && e[k].0 != name {
        lemma_position(e, name, k + 1);
    }
}

/// The metrics of every tool, each under its name; no name occurs twice.
#[derive(Debug)]
pub struct ToolMetricsTable {
    names: Vec<String>,
    tools: Vec<ToolMetrics>,
}

impl ToolMetricsTable {
    /// The entries, in the order the tools were first seen.
    pub closed spec fn entries(&self) -> Seq<(Seq<char>, ToolMetricsView)> {
        Seq::new(self.names@.len(), |i: int| (self.names@[i]@, self.tools@[i]@))
    }

    pub closed spec fn wf(&self) -> bool {
        &&& self.names@.len() == self.tools@.len()
        &&& forall|i: int, j: int| 0 <= i < j < self.names@.len() ==> self.names@[i]@ != self.names@[j]@
        &&& forall|i: int| 0 <= i < self.tools@.len() ==> (#[trigger] self.tools@[i]).wf()
    }

    /// No tool has an entry twice.
    pub open spec fn names_distinct(e: Seq<(Seq<char>, ToolMetricsView)>) -> bool {
        forall|i: int, j: int| 0 <= i < j < e.len() ==> e[i].0 != e[j].0
    }

    pub fn new() -> (t: Self)
        ensures
            t.wf(),
            t.entries() == Seq::<(Seq<char>, ToolMetricsView)>::empty(),
    {
        let t = ToolMetricsTable { names: Vec::new(), tools: Vec::new() };
        assert(t.entries() =~= Seq::<(Seq<char>, ToolMetricsView)>::empty());
        t
    }

    /// Get the entry of tool `name`, creating a fresh one at the end when
    /// the tool has none; gives its index.
    pub fn get_or_create(&mut self, name: &str) -> (i: usize)
        requires
            old(self).wf(),
        ensures
            final(self).wf(),
            final(self).entries() == registered(old(self).entries(), name@),
            i == position(old(self).entries(), name@, 0),
            i < final(self).entries().len(),
            final(self).entries()[i as int].0 == name@,
            Self::names_distinct(final(self).entries()),
    {
        let ghost e = self.entries();
        proof {
            lemma_position(e, name@, 0);
        }
        let mut k: usize = 0;
        while k < self.names.len()
            invariant
                self.wf(),
                e == self.entries(),
                0 <= k <= self.names@.len(),
                position(e, name@, 0) == position(e, name@, k as int),
            decreases self.names@.len() - k,
        {
            if str_eq(self.names[k].as_str(), name) {
                assert(e[k as int].0 == name@);
                proof {
                    lemma_position(e, name@, 0);
                }
                assert(registered(e, name@) == e);
                assert forall|i: int, j: int| 0 <= i < j < e.len() implies e[i].0 != e[j].0 by {
                    assert(e[i].0 == self.names@[i]@ && e[j].0 == self.names@[j]@);
                }
                return k;
            }
            assert(e[k as int].0 != name@);
            k += 1;
        }
        proof {
            lemma_position(e, name@, 0);
            assert(position(e, name@, k as int) == e.len());
        }
        self.names.push(String::from_str(name));
        self.tools.push(ToolMetrics::new());
        proof {
            assert(self.entries() =~= e.push((name@, fresh_metrics())));
            assert forall|i: int, j: int| 0 <= i < j < self.names@.len() implies self.names@[i]@
                != self.names@[j]@ by {
                if j == self.names@.len() - 1 {
                    assert(e[i].0 == self.names@[i]@);
                    assert(e[i].0 != name@);
                }
            }
            assert forall|i: int, j: int| 0 <= i < j < self.entries().len() implies self.entries()[i].0
                != self.entries()[j].0 by {
                assert(self.entries()[i].0 == self.names@[i]@);
                assert(self.entries()[j].0 == self.names@[j]@);
            }
        }
        k
    }

    /// Record a finished call of tool `name` (its entry created first when
    /// needed): its duration always, and an error when it failed.
    pub fn record_finished(&mut self, name: &str, duration_ms: u64, success: bool)
        requires
            old(self).wf(),
        ensures
            final(self).wf(),
            ({
                let r = registered(old(self).entries(), name@);
                let p = position(old(self).entries(), name@, 0);
                final(self).entries() == r.update(p, (name@, after_finished(r[p].1, duration_ms, success)))
            }),
    {
        let i = self.get_or_create(name);
        let ghost e = self.entries();
        let mut t = self.tools.remove(i);
        t.record_finished(duration_ms, success);
        self.tools.insert(i, t);
        proof {
            assert(self.entries() =~= e.update(i as int, (name@, after_finished(e[i as int].1, duration_ms, success))));
        }
    }

    /// Number of tools with an entry.
    pub fn len(&self) -> (n: usize)
        ensures
            n == self.entries().len(),
    {
        self.names.len()
    }

    /// The name of the tool at index `i`.
    pub fn name_at(&self, i: usize) -> (s: &str)
        requires
            i < self.entries().len(),
        ensures
            s@ == self.entries()[i as int].0,
    {
        self.names[i].as_str()
    }

    /// The snapshot of the tool at index `i`.
    pub fn snapshot_at(&self, i: usize) -> (s: ToolMetricsSnapshot)
        requires
            self.wf(),
            i < self.entries().len(),
        ensures
            ({
                let m = self.entries()[i as int].1;
                &&& s.calls == m.calls
                &&& s.errors == m.errors
                &&& s.sample_count == m.samples.len()
                &&& s.duration_total_ms == seq_sum(m.samples)
                &&& s.p95_duration_ms == percentile(m.samples, 95)
                &&& s.p99_duration_ms == percentile(m.samples, 99)
            }),
    {
        assert(self.tools@[i as int].wf());
        self.tools[i].snapshot()
    }
}

/// Recording a call of one tool touches no other tool's metrics, and gives
/// the tool an entry of its own when it had none.
pub proof fn law_record_touches_one_tool(
    e: Seq<(Seq<char>, ToolMetricsView)>,
    name: Seq<char>,
    duration_ms: u64,
    success: bool,
)
    ensures
        ({
            let r = registered(e, name);
            let p = position(e, name, 0);
            let after = r.update(p, (name, after_finished(r[p].1, duration_ms, success)));
            &&& after.len() == (if p < e.len() { e.len() } else { e.len() + 1 })
            &&& after[p].0 == name
            &&& forall|j: int| 0 <= j < e.len() && e[j].0 != name ==> #[trigger] after[j] == e[j]
        }),
{
    lemma_position(e, name, 0);
}

/// The samples held after a run of calls are the most recent ones of all the
/// durations recorded, at most `MAX_DURATION_SAMPLES` of them.
pub proof fn law_samples_are_most_recent(history: Seq<u64>, d: u64)
    ensures
        keep_recent(keep_recent(history, MAX_DURATION_SAMPLES as nat).push(d), MAX_DURATION_SAMPLES as nat)
            == keep_recent(history.push(d), MAX_DURATION_SAMPLES as nat),
        keep_recent(history, MAX_DURATION_SAMPLES as nat).len() <= MAX_DURATION_SAMPLES,
{
    let n = MAX_DURATION_SAMPLES as nat;
    let k = keep_recent(history, n);
    if history.len() > n {
        assert(keep_recent(k.push(d), n) =~= keep_recent(history.push(d), n));
    } else {
        assert(keep_recent(k.push(d), n) =~= keep_recent(history.push(d), n));
    }
}

/// Recording finished calls never lets the errors outnumber the calls
/// (short of the call counter wrapping around).
pub proof fn law_errors_within_calls(before: ToolMetricsView, after: ToolMetricsView, success: bool)
    requires
        before.errors <= before.calls < u64::MAX,
        after.calls == bump(before.calls),
        after.errors == (if success {
            before.errors
        } else {
            bump(before.errors)
        }),
    ensures
        after.errors <= after.calls,
{
}

/// The 95th percentile never exceeds the 99th.
pub proof fn law_p95_at_most_p99(s: Seq<u64>)
    ensures
        percentile(s, 95) <= percentile(s, 99),
{
    if s.len() > 0 {
        lemma_u64_leq_total();
        s.lemma_sort_by_ensures(u64_leq());
        let t = s.sort_by(u64_leq());
        let n = s.len() as int;
        let i = percentile_index(n, 95);
        let j = percentile_index(n, 99);
        assert(n * 95 / 100 <= n * 99 / 100) by (nonlinear_arith)
            requires
                n >= 0,
        ;
        assert(n * 95 / 100 >= 0) by (nonlinear_arith)
            requires
                n >= 0,
        ;
        assert(t.len() == n) by {
            assert(t.to_multiset().len() == s.to_multiset().len());
        }
        if i < j {
            assert(u64_leq()(t[i], t[j]));
        }
    }
}

/// Metrics for plugin results that arrive after the caller gave up.
#[derive(Debug)]
pub struct LateResultMetrics {
    /// Total late results received.
    pub total: u64,
    /// Late results that were successful.
    pub successful: u64,
    /// Late results that were errors.
    pub errors: u64,
}

#[derive(Debug, Clone)]
pub struct LateResultMetricsSnapshot {
    pub total: u64,
    pub successful: u64,
    pub errors: u64,
}

/// Counters that wrap at `u64::MAX` add up modulo 2^64.
pub open spec fn wrapped_sum(a: u64, b: u64) -> int {
    (a + b) % 0x1_0000_0000_0000_0000
}

impl LateResultMetrics {
    /// Every late result is counted once in `total` and once in exactly one
    /// of `successful` and `errors`.
    pub open spec fn consistent(&self) -> bool {
        self.total == wrapped_sum(self.successful, self.errors)
    }

    pub fn new() -> (m: Self)
        ensures
            m.total == 0,
            m.successful == 0,
            m.errors == 0,
            m.consistent(),
    {
        LateResultMetrics { total: 0, successful: 0, errors: 0 }
    }

    /// Record a late result, successful or not.
    pub fn record(&mut self, had_error: bool)
        ensures
            final(self).total == bump(old(self).total),
            had_error ==> final(self).errors == bump(old(self).errors) && final(self).successful
                == old(self).successful,
            !had_error ==> final(self).successful == bump(old(self).successful)
                && final(self).errors == old(self).errors,
            old(self).consistent() ==> final(self).consistent(),
    {
        self.total = bump_exec(self.total);
        if had_error {
            self.errors = bump_exec(self.errors);
        } else {
            self.successful = bump_exec(self.successful);
        }
    }

    pub fn snapshot(&self) -> (s: LateResultMetricsSnapshot)
        ensures
            s.total == self.total,
            s.successful == self.successful,
            s.errors == self.errors,
    {
        LateResultMetricsSnapshot { total: self.total, successful: self.successful, errors: self.errors }
    }
}

/// Metrics for results that name a command nobody is waiting for.
#[derive(Debug)]
pub struct UnknownCommandMetrics {
    /// Total unknown command results received.
    pub total: u64,
}

#[derive(Debug, Clone)]
pub struct UnknownCommandMetricsSnapshot {
    pub total: u64,
}

impl UnknownCommandMetrics {
    pub fn new() -> (m: Self)
        ensures
            m.total == 0,
    {
        UnknownCommandMetrics { total: 0 }
    }

    /// Record an unknown command result.
    pub fn record(&mut self)
        ensures
            final(self).total == bump(old(self).total),
    {
        self.total = bump_exec(self.total);
    }

    pub fn snapshot(&self) -> (s: UnknownCommandMetricsSnapshot)
        ensures
            s.total == self.total,
    {
        UnknownCommandMetricsSnapshot { total: self.total }
    }
}

/// Connection status tracking.
#[derive(Debug)]
pub struct ConnectionMetrics {
    /// Total connection checks performed.
    pub checks: u64,
    /// Checks that found the plugin connected.
    pub connected_checks: u64,
    /// Checks that found the plugin disconnected.
    pub disconnected_checks: u64,
    /// Status seen by the last check.
    pub last_connected: bool,
}

/// Integer snapshot of the connection metrics; the uptime ratio is
/// `connected_checks / total_checks` (0 when there was no check).
#[derive(Debug, Clone)]
pub struct ConnectionMetricsSnapshot {
    pub total_checks: u64,
    pub connected_checks: u64,
    pub disconnected_checks: u64,
    pub last_connected: bool,
}

impl ConnectionMetrics {
    /// Every check is counted once in `checks` and once in exactly one of the
    /// two outcome counters.
    pub open spec fn consistent(&self) -> bool {
        self.checks == wrapped_sum(self.connected_checks, self.disconnected_checks)
    }

    pub fn new() -> (m: Self)
        ensures
            m.checks == 0,
            m.connected_checks == 0,
            m.disconnected_checks == 0,
            !m.last_connected,
            m.consistent(),
    {
        ConnectionMetrics { checks: 0, connected_checks: 0, disconnected_checks: 0, last_connected: false }
    }

    /// Record the outcome of a connection check.
    pub fn record_status(&mut self, connected: bool)
        ensures
            final(self).checks == bump(old(self).checks),
            connected ==> final(self).connected_checks == bump(old(self).connected_checks)
                && final(self).disconnected_checks == old(self).disconnected_checks,
            !connected ==> final(self).disconnected_checks == bump(old(self).disconnected_checks)
                && final(self).connected_checks == old(self).connected_checks,
            final(self).last_connected == connected,
            old(self).consistent() ==> final(self).consistent(),
    {
        self.checks = bump_exec(self.checks);
        if connected {
            self.connected_checks = bump_exec(self.connected_checks);
        } else {
            self.disconnected_checks = bump_exec(self.disconnected_checks);
        }
        self.last_connected = connected;
    }

    pub fn snapshot(&self) -> (s: ConnectionMetricsSnapshot)
        ensures
            s.total_checks == self.checks,
            s.connected_checks == self.connected_checks,
            s.disconnected_checks == self.disconnected_checks,
            s.last_connected == self.last_connected,
    {
        ConnectionMetricsSnapshot {
            total_checks: self.checks,
            connected_checks: self.connected_checks,
            disconnected_checks: self.disconnected_checks,
            last_connected: self.last_connected,
        }
    }
}

} // verus!
