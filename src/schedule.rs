//! The bounded scheduler of a run: it lays out every (entry, endpoint) pair,
//! hands tasks out while fewer than `capacity` are in flight, waits for the
//! rest, and finishes the run once every task has reported.
use vstd::prelude::*;
use crate::run::{progress_of, Run, RunView};
use crate::task::OutputEntry;

verus! {

/// One task: the entry at index `entry`, against the endpoint at index `model`.
#[derive(Clone, Copy, Debug, PartialEq, Eq, Structural)]
pub struct TaskSlot {
    pub entry: usize,
    pub model: usize,
}

/// The `k`-th task of a run over `entries` entries: endpoints in turn, and for
/// each every entry in order.
pub open spec fn slot_at(k: int, entries: int) -> TaskSlot {
    TaskSlot { entry: (k % entries) as usize, model: (k / entries) as usize }
}

/// Every (entry, endpoint) pair, once each, endpoint by endpoint.
pub open spec fn is_plan(slots: Seq<TaskSlot>, entries: nat, models: nat) -> bool {
    &&& slots.len() == entries * models
    &&& forall|m: int, e: int|
        0 <= m < models && 0 <= e < entries ==> #[trigger] slots[m * entries + e] == (TaskSlot {
            entry: e as usize,
            model: m as usize,
        })
}

proof fn lemma_plan_index(m: int, e: int, entries: int, models: int)
    requires
        0 <= m < models,
        0 <= e < entries,
    ensures
        0 <= m * entries + e < entries * models,
{
    assert(m * entries + e < entries * models) by (nonlinear_arith)
        requires
            0 <= m < models,
            0 <= e < entries,
    ;
    assert(0 <= m * entries) by (nonlinear_arith)
        requires
            0 <= m,
            0 <= e < entries,
    ;
}

proof fn lemma_slot_index(m: int, e: int, entries: int)
    requires
        0 <= m,
        0 <= e < entries,
    ensures
        (m * entries + e) / entries == m,
        (m * entries + e) % entries == e,
{
    vstd::arithmetic::div_mod::lemma_fundamental_div_mod_converse(m * entries + e, entries, m, e);
}

/// The tasks of a run over `entries` entries and `models` endpoints.
pub fn plan_tasks(entries: usize, models: usize) -> (r: Vec<TaskSlot>)
    requires
        entries * models <= usize::MAX,
    ensures
        is_plan(r@, entries as nat, models as nat),
{
    let mut r: Vec<TaskSlot> = Vec::new();
    let mut m: usize = 0;
    while m < models
        invariant
            m <= models,
            entries * models <= usize::MAX,
            r.len() == m * entries,
            forall|k: int| 0 <= k < r.len() ==> #[trigger] r@[k] == slot_at(k, entries as int),
        decreases models - m,
    {
        let mut e: usize = 0;
        while e < entries
            invariant
                m < models,
                e <= entries,
                entries * models <= usize::MAX,
                r.len() == m * entries + e,
                forall|k: int| 0 <= k < r.len() ==> #[trigger] r@[k] == slot_at(k, entries as int),
            decreases entries - e,
        {
            proof {
                lemma_plan_index(m as int, e as int, entries as int, models as int);
                lemma_slot_index(m as int, e as int, entries as int);
            }
            r.push(TaskSlot { entry: e, model: m });
            e = e + 1;
        }
        assert((m + 1) * entries == m * entries + entries) by (nonlinear_arith);
        m = m + 1;
    }
    assert(m * entries == entries * models) by (nonlinear_arith)
        requires
            m == models,
    ;
    assert forall|mm: int, e: int| 0 <= mm < models && 0 <= e < entries implies #[trigger] r@[mm
        * entries + e] == (TaskSlot { entry: e as usize, model: mm as usize }) by {
        lemma_plan_index(mm, e, entries as int, models as int);
        lemma_slot_index(mm, e, entries as int);
        assert(r@[mm * entries + e] == slot_at(mm * entries + e, entries as int));
    }
    r
}

/// What the driver of a run does next.
#[derive(Debug)]
pub enum Step {
    /// Run the (entry, endpoint) pair of this slot.
    Dispatch(TaskSlot),
    /// Wait for a task in flight to report.
    Wait,
    /// Every task has reported and the run is finished.
    Finished,
}

/// Where a run stands: tasks are still being handed out; all are out and
/// some have not reported; or the run is finished.
#[derive(Clone, Copy, Debug, PartialEq, Eq, Structural)]
pub enum Phase {
    Dispatching,
    Draining,
    Finalized,
}

/// A scheduler seen as plain values.
pub struct SchedulerView {
    pub entries: nat,
    pub models: nat,
    pub slots: Seq<TaskSlot>,
    pub dispatched: nat,
    pub capacity: nat,
    /// For each task of the plan, whether it has reported.
    pub reported: Seq<bool>,
    pub run: RunView,
}

/// How many of `s` are true.
pub open spec fn count_true(s: Seq<bool>) -> nat
    decreases s.len(),
{
    if s.len() == 0 {
        0
    } else {
        count_true(s.drop_last()) + if s.last() {
            1nat
        } else {
            0nat
        }
    }
}

/// The position in the plan of the task of `slot`.
pub open spec fn slot_index(slot: TaskSlot, entries: nat) -> int {
    slot.model * entries + slot.entry
}

impl SchedulerView {
    /// Tasks that were handed out and have not reported.
    pub open spec fn in_flight(self) -> int {
        self.dispatched - self.run.outputs.len()
    }

    pub open spec fn wf(self) -> bool {
        &&& is_plan(self.slots, self.entries, self.models)
        &&& self.run.wf()
        &&& self.run.total == self.slots.len()
        &&& self.run.outputs.len() <= self.dispatched <= self.slots.len()
        &&& self.in_flight() <= self.capacity
        &&& self.capacity >= 1
        &&& (self.run.finished ==> self.dispatched == self.slots.len())
        &&& self.reported.len() == self.slots.len()
        &&& self.run.outputs.len() == count_true(self.reported)
        &&& forall|k: int| 0 <= k < self.reported.len() && #[trigger] self.reported[k] ==> k
            < self.dispatched
    }

    pub open spec fn phase(self) -> Phase {
        if self.run.finished {
            Phase::Finalized
        } else if self.dispatched < self.slots.len() {
            Phase::Dispatching
        } else {
            Phase::Draining
        }
    }

    /// `slot` names a pair of the run whose task was handed out and has not
    /// reported.
    pub open spec fn is_pending(self, slot: TaskSlot) -> bool {
        &&& slot.entry < self.entries
        &&& slot.model < self.models
        &&& slot_index(slot, self.entries) < self.dispatched
        &&& !self.reported[slot_index(slot, self.entries)]
    }
}

/// Drives one run: which task starts next, and when the run is over.
pub struct Scheduler {
    entries: usize,
    models: usize,
    slots: Vec<TaskSlot>,
    dispatched: usize,
    capacity: usize,
    reported: Vec<bool>,
    run: Run,
}

impl View for Scheduler {
    type V = SchedulerView;

    closed spec fn view(&self) -> SchedulerView {
        SchedulerView {
            entries: self.entries as nat,
            models: self.models as nat,
            slots: self.slots@,
            dispatched: self.dispatched as nat,
            capacity: self.capacity as nat,
            reported: self.reported@,
            run: self.run@,
        }
    }
}

/// The size of the task pool on a machine with `parallelism` hardware
/// threads: sixteen tasks per thread, since tasks mostly wait on the network.
pub fn pool_capacity(parallelism: usize) -> (r: usize)
    ensures
        r >= 1,
        r == if parallelism == 0 {
            1
        } else if parallelism * 16 > usize::MAX {
            usize::MAX as int
        } else {
            parallelism * 16
        },
{
    if parallelism == 0 {
        1
    } else if parallelism > usize::MAX / 16 {
        usize::MAX
    } else {
        parallelism * 16
    }
}

impl Scheduler {
    pub open spec fn wf(&self) -> bool {
        self@.wf()
    }

    /// A run of every entry against every endpoint, with at most `capacity`
    /// tasks in flight (at least one).
    pub fn new(entries: usize, models: usize, capacity: usize) -> (r: Scheduler)
        requires
            entries * models <= usize::MAX,
        ensures
            r.wf(),
            r@.entries == entries,
            r@.models == models,
            r@.dispatched == 0,
            r@.capacity == if capacity == 0 {
                1
            } else {
                capacity as int
            },
            r@.run.total == entries * models,
            r@.run.outputs.len() == 0,
            !r@.run.finished,
            r@.run.progress == progress_of(0, (entries * models) as nat),
            forall|k: int| 0 <= k < r@.reported.len() ==> !#[trigger] r@.reported[k],
    {
        let slots = plan_tasks(entries, models);
        let run = Run::new(slots.len());
        let capacity = if capacity == 0 {
            1
        } else {
            capacity
        };
        let mut reported: Vec<bool> = Vec::new();
        let mut k: usize = 0;
        while k < slots.len()
            invariant
                k <= slots.len(),
                reported.len() == k,
                forall|j: int| 0 <= j < k ==> !#[trigger] reported[j],
            decreases slots.len() - k,
        {
            reported.push(false);
            k = k + 1;
        }
        proof {
            lemma_count_none(reported@);
        }
        Scheduler { entries, models, slots, dispatched: 0, capacity, reported, run }
    }

    /// The run's record.
    pub fn run(&self) -> (r: &Run)
        ensures
            r@ == self@.run,
    {
        &self.run
    }

    /// The phase the run is in.
    pub fn phase(&self) -> (r: Phase)
        ensures
            r == self@.phase(),
    {
        if self.run.is_finished() {
            Phase::Finalized
        } else if self.dispatched < self.slots.len() {
            Phase::Dispatching
        } else {
            Phase::Draining
        }
    }

    /// The number of tasks handed out so far.
    pub fn dispatched(&self) -> (r: usize)
        ensures
            r == self@.dispatched,
    {
        self.dispatched
    }

    /// The number of tasks handed out that have not reported.
    pub fn in_flight(&self) -> (r: usize)
        requires
            self.wf(),
        ensures
            r == self@.in_flight(),
    {
        self.dispatched - self.run.completed()
    }

    /// The next thing to do: start the next task while the pool has room,
    /// else wait while tasks are in flight, else finish the run.
    pub fn next_step(&mut self) -> (r: Step)
        requires
            old(self).wf(),
        ensures
            final(self).wf(),
            final(self)@.entries == old(self)@.entries,
            final(self)@.models == old(self)@.models,
            final(self)@.slots == old(self)@.slots,
            final(self)@.capacity == old(self)@.capacity,
            final(self)@.reported == old(self)@.reported,
            final(self)@.run.outputs == old(self)@.run.outputs,
            final(self)@.run.total == old(self)@.run.total,
            final(self)@.run.progress == old(self)@.run.progress,
            old(self)@.dispatched < old(self)@.slots.len() && old(self)@.in_flight()
                < old(self)@.capacity ==> r == Step::Dispatch(old(self)@.slots[old(self)@.dispatched as int])
                && final(self)@.dispatched == old(self)@.dispatched + 1
                && final(self)@.run.finished == old(self)@.run.finished,
            !(old(self)@.dispatched < old(self)@.slots.len() && old(self)@.in_flight()
                < old(self)@.capacity) && old(self)@.run.outputs.len() < old(self)@.slots.len()
                ==> r == Step::Wait && final(self)@ == old(self)@,
            old(self)@.run.outputs.len() == old(self)@.slots.len() ==> r == Step::Finished
                && final(self)@.run.finished && final(self)@.dispatched == old(self)@.dispatched,
    {
        let done = self.run.completed();
        if self.dispatched < self.slots.len() && self.dispatched - done < self.capacity {
            let slot = self.slots[self.dispatched];
            self.dispatched = self.dispatched + 1;
            Step::Dispatch(slot)
        } else if done < self.slots.len() {
            Step::Wait
        } else {
            self.run.finalize();
            Step::Finished
        }
    }

    /// Records the row of the task of `slot`, which was handed out and has
    /// not reported, and returns the new progress.
    pub fn complete(&mut self, slot: TaskSlot, output: OutputEntry) -> (r: u32)
        requires
            old(self).wf(),
            old(self)@.is_pending(slot),
        ensures
            final(self).wf(),
            final(self)@ == (SchedulerView {
                run: final(self)@.run,
                reported: old(self)@.reported.update(slot_index(slot, old(self)@.entries), true),
                ..old(self)@
            }),
            final(self)@.run.outputs == old(self)@.run.outputs.push(output),
            final(self)@.run.total == old(self)@.run.total,
            !final(self)@.run.finished,
            r == final(self)@.run.progress,
            r == progress_of(final(self)@.run.outputs.len(), final(self)@.run.total),
            old(self)@.run.progress <= r,
    {
        proof {
            lemma_plan_index(slot.model as int, slot.entry as int, self.entries as int, self.models as int);
            let v = old(self)@;
            lemma_count_pending(v.reported, v.dispatched as int, slot_index(slot, v.entries));
            lemma_count_update(v.reported, slot_index(slot, v.entries));
        }
        let k = slot.model * self.entries + slot.entry;
        self.reported.set(k, true);
        self.run.record(output)
    }

    /// Whether `slot` names a task that was handed out and has not reported.
    pub fn is_pending(&self, slot: TaskSlot) -> (r: bool)
        requires
            self.wf(),
        ensures
            r == self@.is_pending(slot),
    {
        if slot.entry >= self.entries || slot.model >= self.models {
            return false;
        }
        proof {
            lemma_plan_index(slot.model as int, slot.entry as int, self.entries as int, self.models as int);
            assert(self.slots@.len() == self.slots.len());
        }
        let k = slot.model * self.entries + slot.entry;
        k < self.dispatched && !self.reported[k]
    }

    /// The rows of the run.
    pub fn into_outputs(self) -> (r: Vec<OutputEntry>)
        ensures
            r@ == self@.run.outputs,
    {
        self.run.into_outputs()
    }
}

proof fn lemma_count_none(s: Seq<bool>)
    requires
        forall|k: int| 0 <= k < s.len() ==> !#[trigger] s[k],
    ensures
        count_true(s) == 0,
    decreases s.len(),
{
    if s.len() > 0 {
        assert(!s[s.len() - 1]);
        lemma_count_none(s.drop_last());
    }
}

proof fn lemma_count_le(s: Seq<bool>)
    ensures
        count_true(s) <= s.len(),
        (exists|k: int| 0 <= k < s.len() && !#[trigger] s[k]) ==> count_true(s) < s.len(),
    decreases s.len(),
{
    if s.len() > 0 {
        lemma_count_le(s.drop_last());
        if exists|k: int| 0 <= k < s.len() && !#[trigger] s[k] {
            let k = choose|k: int| 0 <= k < s.len() && !#[trigger] s[k];
            if k < s.len() - 1 {
                assert(!s.drop_last()[k]);
            }
        }
    }
}

proof fn lemma_count_prefix(s: Seq<bool>, d: int)
    requires
        0 <= d <= s.len(),
        forall|k: int| d <= k < s.len() ==> !#[trigger] s[k],
    ensures
        count_true(s) == count_true(s.take(d)),
    decreases s.len() - d,
{
    if d < s.len() {
        assert(s.drop_last().take(d) =~= s.take(d));
        assert(!s[s.len() - 1]);
        lemma_count_prefix(s.drop_last(), d);
    } else {
        assert(s.take(d) =~= s);
    }
}

proof fn lemma_count_pending(s: Seq<bool>, d: int, k: int)
    requires
        0 <= k < d <= s.len(),
        !s[k],
        forall|j: int| 0 <= j < s.len() && #[trigger] s[j] ==> j < d,
    ensures
        count_true(s) < d,
{
    lemma_count_prefix(s, d);
    assert(!s.take(d)[k]);
    lemma_count_le(s.take(d));
}

proof fn lemma_count_update(s: Seq<bool>, k: int)
    requires
        0 <= k < s.len(),
        !s[k],
    ensures
        count_true(s.update(k, true)) == count_true(s) + 1,
    decreases s.len(),
{
    if k < s.len() - 1 {
        assert(s.update(k, true).drop_last() =~= s.drop_last().update(k, true));
        lemma_count_update(s.drop_last(), k);
    } else {
        assert(s.update(k, true).drop_last() =~= s.drop_last());
    }
}

/// Once a run has finished it holds one row for every (entry, endpoint)
/// pair, however many of them carry an error: every pair's task has
/// reported, once, and the progress is 100.
pub proof fn lemma_finished_run_is_complete(s: SchedulerView)
    requires
        s.wf(),
        s.run.finished,
    ensures
        s.run.outputs.len() == s.entries * s.models,
        s.run.progress == 100,
        forall|e: int, m: int|
            0 <= e < s.entries && 0 <= m < s.models ==> #[trigger] s.reported[m * s.entries + e],
{
    crate::run::lemma_progress_full(s.run.outputs.len(), s.run.total);
    assert forall|e: int, m: int| 0 <= e < s.entries && 0 <= m < s.models implies #[trigger] s.reported[m
        * s.entries + e] by {
        lemma_plan_index(m, e, s.entries as int, s.models as int);
        if !s.reported[m * s.entries + e] {
            lemma_count_le(s.reported);
        }
    }
}

/// A run over no entries or no endpoints has no task, starts at progress 100
/// with no row, and its first step finishes it.
pub proof fn lemma_empty_run_finishes(s: SchedulerView)
    requires
        s.wf(),
        s.entries == 0 || s.models == 0,
    ensures
        s.slots.len() == 0,
        s.run.outputs.len() == 0,
        s.run.progress == 100,
        s.run.outputs.len() == s.slots.len(),
{
    assert(s.entries * s.models == 0) by (nonlinear_arith)
        requires
            s.entries == 0 || s.models == 0,
    ;
}

} // verus!
