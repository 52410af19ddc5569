//! The aggregate of one run: the result rows recorded so far, the progress
//! percentage derived from them, and whether the run has finished.
use vstd::prelude::*;
use crate::task::OutputEntry;

verus! {

/// Percentage of `total` tasks that `done` represents, rounded down; a run of
/// no tasks is complete.
pub open spec fn progress_of(done: nat, total: nat) -> nat {
    if total == 0 {
        100
    } else {
        (100 * done) / total
    }
}

/// Recording more results never lowers the progress.
pub proof fn lemma_progress_monotone(a: nat, b: nat, total: nat)
    requires
        a <= b,
    ensures
        progress_of(a, total) <= progress_of(b, total),
{
    if total > 0 {
        assert(100 * a <= 100 * b) by (nonlinear_arith)
            requires
                a <= b,
        ;
        vstd::arithmetic::div_mod::lemma_div_is_ordered((100 * a) as int, (100 * b) as int, total as int);
    }
}

/// The progress reaches 100 exactly when every task has reported, and never
/// goes above it.
pub proof fn lemma_progress_full(done: nat, total: nat)
    requires
        done <= total,
    ensures
        progress_of(done, total) <= 100,
        progress_of(done, total) == 100 <==> done == total,
{
    if total > 0 {
        if done < total {
            assert((100 * done) / total < 100) by (nonlinear_arith)
                requires
                    done < total,
                    total > 0,
            {
                assert(100 * done < 100 * total);
                vstd::arithmetic::div_mod::lemma_div_by_multiple_is_strongly_ordered(
                    (100 * done) as int, (100 * total) as int, 100, total as int);
            }
        } else {
            assert((100 * total) / total == 100) by (nonlinear_arith)
                requires
                    total > 0,
            ;
        }
    }
}

/// Whatever has been recorded, the progress of a run is 100 exactly when
/// every task has reported.
pub proof fn lemma_run_progress_full(v: RunView)
    requires
        v.wf(),
    ensures
        v.progress <= 100,
        v.progress == 100 <==> v.outputs.len() == v.total,
{
    lemma_progress_full(v.outputs.len(), v.total);
}

/// The percentage, rounded down, of `total` that `done` represents.
pub fn progress_percent(done: usize, total: usize) -> (r: u32)
    requires
        done <= total,
    ensures
        r == progress_of(done as nat, total as nat),
{
    proof {
        lemma_progress_full(done as nat, total as nat);
    }
    if total == 0 {
        100
    } else {
        ((100u128 * done as u128) / total as u128) as u32
    }
}

/// What a run holds, seen as plain values.
pub struct RunView {
    pub total: nat,
    pub outputs: Seq<OutputEntry>,
    pub progress: nat,
    pub finished: bool,
}

impl RunView {
    /// At most `total` rows, the progress that their count gives, and a
    /// finished run holds all of them.
    pub open spec fn wf(self) -> bool {
        &&& self.outputs.len() <= self.total
        &&& self.progress == progress_of(self.outputs.len(), self.total)
        &&& (self.finished ==> self.outputs.len() == self.total)
    }
}

/// The result rows of one run and its progress; the single place where they
/// change.
pub struct Run {
    total: usize,
    outputs: Vec<OutputEntry>,
    progress: u32,
    finished: bool,
}

impl View for Run {
    type V = RunView;

    closed spec fn view(&self) -> RunView {
        RunView {
            total: self.total as nat,
            outputs: self.outputs@,
            progress: self.progress as nat,
            finished: self.finished,
        }
    }
}

impl Run {
    pub open spec fn wf(&self) -> bool {
        self@.wf()
    }

    /// A run of `total` tasks with nothing recorded yet.
    pub fn new(total: usize) -> (r: Run)
        ensures
            r.wf(),
            r@.total == total,
            r@.outputs.len() == 0,
            !r@.finished,
            total == 0 ==> r@.progress == 100,
            total > 0 ==> r@.progress == 0,
    {
        let progress = progress_percent(0, total);
        Run { total, outputs: Vec::new(), progress, finished: false }
    }

    pub fn total(&self) -> (r: usize)
        ensures
            r == self@.total,
    {
        self.total
    }

    /// The number of rows recorded.
    pub fn completed(&self) -> (r: usize)
        ensures
            r == self@.outputs.len(),
    {
        self.outputs.len()
    }

    pub fn progress(&self) -> (r: u32)
        ensures
            r == self@.progress,
    {
        self.progress
    }

    pub fn is_finished(&self) -> (r: bool)
        ensures
            r == self@.finished,
    {
        self.finished
    }

    /// The rows recorded, in the order in which they were recorded.
    pub fn outputs(&self) -> (r: &Vec<OutputEntry>)
        ensures
            r@ == self@.outputs,
    {
        &self.outputs
    }

    /// Records the row of one finished task and returns the new progress.
    pub fn record(&mut self, output: OutputEntry) -> (r: u32)
        requires
            old(self).wf(),
            !old(self)@.finished,
            old(self)@.outputs.len() < old(self)@.total,
        ensures
            final(self).wf(),
            final(self)@.total == old(self)@.total,
            final(self)@.outputs == old(self)@.outputs.push(output),
            !final(self)@.finished,
            r == final(self)@.progress,
            r == progress_of(final(self)@.outputs.len(), final(self)@.total),
            old(self)@.progress <= r,
    {
        self.outputs.push(output);
        let p = progress_percent(self.outputs.len(), self.total);
        proof {
            lemma_progress_monotone(old(self)@.outputs.len(), self.outputs.len() as nat, self.total as nat);
        }
        self.progress = p;
        p
    }

    /// Marks the run finished when every task has reported; returns whether
    /// it is finished.
    pub fn finalize(&mut self) -> (r: bool)
        requires
            old(self).wf(),
        ensures
            final(self).wf(),
            r == (old(self)@.finished || old(self)@.outputs.len() == old(self)@.total),
            final(self)@ == (RunView { finished: r, ..old(self)@ }),
    {
        if self.outputs.len() == self.total {
            self.finished = true;
        }
        self.finished
    }

    /// The rows recorded.
    pub fn into_outputs(self) -> (r: Vec<OutputEntry>)
        ensures
            r@ == self@.outputs,
    {
        self.outputs
    }
}

} // verus!
