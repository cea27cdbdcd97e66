//! The report model: per-exercise results, aggregate statistics, and the
//! incremental accumulator a grading run records into.

use vstd::prelude::*;

verus! {

/// The graded outcome of one exercise.
pub struct ExerciseResult {
    pub name: String,
    pub result: bool,
}

/// Aggregate counts over one grading run. `total_time` is the sum of the
/// per-unit elapsed seconds, not the wall clock of the whole run.
pub struct Statistics {
    pub total_exercations: usize,
    pub total_succeeds: usize,
    pub total_failures: usize,
    pub total_time: u64,
}

/// The full outcome of a grading run: results in discovery order plus
/// their aggregate statistics.
pub struct GradeResult {
    pub exercises: Vec<ExerciseResult>,
    pub statistics: Statistics,
}

/// How many results in `s` passed.
pub open spec fn count_passed(s: Seq<ExerciseResult>) -> nat
    decreases s.len(),
{
    if s.len() == 0 {
        0
    } else {
        count_passed(s.drop_last()) + (if s.last().result {
            1nat
        } else {
            0nat
        })
    }
}

/// How many results in `s` failed.
pub open spec fn count_failed(s: Seq<ExerciseResult>) -> nat
    decreases s.len(),
{
    if s.len() == 0 {
        0
    } else {
        count_failed(s.drop_last()) + (if s.last().result {
            0nat
        } else {
            1nat
        })
    }
}

/// Passed and failed results together exhaust the sequence.
pub proof fn lemma_counts_partition(s: Seq<ExerciseResult>)
    ensures
        count_passed(s) + count_failed(s) == s.len(),
    decreases s.len(),
{
    if s.len() != 0 {
        lemma_counts_partition(s.drop_last());
    }
}

impl GradeResult {
    /// The statistics agree with the result list they summarize.
    pub open spec fn wf(&self) -> bool {
        &&& self.statistics.total_exercations == self.exercises@.len()
        &&& self.statistics.total_succeeds == count_passed(self.exercises@)
        &&& self.statistics.total_failures == count_failed(self.exercises@)
    }
}

/// In every well-formed report the total equals the number of exercise
/// entries, and successes and failures sum to the total.
pub proof fn lemma_statistics_consistent(r: GradeResult)
    requires
        r.wf(),
    ensures
        r.statistics.total_exercations == r.exercises@.len(),
        r.statistics.total_succeeds + r.statistics.total_failures
            == r.statistics.total_exercations,
{
    lemma_counts_partition(r.exercises@);
}

/// The running state of one grading pass: results so far, the counters,
/// and the elapsed-seconds sum.
pub struct GradeRun {
    pub results: Vec<ExerciseResult>,
    pub succeeds: usize,
    pub failures: usize,
    pub elapsed_total: u64,
}

impl GradeRun {
    /// The counters always track the recorded results.
    pub open spec fn inv(&self) -> bool {
        &&& self.succeeds == count_passed(self.results@)
        &&& self.failures == count_failed(self.results@)
    }

    /// A run with nothing recorded yet.
    pub fn new() -> (r: GradeRun)
        ensures
            r.inv(),
            r.results@ == Seq::<ExerciseResult>::empty(),
            r.succeeds == 0,
            r.failures == 0,
            r.elapsed_total == 0,
    {
        let r = GradeRun { results: Vec::new(), succeeds: 0, failures: 0, elapsed_total: 0 };
        assert(r.results@ =~= Seq::<ExerciseResult>::empty());
        r
    }

    /// Appends one graded unit and updates the counters and the elapsed
    /// sum.
    pub fn record(&mut self, name: String, passed: bool, elapsed: u64)
        requires
            old(self).inv(),
            old(self).results@.len() < usize::MAX,
            old(self).elapsed_total + elapsed <= u64::MAX,
        ensures
            final(self).inv(),
            final(self).results@ == old(self).results@.push(
                (ExerciseResult { name: name, result: passed }),
            ),
            final(self).succeeds == old(self).succeeds + (if passed {
                1int
            } else {
                0int
            }),
            final(self).failures == old(self).failures + (if passed {
                0int
            } else {
                1int
            }),
            final(self).elapsed_total == old(self).elapsed_total + elapsed,
    {
        proof {
            lemma_counts_partition(old(self).results@);
        }
        let entry = ExerciseResult { name: name, result: passed };
        self.results.push(entry);
        proof {
            assert(self.results@.drop_last() =~= old(self).results@);
        }
        if passed {
            self.succeeds = self.succeeds + 1;
        } else {
            self.failures = self.failures + 1;
        }
        self.elapsed_total = self.elapsed_total + elapsed;
    }

    /// The statistics describing the results recorded so far.
    pub fn statistics(&self) -> (r: Statistics)
        requires
            self.inv(),
        ensures
            r.total_exercations == self.results@.len(),
            r.total_succeeds == self.succeeds,
            r.total_failures == self.failures,
            r.total_time == self.elapsed_total,
    {
        Statistics {
            total_exercations: self.results.len(),
            total_succeeds: self.succeeds,
            total_failures: self.failures,
            total_time: self.elapsed_total,
        }
    }

    /// Finishes the run, yielding a well-formed report.
    pub fn finish(self) -> (r: GradeResult)
        requires
            self.inv(),
        ensures
            r.wf(),
            r.exercises@ == self.results@,
            r.statistics.total_exercations == self.results@.len(),
            r.statistics.total_succeeds == self.succeeds,
            r.statistics.total_failures == self.failures,
            r.statistics.total_time == self.elapsed_total,
    {
        let statistics = self.statistics();
        GradeResult { exercises: self.results, statistics: statistics }
    }
}

/// The pass rate in whole percent, rounded down: zero for an empty run,
/// `100 * succeeds / total` otherwise.
pub fn pass_rate_percent(succeeds: usize, total: usize) -> (r: u64)
    requires
        succeeds <= total,
    ensures
        total == 0 ==> r == 0,
        total > 0 ==> r == 100 * (succeeds as int) / (total as int),
        r <= 100,
{
    if total == 0 {
        0
    } else {
        let num: u128 = 100u128 * (succeeds as u128);
        let q: u128 = num / (total as u128);
        proof {
            assert(q <= 100) by (nonlinear_arith)
                requires
                    succeeds <= total,
                    total > 0,
                    num == 100 * succeeds,
                    q == num / (total as u128),
            ;
        }
        q as u64
    }
}

} // verus!
