//! The grading pipeline's accumulation step: folding the reported
//! outcomes of every discovered unit, in order, into the final report.
//!
//! Grading is total: an outcome whose process could not be spawned marks
//! that one unit failed and never aborts the fold.

use vstd::prelude::*;
use crate::grade::{after_compile, after_run, spec_unit_passed, ProcOutcome};
use crate::report::{lemma_statistics_consistent, GradeResult, GradeRun};

verus! {

/// Everything the caller observed while grading one unit: the unit's
/// display name, the compile outcome, the run outcome when a run was
/// attempted, and the elapsed whole seconds.
pub struct UnitOutcome {
    pub name: String,
    pub compile: ProcOutcome,
    pub run: Option<ProcOutcome>,
    pub elapsed: u64,
}

/// The sum of the per-unit elapsed seconds.
pub open spec fn sum_elapsed(s: Seq<UnitOutcome>) -> int
    decreases s.len(),
{
    if s.len() == 0 {
        0
    } else {
        sum_elapsed(s.drop_last()) + s.last().elapsed
    }
}

proof fn lemma_sum_take_step(s: Seq<UnitOutcome>, i: int)
    requires
        0 <= i < s.len(),
    ensures
        sum_elapsed(s.take(i + 1)) == sum_elapsed(s.take(i)) + s[i].elapsed,
{
    assert(s.take(i + 1).drop_last() =~= s.take(i));
    assert(s.take(i + 1).last() == s[i]);
}

/// A prefix never sums to more than the whole sequence.
pub proof fn lemma_sum_take_le(s: Seq<UnitOutcome>, i: int)
    requires
        0 <= i <= s.len(),
    ensures
        sum_elapsed(s.take(i)) <= sum_elapsed(s),
    decreases s.len() - i,
{
    if i == s.len() {
        assert(s.take(i) =~= s);
    } else {
        lemma_sum_take_step(s, i);
        lemma_sum_take_le(s, i + 1);
    }
}

/// How a finished report relates to the outcomes it was folded from: one
/// entry per unit in order, each named after its unit and marked passed
/// exactly when both of its steps succeeded, with consistent statistics
/// and the elapsed sum as the total time.
pub open spec fn report_matches_outcomes(r: GradeResult, outcomes: Seq<UnitOutcome>) -> bool {
    &&& r.wf()
    &&& r.exercises@.len() == outcomes.len()
    &&& forall|k: int|
        0 <= k < outcomes.len() ==> {
            &&& (#[trigger] r.exercises@[k]).name@ == outcomes[k].name@
            &&& r.exercises@[k].result == spec_unit_passed(outcomes[k].compile, outcomes[k].run)
        }
    &&& r.statistics.total_time == sum_elapsed(outcomes)
}

/// Folds the outcomes of one grading pass into the final report.
pub fn fold_report(outcomes: &Vec<UnitOutcome>) -> (r: GradeResult)
    requires
        sum_elapsed(outcomes@) <= u64::MAX,
    ensures
        report_matches_outcomes(r, outcomes@),
{
    let mut run = GradeRun::new();
    let mut i: usize = 0;
    assert(outcomes@.take(0) =~= Seq::<UnitOutcome>::empty());
    while i < outcomes.len()
        invariant
            i <= outcomes@.len(),
            sum_elapsed(outcomes@) <= u64::MAX,
            run.inv(),
            run.results@.len() == i,
            forall|k: int|
                0 <= k < i ==> {
                    &&& (#[trigger] run.results@[k]).name@ == outcomes@[k].name@
                    &&& run.results@[k].result == spec_unit_passed(
                        outcomes@[k].compile,
                        outcomes@[k].run,
                    )
                },
            run.elapsed_total == sum_elapsed(outcomes@.take(i as int)),
        decreases outcomes@.len() - i,
    {
        let o = &outcomes[i];
        let passed: bool = match after_compile(&o.compile) {
            Some(p) => p,
            None => match &o.run {
                Some(ro) => after_run(ro),
                None => false,
            },
        };
        assert(passed == spec_unit_passed(o.compile, o.run));
        proof {
            lemma_sum_take_step(outcomes@, i as int);
            lemma_sum_take_le(outcomes@, i + 1);
        }
        run.record(o.name.clone(), passed, o.elapsed);
        i = i + 1;
    }
    proof {
        assert(outcomes@.take(outcomes@.len() as int) =~= outcomes@);
    }
    run.finish()
}

/// Grading is total: even when some unit's process could not be spawned,
/// the folded report still has one entry per unit, that unit is marked
/// failed, every other unit keeps its own verdict, and the statistics
/// remain consistent.
pub proof fn lemma_grading_total(r: GradeResult, outcomes: Seq<UnitOutcome>, k: int)
    requires
        report_matches_outcomes(r, outcomes),
        0 <= k < outcomes.len(),
        outcomes[k].compile is SpawnFailed || outcomes[k].run == Some(ProcOutcome::SpawnFailed),
    ensures
        r.exercises@.len() == outcomes.len(),
        r.exercises@[k].result == false,
        forall|j: int|
            0 <= j < outcomes.len() ==> (#[trigger] r.exercises@[j]).result == spec_unit_passed(
                outcomes[j].compile,
                outcomes[j].run,
            ),
        r.statistics.total_succeeds + r.statistics.total_failures
            == r.statistics.total_exercations == outcomes.len(),
{
    lemma_statistics_consistent(r);
}

} // verus!
