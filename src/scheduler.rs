//! The per-run scheduler: it walks the steps of a plan in order, decides for
//! each whether it runs, and keeps the plan's aggregate outcome.
//!
//! Running a step is left to the caller: the scheduler says whether the
//! current step is to run, and is told the outcome.

use vstd::prelude::*;
use crate::model::{steps_view, Plan, PlanView, Step, StepStatus, StepType, StepView};

verus! {

/// Status of the last step of `done` named `name`, if any.
pub open spec fn parent_status(done: Seq<StepView>, name: Seq<char>) -> Option<StepStatus>
    decreases done.len(),
{
    if done.len() == 0 {
        Option::None
    } else if done.last().name == name {
        Option::Some(done.last().status)
    } else {
        parent_status(done.drop_last(), name)
    }
}

/// The enable rule: a step without a parent runs; an action runs when its
/// parent ended `Success`; a recovery runs when its parent ended `Nok` or
/// `Failed`. `done` are the steps before it, with their final outcomes.
pub open spec fn enabled(step: StepView, done: Seq<StepView>) -> bool {
    match step.parent {
        Option::None => true,
        Option::Some(p) => match parent_status(done, p) {
            Option::None => false,
            Option::Some(st) => match step.kind {
                StepType::Action => st == StepStatus::Success,
                StepType::Recovery => st == StepStatus::Nok || st == StepStatus::Failed,
                StepType::Unset => false,
            },
        },
    }
}

/// An outcome that marks the plan as not successful.
pub open spec fn is_bad(s: StepStatus) -> bool {
    s != StepStatus::Success && s != StepStatus::NotRun
}

/// The aggregate outcome of the finished steps `done`: the outcome of the
/// last bad one, or `Success` when there is none.
pub open spec fn aggregate(done: Seq<StepView>) -> StepStatus
    decreases done.len(),
{
    if done.len() == 0 {
        StepStatus::Success
    } else if is_bad(done.last().status) {
        done.last().status
    } else {
        aggregate(done.drop_last())
    }
}

pub struct RunView {
    pub plan: PlanView,
    pub next: nat,
}

/// A run state is sound: the steps before `next` are final, each ran exactly
/// when the enable rule allowed it, and the plan's status aggregates them.
pub open spec fn run_invariant(v: RunView) -> bool {
    &&& v.next <= v.plan.steps.len()
    &&& v.plan.status == aggregate(v.plan.steps.take(v.next as int))
    &&& forall|i: int|
        #![trigger v.plan.steps[i]]
        0 <= i < v.next ==> (v.plan.steps[i].status != StepStatus::NotRun <==> enabled(
            v.plan.steps[i],
            v.plan.steps.take(i),
        ))
}

/// The step at `v.next` after its outcome is recorded.
pub open spec fn recorded_step(v: RunView, executed: StepStatus) -> StepView {
    StepView {
        status: if enabled(v.plan.steps[v.next as int], v.plan.steps.take(v.next as int)) {
            executed
        } else {
            StepStatus::NotRun
        },
        ..v.plan.steps[v.next as int]
    }
}

proof fn lemma_record_step(v: RunView, w: RunView, executed: StepStatus)
    requires
        run_invariant(v),
        v.next < v.plan.steps.len(),
        executed != StepStatus::NotRun,
        w.next == v.next + 1,
        w.plan.steps == v.plan.steps.update(v.next as int, recorded_step(v, executed)),
        w.plan.status == (if is_bad(recorded_step(v, executed).status) {
            recorded_step(v, executed).status
        } else {
            v.plan.status
        }),
    ensures
        run_invariant(w),
{
    let i = v.next as int;
    let s = v.plan.steps;
    let t = w.plan.steps;
    assert(t.take(i) =~= s.take(i));
    assert(t.take(i + 1).drop_last() =~= t.take(i));
    assert forall|j: int|
        #![trigger t[j]]
        0 <= j < w.next implies (t[j].status != StepStatus::NotRun <==> enabled(t[j], t.take(j))) by {
        assert(t.take(j) =~= s.take(j));
        if j < i {
            assert(t[j] == s[j]);
        }
    }
}

/// The state of one run of a plan.
pub struct Scheduler {
    plan: Plan,
    next: usize,
}

impl View for Scheduler {
    type V = RunView;

    closed spec fn view(&self) -> RunView {
        RunView { plan: self.plan@, next: self.next as nat }
    }
}

impl Scheduler {
    /// Starts a run of `plan`: no step is final yet and the aggregate
    /// outcome is `Success`.
    pub fn new(plan: Plan) -> (r: Scheduler)
        ensures
            r@.next == 0,
            r@.plan.id == plan@.id,
            r@.plan.steps == plan@.steps,
            r@.plan.status == StepStatus::Success,
            run_invariant(r@),
    {
        let mut plan = plan;
        plan.status = StepStatus::Success;
        Scheduler { plan: plan, next: 0 }
    }

    /// The plan, with the outcomes recorded so far.
    pub fn plan(&self) -> (r: &Plan)
        ensures
            r@ == self@.plan,
    {
        &self.plan
    }

    /// Whether every step has been decided.
    pub fn is_finished(&self) -> (r: bool)
        ensures
            r == (self@.next >= self@.plan.steps.len()),
    {
        self.next >= self.plan.steps.len()
    }

    /// The step to be decided next.
    pub fn current(&self) -> (r: &Step)
        requires
            self@.next < self@.plan.steps.len(),
        ensures
            r@ == self@.plan.steps[self@.next as int],
    {
        &self.plan.steps[self.next]
    }

    /// Whether the current step is to run, by the enable rule.
    pub fn should_run(&self) -> (r: bool)
        requires
            self@.next < self@.plan.steps.len(),
        ensures
            r == enabled(self@.plan.steps[self@.next as int], self@.plan.steps.take(self@.next as int)),
    {
        let step = &self.plan.steps[self.next];
        match &step.parent {
            None => true,
            Some(p) => {
                let st = self.parent_status_of(p);
                match st {
                    None => false,
                    Some(st) => match step.step_type {
                        StepType::Action => st == StepStatus::Success,
                        StepType::Recovery => st == StepStatus::Nok || st == StepStatus::Failed,
                        StepType::Unset => false,
                    },
                }
            },
        }
    }

    fn parent_status_of(&self, name: &String) -> (r: Option<StepStatus>)
        requires
            self@.next <= self@.plan.steps.len(),
        ensures
            r == parent_status(self@.plan.steps.take(self@.next as int), name@),
    {
        let ghost all = self@.plan.steps;
        let mut k: usize = self.next;
        while k > 0
            invariant
                k <= self.next <= self.plan.steps@.len(),
                all == self@.plan.steps,
                parent_status(all.take(self.next as int), name@) == parent_status(
                    all.take(k as int),
                    name@,
                ),
            decreases k,
        {
            assert(all.take(k as int).drop_last() =~= all.take(k - 1));
            if self.plan.steps[k - 1].step_name == *name {
                return Some(self.plan.steps[k - 1].status);
            }
            k = k - 1;
        }
        None
    }

    /// Records that the current step, which the enable rule skips, stays
    /// `NotRun`, and moves to the next one.
    pub fn skip(&mut self)
        requires
            old(self)@.next < old(self)@.plan.steps.len(),
            run_invariant(old(self)@),
            !enabled(
                old(self)@.plan.steps[old(self)@.next as int],
                old(self)@.plan.steps.take(old(self)@.next as int),
            ),
        ensures
            run_invariant(final(self)@),
            final(self)@.next == old(self)@.next + 1,
            final(self)@.plan.id == old(self)@.plan.id,
            final(self)@.plan.steps == old(self)@.plan.steps.update(
                old(self)@.next as int,
                StepView {
                    status: StepStatus::NotRun,
                    ..old(self)@.plan.steps[old(self)@.next as int]
                },
            ),
    {
        self.record(StepStatus::Failed);
    }

    /// Records the outcome of the current step and moves to the next one.
    /// When the enable rule skipped the step, `executed` is ignored and the
    /// step stays `NotRun`; otherwise the step takes the outcome `executed`,
    /// which is that of a command that was attempted.
    pub fn record(&mut self, executed: StepStatus)
        requires
            old(self)@.next < old(self)@.plan.steps.len(),
            run_invariant(old(self)@),
            executed != StepStatus::NotRun,
        ensures
            run_invariant(final(self)@),
            final(self)@.next == old(self)@.next + 1,
            final(self)@.plan.id == old(self)@.plan.id,
            final(self)@.plan.steps == old(self)@.plan.steps.update(
                old(self)@.next as int,
                recorded_step(old(self)@, executed),
            ),
    {
        let ghost before = self@;
        let run = self.should_run();
        let status = if run { executed } else { StepStatus::NotRun };
        let i = self.next;
        let mut step = self.plan.steps.remove(i);
        step.status = status;
        self.plan.steps.insert(i, step);
        if status != StepStatus::Success && status != StepStatus::NotRun {
            self.plan.status = status;
        }
        assert(i < self.plan.steps.len());
        self.next = i + 1;
        proof {
            assert(steps_view(self.plan.steps@) =~= before.plan.steps.update(i as int, step@));
            lemma_record_step(before, self@, executed);
        }
    }
}

proof fn lemma_aggregate(done: Seq<StepView>)
    ensures
        (forall|i: int| 0 <= i < done.len() ==> !is_bad(#[trigger] done[i].status)) ==> aggregate(
            done,
        ) == StepStatus::Success,
        forall|i: int|
            0 <= i < done.len() && is_bad(#[trigger] done[i].status) && (forall|j: int|
                i < j < done.len() ==> !is_bad(done[j].status)) ==> aggregate(done) == done[i].status,
    decreases done.len(),
{
    if done.len() > 0 {
        let init = done.drop_last();
        lemma_aggregate(init);
        assert forall|i: int|
            0 <= i < done.len() && is_bad(#[trigger] done[i].status) && (forall|j: int|
                i < j < done.len() ==> !is_bad(done[j].status)) implies aggregate(done)
            == done[i].status by {
            if i < done.len() - 1 {
                assert(!is_bad(done[done.len() - 1].status));
                assert(init[i] == done[i]);
                assert forall|j: int| i < j < init.len() implies !is_bad(init[j].status) by {
                    assert(init[j] == done[j]);
                }
            }
        }
        if forall|i: int| 0 <= i < done.len() ==> !is_bad(#[trigger] done[i].status) {
            assert(!is_bad(done[done.len() - 1].status));
            assert forall|i: int| 0 <= i < init.len() implies !is_bad(#[trigger] init[i].status) by {
                assert(init[i] == done[i]);
            }
        }
    }
}

/// In a finished run, the plan's outcome is that of the last step whose
/// outcome is neither `Success` nor `NotRun`, or `Success` when there is none.
pub proof fn lemma_status_aggregation(v: RunView)
    requires
        run_invariant(v),
        v.next == v.plan.steps.len(),
    ensures
        (forall|i: int|
            0 <= i < v.plan.steps.len() ==> !is_bad(#[trigger] v.plan.steps[i].status))
            ==> v.plan.status == StepStatus::Success,
        forall|i: int|
            0 <= i < v.plan.steps.len() && is_bad(#[trigger] v.plan.steps[i].status) && (forall|j: int|
                i < j < v.plan.steps.len() ==> !is_bad(v.plan.steps[j].status))
                ==> v.plan.status == v.plan.steps[i].status,
{
    assert(v.plan.steps.take(v.next as int) =~= v.plan.steps);
    lemma_aggregate(v.plan.steps);
}

/// In every sound run state, a decided step has an outcome other than
/// `NotRun` exactly when the enable rule allows it, judged on the final
/// outcomes of the steps before it (its parent among them).
pub proof fn lemma_enable_rule(v: RunView, i: int)
    requires
        run_invariant(v),
        0 <= i < v.next,
    ensures
        v.plan.steps[i].status != StepStatus::NotRun <==> enabled(
            v.plan.steps[i],
            v.plan.steps.take(i),
        ),
{
}

} // verus!
