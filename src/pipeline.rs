//! The submission sequence as a state machine. The caller performs each step
//! on chain and reports whether it succeeded; the machine decides what comes
//! next. Starting the campaign must succeed before any contributor is added;
//! a contributor that fails is recorded and skipped, never retried, and never
//! stops the ones after it.

use crate::calls::{ContributerSubmission, StartCampaign};
use crate::campaign::Campaign;
use crate::error::ArithmeticError;
use crate::reward::lemma_total_nonnegative;
use vstd::prelude::*;

verus! {

/// Where a run stands.
#[derive(Clone, Copy, Debug, PartialEq, Eq, Structural)]
pub enum Stage {
    Idle,
    CampaignCreated,
    ContributorsInFlight,
    Done,
    Aborted,
}

/// What the caller is to do next.
#[derive(Clone, Copy, Debug, PartialEq, Eq)]
pub enum Step {
    CreateCampaign(StartCampaign),
    AddContributor(ContributerSubmission),
    /// Every contributor has been attempted once.
    Finished,
    /// Starting the campaign failed; nothing more is submitted.
    Aborted,
}

/// The abstract state of a run: its stage, how many contributors there are,
/// the index of the next one, and the outcome of each one attempted so far.
pub struct RunState {
    pub stage: Stage,
    pub count: nat,
    pub next: nat,
    pub outcomes: Seq<bool>,
}

impl RunState {
    /// The states a run can reach from its start.
    pub open spec fn inv(self) -> bool {
        &&& self.outcomes.len() == self.next
        &&& self.next <= self.count
        &&& match self.stage {
            Stage::Idle | Stage::Aborted => self.next == 0,
            Stage::CampaignCreated => self.next == 0 && self.count > 0,
            Stage::ContributorsInFlight => 0 < self.next < self.count,
            Stage::Done => self.next == self.count,
        }
    }

    /// The state after the current step was reported as `succeeded` or not.
    pub open spec fn record(self, succeeded: bool) -> RunState {
        match self.stage {
            Stage::Idle => RunState {
                stage: if !succeeded {
                    Stage::Aborted
                } else if self.count == 0 {
                    Stage::Done
                } else {
                    Stage::CampaignCreated
                },
                ..self
            },
            Stage::CampaignCreated | Stage::ContributorsInFlight => RunState {
                stage: if self.next + 1 == self.count {
                    Stage::Done
                } else {
                    Stage::ContributorsInFlight
                },
                next: self.next + 1,
                outcomes: self.outcomes.push(succeeded),
                ..self
            },
            Stage::Done | Stage::Aborted => self,
        }
    }

    /// The state after the steps were reported with `results`, in order.
    pub open spec fn run(self, results: Seq<bool>) -> RunState
        decreases results.len(),
    {
        if results.len() == 0 {
            self
        } else {
            self.run(results.drop_last()).record(results.last())
        }
    }
}

/// A run over the calls of one campaign.
pub struct Pipeline {
    pub stage: Stage,
    pub start: StartCampaign,
    pub calls: Vec<ContributerSubmission>,
    pub next: usize,
    pub outcomes: Vec<bool>,
}

impl View for Pipeline {
    type V = RunState;

    open spec fn view(&self) -> RunState {
        RunState {
            stage: self.stage,
            count: self.calls@.len(),
            next: self.next as nat,
            outcomes: self.outcomes@,
        }
    }
}

impl Pipeline {
    pub open spec fn wf(&self) -> bool {
        self@.inv()
    }

    /// The step that the current state calls for.
    pub open spec fn step_spec(&self) -> Step {
        match self.stage {
            Stage::Idle => Step::CreateCampaign(self.start),
            Stage::CampaignCreated | Stage::ContributorsInFlight => Step::AddContributor(
                self.calls@[self.next as int],
            ),
            Stage::Done => Step::Finished,
            Stage::Aborted => Step::Aborted,
        }
    }

    /// A run over `campaign`: its start call, then one add call per
    /// contributor with its reward. Fails as the reward computation does.
    pub fn new(campaign: &Campaign) -> (res: Result<Pipeline, ArithmeticError>)
        ensures
            res is Ok <==> campaign.populate_contributer_ok(),
            res matches Err(e) ==> campaign.populate_contributer_err() == Some(e),
            res matches Ok(p) ==> {
                &&& p.wf()
                &&& p.stage == Stage::Idle
                &&& p.start == campaign.start_call()
                &&& p.calls@.len() == campaign.contributers@.len()
                &&& forall|i: int| 0 <= i < p.calls@.len() ==> #[trigger] p.calls@[i] == campaign.add_call(i)
            },
    {
        proof {
            lemma_total_nonnegative(campaign.contributers@);
        }
        let calls = match campaign.populate_contributer() {
            Err(e) => return Err(e),
            Ok(calls) => calls,
        };
        Ok(Pipeline { stage: Stage::Idle, start: campaign.create(), calls, next: 0, outcomes: Vec::new() })
    }

    /// What to submit next, or that the run is over.
    pub fn next_step(&self) -> (step: Step)
        requires
            self.wf(),
        ensures
            step == self.step_spec(),
    {
        match self.stage {
            Stage::Idle => Step::CreateCampaign(self.start),
            Stage::CampaignCreated | Stage::ContributorsInFlight => Step::AddContributor(
                self.calls[self.next],
            ),
            Stage::Done => Step::Finished,
            Stage::Aborted => Step::Aborted,
        }
    }

    /// Reports whether the step last returned by `next_step` succeeded.
    pub fn record(&mut self, succeeded: bool)
        requires
            old(self).wf(),
        ensures
            final(self).wf(),
            final(self)@ == old(self)@.record(succeeded),
            final(self).start == old(self).start,
            final(self).calls@ == old(self).calls@,
    {
        match self.stage {
            Stage::Idle => {
                if !succeeded {
                    self.stage = Stage::Aborted;
                } else if self.calls.len() == 0 {
                    self.stage = Stage::Done;
                } else {
                    self.stage = Stage::CampaignCreated;
                }
            },
            Stage::CampaignCreated | Stage::ContributorsInFlight => {
                let count = self.calls.len();
                self.outcomes.push(succeeded);
                self.next = self.next + 1;
                if self.next == count {
                    self.stage = Stage::Done;
                } else {
                    self.stage = Stage::ContributorsInFlight;
                }
            },
            Stage::Done | Stage::Aborted => {},
        }
    }
}

/// The state after the first `i` reports of a run that began with the
/// campaign created.
proof fn lemma_run_prefix(m: RunState, results: Seq<bool>, i: int)
    requires
        m.inv(),
        m.stage == Stage::CampaignCreated,
        results.len() == m.count,
        0 <= i <= m.count,
    ensures
        m.run(results.take(i)).inv(),
        m.run(results.take(i)).count == m.count,
        m.run(results.take(i)).next == i,
        m.run(results.take(i)).outcomes == results.take(i),
        i < m.count ==> (m.run(results.take(i)).stage == Stage::CampaignCreated || m.run(
            results.take(i),
        ).stage == Stage::ContributorsInFlight),
        i == m.count ==> m.run(results.take(i)).stage == Stage::Done,
    decreases i,
{
    if i > 0 {
        lemma_run_prefix(m, results, i - 1);
        assert(results.take(i).drop_last() == results.take(i - 1));
        assert(results.take(i - 1).push(results.take(i).last()) == results.take(i));
    } else {
        assert(results.take(0) == Seq::<bool>::empty());
    }
}

/// After the campaign was created, each contributor is attempted exactly
/// once and in order, whatever the earlier ones' outcomes: after any `i`
/// reports the next step adds contributor `i`, and after all of them the run
/// is done with exactly the reported outcomes.
pub proof fn lemma_failures_do_not_stop(m: RunState, results: Seq<bool>, i: int)
    requires
        m.inv(),
        m.stage == Stage::CampaignCreated,
        results.len() == m.count,
        0 <= i < m.count,
    ensures
        m.run(results.take(i)).next == i,
        m.run(results.take(i)).stage == Stage::CampaignCreated || m.run(results.take(i)).stage
            == Stage::ContributorsInFlight,
        m.run(results).stage == Stage::Done,
        m.run(results).outcomes == results,
{
    lemma_run_prefix(m, results, i);
    lemma_run_prefix(m, results, m.count as int);
    assert(results.take(m.count as int) == results);
}

} // verus!
