use vstd::prelude::*;
use crate::error::EtlError;

verus! {

/// The fetch timeout that the full run uses, in seconds.
pub const DEFAULT_TIMEOUT_SECS: u64 = 10;

/// What the operator asked for.
#[derive(PartialEq, Eq, Structural, Clone, Copy, Debug)]
pub enum Action {
    Extract { timeout: u64 },
    Load,
    Create,
    Read,
    Update,
    Delete,
    All,
}

/// One step of the pipeline.
#[derive(PartialEq, Eq, Structural, Clone, Copy, Debug)]
pub enum Step {
    Extract { timeout: u64 },
    Load,
    Create,
    Read,
    Update,
    Delete,
}

/// The steps an action runs, in order.
pub open spec fn plan_spec(action: Action) -> Seq<Step> {
    match action {
        Action::Extract { timeout } => seq![Step::Extract { timeout }],
        Action::Load => seq![Step::Load],
        Action::Create => seq![Step::Create],
        Action::Read => seq![Step::Read],
        Action::Update => seq![Step::Update],
        Action::Delete => seq![Step::Delete],
        Action::All => seq![
            Step::Extract { timeout: DEFAULT_TIMEOUT_SECS },
            Step::Load,
            Step::Create,
            Step::Read,
            Step::Update,
            Step::Delete,
        ],
    }
}

/// The steps that `action` runs, in order.
pub fn plan(action: Action) -> (r: Vec<Step>)
    ensures
        r@ == plan_spec(action),
{
    let r = match action {
        Action::Extract { timeout } => vec![Step::Extract { timeout }],
        Action::Load => vec![Step::Load],
        Action::Create => vec![Step::Create],
        Action::Read => vec![Step::Read],
        Action::Update => vec![Step::Update],
        Action::Delete => vec![Step::Delete],
        Action::All => vec![
            Step::Extract { timeout: DEFAULT_TIMEOUT_SECS },
            Step::Load,
            Step::Create,
            Step::Read,
            Step::Update,
            Step::Delete,
        ],
    };
    assert(r@ =~= plan_spec(action));
    r
}

/// The step that follows the outcomes recorded so far, if any is left.
pub open spec fn next_of(steps: Seq<Step>, outcomes: Seq<bool>) -> Option<Step> {
    if outcomes.len() < steps.len() {
        Some(steps[outcomes.len() as int])
    } else {
        None
    }
}

/// The progress of one run: its planned steps and whether each finished one
/// succeeded. A failed step is recorded like any other and the run goes on.
pub struct Run {
    steps: Vec<Step>,
    outcomes: Vec<bool>,
}

impl Run {
    pub closed spec fn steps(&self) -> Seq<Step> {
        self.steps@
    }

    pub closed spec fn outcomes(&self) -> Seq<bool> {
        self.outcomes@
    }

    pub open spec fn wf(&self) -> bool {
        self.outcomes().len() <= self.steps().len()
    }

    /// A run of `action` before its first step.
    pub fn start(action: Action) -> (r: Run)
        ensures
            r.wf(),
            r.steps() == plan_spec(action),
            r.outcomes() == Seq::<bool>::empty(),
    {
        Run { steps: plan(action), outcomes: Vec::new() }
    }

    /// The step to run now, or `None` once every step has run.
    pub fn next_step(&self) -> (r: Option<Step>)
        requires
            self.wf(),
        ensures
            r == next_of(self.steps(), self.outcomes()),
    {
        if self.outcomes.len() < self.steps.len() {
            Some(self.steps[self.outcomes.len()])
        } else {
            None
        }
    }

    /// Records how the current step ended; the next step is due either way.
    pub fn record(&mut self, succeeded: bool)
        requires
            old(self).wf(),
            old(self).outcomes().len() < old(self).steps().len(),
        ensures
            final(self).wf(),
            final(self).steps() == old(self).steps(),
            final(self).outcomes() == old(self).outcomes().push(succeeded),
    {
        self.outcomes.push(succeeded);
    }

    /// How many of the finished steps failed.
    pub fn failures(&self) -> (r: usize)
        ensures
            r == self.outcomes().filter(|ok: bool| !ok).len(),
    {
        let ghost all = self.outcomes@;
        let mut n: usize = 0;
        let mut i: usize = 0;
        while i < self.outcomes.len()
            invariant
                i <= self.outcomes.len(),
                all == self.outcomes@,
                n == all.take(i as int).filter(|ok: bool| !ok).len(),
                n <= i,
            decreases self.outcomes.len() - i,
        {
            proof {
                assert(all.take(i + 1) =~= all.take(i as int).push(all[i as int]));
                all.take(i as int).lemma_filter_push(all[i as int], |ok: bool| !ok);
            }
            if !self.outcomes[i] {
                n = n + 1;
            }
            i = i + 1;
        }
        assert(all.take(i as int) =~= all);
        n
    }
}

/// Every step of the full run is reached whatever the earlier steps
/// reported: after any `k` recorded outcomes, successes or failures, the
/// next step is the `k`-th of the plan, until all six have run.
pub proof fn lemma_all_never_short_circuits(outcomes: Seq<bool>)
    requires
        outcomes.len() <= 6,
    ensures
        plan_spec(Action::All).len() == 6,
        outcomes.len() < 6 ==> next_of(plan_spec(Action::All), outcomes) == Some(
            plan_spec(Action::All)[outcomes.len() as int],
        ),
        outcomes.len() == 6 ==> next_of(plan_spec(Action::All), outcomes) is None,
        forall|other: Seq<bool>|
            other.len() == outcomes.len() ==> next_of(plan_spec(Action::All), other) == next_of(
                plan_spec(Action::All),
                outcomes,
            ),
{
}

/// Checks the fetch timeout: a timeout of zero leaves no time for any fetch.
pub fn fetch_timeout(timeout_secs: u64) -> (r: Result<u64, EtlError>)
    ensures
        timeout_secs == 0 <==> r == Err::<u64, EtlError>(EtlError::ZeroTimeout),
        timeout_secs > 0 ==> r == Ok::<u64, EtlError>(timeout_secs),
{
    if timeout_secs == 0 {
        Err(EtlError::ZeroTimeout)
    } else {
        Ok(timeout_secs)
    }
}

/// Accepts a response whose status is a success (2xx) and refuses any other.
pub fn check_status(status: u16) -> (r: Result<(), EtlError>)
    ensures
        200 <= status <= 299 ==> r == Ok::<(), EtlError>(()),
        !(200 <= status <= 299) ==> r == Err::<(), EtlError>(EtlError::HttpStatus(status)),
{
    if 200 <= status && status <= 299 {
        Ok(())
    } else {
        Err(EtlError::HttpStatus(status))
    }
}

} // verus!
