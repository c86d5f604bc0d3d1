//! Scoped accounting for a host-owned evaluator case: the case may reserve, dispatch,
//! settle and release provider calls only against its own allocation of its run.

use vstd::prelude::*;
use std::sync::atomic::AtomicBool;
use crate::accounting::opt_ref_view;
use crate::contracts::{
    Budget, BudgetStatus, ExperimentStudyObjective, LearningCost, Mode, Permit, PermitRequest, Usage, Variant,
    VersionRef,
};
use crate::decimal::{counter, decimal_value, is_counter};
use crate::error::{Error, Result, DENIED, EXHAUSTED, INVALID, MISSING};
use crate::store::Store;

verus! {

/// Accounting handed to an evaluator for one case. The evaluator cannot supply this
/// object or choose another case's allocation.
pub struct EvaluationAccount<'a> {
    run_id: String,
    allocation_id: String,
    cancellation: &'a AtomicBool,
}

/// A cancelled experiment may not start provider work.
pub fn cancellation_check(cancelled: bool) -> (r: Result<()>)
    ensures
        cancelled ==> (r matches Err(e) && e.code == DENIED),
        !cancelled ==> r is Ok,
{
    if cancelled {
        return Err(Error::denied("experiment cancelled"));
    }
    Ok(())
}

impl<'a> EvaluationAccount<'a> {
    /// The run whose allocation the case draws on.
    pub closed spec fn run(&self) -> Seq<char> {
        self.run_id@
    }

    /// The allocation of the case.
    pub closed spec fn allocation(&self) -> Seq<char> {
        self.allocation_id@
    }

    pub fn new(run_id: String, allocation_id: String, cancellation: &'a AtomicBool) -> (r: Self)
        ensures
            r.run() == run_id@,
            r.allocation() == allocation_id@,
    {
        EvaluationAccount { run_id, allocation_id, cancellation }
    }

    /// Whether the experiment was cancelled, as the flag reads now.
    fn cancelled(&self) -> bool {
        self.cancellation.load(std::sync::atomic::Ordering::SeqCst)
    }

    /// Refuses once the experiment was cancelled; the flag is read at the call.
    pub fn require_not_cancelled(&self) -> (r: Result<()>)
        ensures
            r matches Err(e) ==> e.code == DENIED,
    {
        cancellation_check(self.cancelled())
    }

    /// The permit belongs to this case: same run and same allocation.
    pub open spec fn owns_spec(&self, store: Store, permit: Seq<char>) -> bool {
        exists|i: int|
            0 <= i < store.permits@.len() && #[trigger] store.permits@[i].id@ == permit
                && store.permits@[i].run_id@ == self.run()
                && store.permits@[i].allocation_id@ == self.allocation()
    }

    fn owns(&self, store: &Store, permit: &String) -> (r: Result<()>)
        requires
            store.wf(),
        ensures
            self.owns_spec(*store, permit@) ==> r is Ok,
            !self.owns_spec(*store, permit@) ==> (r matches Err(e) && e.code == DENIED),
    {
        let mut i: usize = 0;
        while i < store.permits.len()
            invariant
                0 <= i <= store.permits@.len(),
                forall|j: int|
                    0 <= j < i ==> !(#[trigger] store.permits@[j].id@ == permit@
                        && store.permits@[j].run_id@ == self.run()
                        && store.permits@[j].allocation_id@ == self.allocation()),
            decreases store.permits@.len() - i,
        {
            let p = &store.permits[i];
            if p.id == *permit && p.run_id == self.run_id && p.allocation_id == self.allocation_id {
                return Ok(());
            }
            i = i + 1;
        }
        Err(Error::denied("permit belongs to another evaluation"))
    }

    /// Reserves a provider call for this case, given whether the experiment was
    /// cancelled. Metered evaluators must name their provider call.
    pub fn permit_when(&self, store: &mut Store, cancelled: bool, request: &PermitRequest) -> (r: Result<Permit>)
        requires
            old(store).wf(),
        ensures
            cancelled ==> (r matches Err(e) && e.code == DENIED && Store::same(*final(store), *old(store))),
            !cancelled && request.call_id is None ==> (r matches Err(e) && e.code == INVALID
                && Store::same(*final(store), *old(store))),
            !cancelled && request.call_id is Some ==> exists|now: nat, id: Seq<char>|
                #[trigger] Store::permit_post(*old(store), *final(store), self.run(), *request,
                    Some(self.allocation()), now, id, r),
    {
        cancellation_check(cancelled)?;
        if request.call_id.is_none() {
            return Err(Error::invalid("metered evaluators require a stable provider call ID"));
        }
        let r = store.permit_in_allocation(&self.run_id, request, Some(&self.allocation_id));
        proof {
            let (now, id) = choose|now: nat, id: Seq<char>|
                #[trigger] Store::permit_post(*old(store), *store, self.run_id@, *request,
                    opt_ref_view(Some(&self.allocation_id)), now, id, r);
            assert(opt_ref_view(Some(&self.allocation_id)) == Some(self.allocation()));
            assert(Store::permit_post(*old(store), *store, self.run(), *request, Some(self.allocation()), now, id, r));
        }
        r
    }

    /// Reserves a provider call for this case unless the experiment was cancelled.
    pub fn permit(&self, store: &mut Store, request: &PermitRequest) -> (r: Result<Permit>)
        requires
            old(store).wf(),
        ensures
            (r matches Err(e) && e.code == DENIED && Store::same(*final(store), *old(store)))
            || (request.call_id is None && (r matches Err(e) && e.code == INVALID
                && Store::same(*final(store), *old(store))))
            || (request.call_id is Some && exists|now: nat, id: Seq<char>|
                #[trigger] Store::permit_post(*old(store), *final(store), self.run(), *request,
                    Some(self.allocation()), now, id, r)),
    {
        let cancelled = self.cancelled();
        self.permit_when(store, cancelled, request)
    }

    /// Marks a permit of this case dispatched, given whether the experiment was cancelled.
    pub fn dispatch_when(&self, store: &mut Store, cancelled: bool, permit: &Permit) -> (r: Result<()>)
        requires
            old(store).wf(),
        ensures
            final(store).wf(),
            cancelled || !self.owns_spec(*old(store), permit.id@) ==> (r matches Err(e) && e.code == DENIED
                && Store::same(*final(store), *old(store))),
            !cancelled && self.owns_spec(*old(store), permit.id@) ==> exists|now: u64|
                #[trigger] Store::dispatch_post(*old(store), *final(store), self.run(), permit.id@, now, r),
    {
        cancellation_check(cancelled)?;
        self.owns(store, &permit.id)?;
        store.dispatch_permit(&self.run_id, &permit.id)
    }

    /// Marks a permit of this case dispatched unless the experiment was cancelled.
    pub fn dispatch(&self, store: &mut Store, permit: &Permit) -> (r: Result<()>)
        requires
            old(store).wf(),
        ensures
            final(store).wf(),
            !self.owns_spec(*old(store), permit.id@) ==> (r matches Err(e) && e.code == DENIED
                && Store::same(*final(store), *old(store))),
            (r matches Err(e) && e.code == DENIED && Store::same(*final(store), *old(store)))
            || exists|now: u64|
                #[trigger] Store::dispatch_post(*old(store), *final(store), self.run(), permit.id@, now, r),
    {
        let cancelled = self.cancelled();
        self.dispatch_when(store, cancelled, permit)
    }

    /// Records usage for a permit of this case.
    pub fn usage(&self, store: &mut Store, usage: &Usage) -> (r: Result<()>)
        requires
            old(store).wf(),
        ensures
            final(store).wf(),
            !self.owns_spec(*old(store), usage.permit_id@) ==> (r matches Err(e) && e.code == DENIED
                && Store::same(*final(store), *old(store))),
            self.owns_spec(*old(store), usage.permit_id@) ==> exists|now: u64|
                #[trigger] Store::usage_post(*old(store), *final(store), self.run(), *usage, now, r),
    {
        self.owns(store, &usage.permit_id)?;
        store.usage(&self.run_id, usage)
    }

    /// Releases an undispatched permit of this case.
    pub fn release(&self, store: &mut Store, permit: &Permit) -> (r: Result<()>)
        requires
            old(store).wf(),
        ensures
            final(store).wf(),
            !self.owns_spec(*old(store), permit.id@) ==> (r matches Err(e) && e.code == DENIED
                && Store::same(*final(store), *old(store))),
            self.owns_spec(*old(store), permit.id@) ==> Store::release_post(*old(store), *final(store), self.run(), permit.id@, r),
    {
        self.owns(store, &permit.id)?;
        store.release_permit(&self.run_id, &permit.id)
    }

    /// The budget status of this case's allocation.
    pub fn status(&self, store: &Store) -> (r: Result<BudgetStatus>)
        requires
            store.wf(),
        ensures
            !store.run_grant_known(self.run()) ==> (r matches Err(e) && e.code == MISSING),
            store.run_grant_known(self.run()) ==> {
                let g = store.run_at(self.run()).grant_id@;
                &&& r is Ok <==> store.status_available(g, self.allocation())
                &&& r matches Ok(s) ==> store.is_budget_status(self.allocation(), s)
                &&& r matches Err(e) ==> e.code == store.status_error(g, self.allocation())
            },
    {
        let grant = store.run_grant(&self.run_id)?;
        store.budget_status(grant, &self.allocation_id)
    }
}

/// The part of an experiment that decides whether it may run: its arms, its budget,
/// the repetitions it asks for, its study objective and learning cost, and whether its
/// selection was frozen.
#[derive(Debug)]
pub struct ExperimentDesign {
    pub candidate: VersionRef,
    pub baseline: VersionRef,
    pub variants: Vec<Variant>,
    pub repetitions: u32,
    pub budget: Budget,
    pub selection_frozen: bool,
    pub study_objective: Option<ExperimentStudyObjective>,
    pub learning_cost: Option<LearningCost>,
}

/// What the host's registered evaluation policy fixes for an experiment: the context,
/// the repetitions, the most evaluations, the study objective and the learning cost.
#[derive(Debug)]
pub struct PolicyTerms {
    pub context: String,
    pub repetitions: u32,
    pub max_evaluations: u32,
    pub study_objective: Option<ExperimentStudyObjective>,
    pub learning_cost: Option<LearningCost>,
}

/// The most evaluations one study may run.
pub const MAX_STUDY_EVALUATIONS: u64 = 1000;

pub open spec fn same_learning_cost(a: Option<LearningCost>, b: Option<LearningCost>) -> bool {
    match (a, b) {
        (Some(x), Some(y)) => x.cost_microusd@ == y.cost_microusd@ && x.reuse_count == y.reuse_count
            && x.complete == y.complete,
        (None, None) => true,
        _ => false,
    }
}

/// The name of arm `i` of an experiment: the baseline, the candidate, then its other
/// variants.
pub open spec fn arm_name(d: ExperimentDesign, i: int) -> Seq<char> {
    if i == 0 { "baseline"@ } else if i == 1 { "candidate"@ } else { d.variants@[i - 2].arm@ }
}

/// How many arms the experiment has.
pub open spec fn arm_count(d: ExperimentDesign) -> nat {
    d.variants@.len() + 2
}

/// No two arms of the experiment share a name.
pub open spec fn distinct_arms(d: ExperimentDesign) -> bool {
    forall|i: int, j: int| 0 <= i < j < arm_count(d) ==> #[trigger] arm_name(d, i) != #[trigger] arm_name(d, j)
}

/// The arms of an experiment: the baseline, the candidate, then its other variants.
pub open spec fn are_arms(v: Seq<Variant>, d: ExperimentDesign) -> bool {
    &&& v.len() == arm_count(d)
    &&& v[0].arm@ == "baseline"@ && v[0].implementation == d.baseline
    &&& v[1].arm@ == "candidate"@ && v[1].implementation == d.candidate
    &&& forall|k: int| 0 <= k < d.variants@.len() ==> v[k + 2] == #[trigger] d.variants@[k]
}

/// Why an experiment's budget does not fit the grant's, if it does not, checking the
/// ceilings in turn: the deadline, calls, tokens, cost, actions, work items and depth. A
/// deadline, token or cost ceiling that is not a counter is invalid where it is read.
pub open spec fn budget_excess(e: Budget, g: Budget) -> Option<i32> {
    if !is_counter(e.deadline_ms@) || !is_counter(g.deadline_ms@) {
        Some(INVALID)
    } else if decimal_value(e.deadline_ms@) > decimal_value(g.deadline_ms@) || e.max_calls > g.max_calls {
        Some(DENIED)
    } else if !is_counter(e.max_tokens@) || !is_counter(g.max_tokens@) {
        Some(INVALID)
    } else if decimal_value(e.max_tokens@) > decimal_value(g.max_tokens@) {
        Some(DENIED)
    } else if !is_counter(e.max_cost_microusd@) || !is_counter(g.max_cost_microusd@) {
        Some(INVALID)
    } else if decimal_value(e.max_cost_microusd@) > decimal_value(g.max_cost_microusd@)
        || e.max_actions > g.max_actions || e.max_work_items > g.max_work_items || e.max_depth > g.max_depth {
        Some(DENIED)
    } else {
        None
    }
}

impl Store {
    /// Why run `run` may not start the experiment, if it may not, with `policy` the
    /// registered policy it names (if any) and `cases` the number of study cases: the
    /// run must be active under a grant that may act, the selection frozen, the policy
    /// registered with the grant's context and the experiment's repetitions, objective
    /// and learning cost, the arms distinct, the evaluations within the policy and the
    /// study limit, and the budget within the grant's.
    pub open spec fn preflight_failure(self, run: Seq<char>, d: ExperimentDesign, policy: Option<PolicyTerms>, cases: nat) -> Option<i32> {
        let grant = self.grant_at(self.run_at(run).grant_id@);
        let n = arm_count(d);
        if !self.run_active(run) {
            Some(if !self.run_grant_known(run) { MISSING } else { DENIED })
        } else if grant.mode == Mode::Observe || !d.selection_frozen || policy is None {
            Some(DENIED)
        } else if policy->0.context@ != grant.context@ || policy->0.repetitions != d.repetitions
            || policy->0.study_objective != d.study_objective || !same_learning_cost(policy->0.learning_cost, d.learning_cost) {
            Some(DENIED)
        } else if !distinct_arms(d) {
            Some(INVALID)
        } else if n * cases * d.repetitions > policy->0.max_evaluations
            || n * cases * d.repetitions > MAX_STUDY_EVALUATIONS {
            Some(EXHAUSTED)
        } else {
            budget_excess(d.budget, grant.budget)
        }
    }
}

fn learning_cost_eq(a: &Option<LearningCost>, b: &Option<LearningCost>) -> (r: bool)
    ensures
        r == same_learning_cost(*a, *b),
{
    match (a, b) {
        (Some(x), Some(y)) => x.cost_microusd == y.cost_microusd && x.reuse_count == y.reuse_count && x.complete == y.complete,
        (None, None) => true,
        _ => false,
    }
}

fn objective_eq(a: &Option<ExperimentStudyObjective>, b: &Option<ExperimentStudyObjective>) -> (r: bool)
    ensures
        r == (*a == *b),
{
    match (a, b) {
        (Some(x), Some(y)) => *x == *y,
        (None, None) => true,
        _ => false,
    }
}

/// Why the experiment's budget does not fit the grant's, if it does not.
fn check_budget(e: &Budget, g: &Budget) -> (r: Result<()>)
    ensures
        match budget_excess(*e, *g) {
            Some(code) => r matches Err(x) && x.code == code,
            None => r is Ok,
        },
{
    let exceeded = counter(e.deadline_ms.as_str())? > counter(g.deadline_ms.as_str())?
        || e.max_calls > g.max_calls;
    if !exceeded {
        let tokens = counter(e.max_tokens.as_str())? > counter(g.max_tokens.as_str())?;
        if !tokens {
            let cost = counter(e.max_cost_microusd.as_str())? > counter(g.max_cost_microusd.as_str())?;
            if !(cost || e.max_actions > g.max_actions || e.max_work_items > g.max_work_items || e.max_depth > g.max_depth) {
                return Ok(());
            }
        }
    }
    Err(Error::denied("experiment budget exceeds grant"))
}

impl Store {
    /// Checks run `run` may start the experiment before any case runs, as
    /// `Store::preflight_failure` decides, and gives its arms: the baseline, the
    /// candidate, then its other variants.
    pub fn experiment_preflight(&self, run: &String, design: &ExperimentDesign, policy: Option<&PolicyTerms>, cases: usize)
        -> (r: Result<Vec<Variant>>)
        requires
            self.wf(),
        ensures
            match self.preflight_failure(run@, *design, match policy { Some(p) => Some(*p), None => None }, cases as nat) {
                Some(code) => r matches Err(e) && e.code == code,
                None => r matches Ok(arms) && are_arms(arms@, *design),
            },
    {
        let grant = self.require_active(run)?;
        if grant.mode == Mode::Observe {
            return Err(Error::denied("evaluator execution requires sandbox or apply mode"));
        }
        if !design.selection_frozen {
            return Err(Error::denied("freeze selection before evaluation"));
        }
        let terms = match policy {
            Some(p) => p,
            None => return Err(Error::denied("no registered evaluation policy")),
        };
        if terms.context != grant.context || terms.repetitions != design.repetitions {
            return Err(Error::denied("experiment changes fixed context or repetitions"));
        }
        if !objective_eq(&terms.study_objective, &design.study_objective)
            || !learning_cost_eq(&terms.learning_cost, &design.learning_cost) {
            return Err(Error::denied("study objective or learning cost differs from the host policy"));
        }
        proof {
            reveal_strlit("baseline");
            reveal_strlit("candidate");
            assert("baseline"@ != "candidate"@) by {
                assert("baseline"@[0] != "candidate"@[0]);
            }
        }
        let ghost popt = match policy { Some(p) => Some(*p), None => None::<PolicyTerms> };
        assert(!distinct_arms(*design) ==> self.preflight_failure(run@, *design, popt, cases as nat) == Some(INVALID));
        let mut variants: Vec<Variant> = Vec::new();
        variants.push(Variant { arm: "baseline".to_owned(), implementation: design.baseline.clone() });
        variants.push(Variant { arm: "candidate".to_owned(), implementation: design.candidate.clone() });
        let mut k: usize = 0;
        while k < design.variants.len()
            invariant
                0 <= k <= design.variants@.len(),
                !distinct_arms(*design) ==> self.preflight_failure(run@, *design, popt, cases as nat) == Some(INVALID),
                popt == match policy { Some(p) => Some(*p), None => None::<PolicyTerms> },
                variants@.len() == k + 2,
                variants@[0].arm@ == "baseline"@ && variants@[0].implementation == design.baseline,
                variants@[1].arm@ == "candidate"@ && variants@[1].implementation == design.candidate,
                forall|q: int| 0 <= q < k ==> variants@[q + 2] == #[trigger] design.variants@[q],
                forall|q: int| 0 <= q < k + 2 ==> #[trigger] variants@[q].arm@ == arm_name(*design, q),
                forall|a: int, b: int| 0 <= a < b < k + 2 ==> #[trigger] arm_name(*design, a) != #[trigger] arm_name(*design, b),
            decreases design.variants@.len() - k,
        {
            let v = &design.variants[k];
            let mut j: usize = 0;
            while j < variants.len()
                invariant
                    0 <= j <= variants@.len(),
                    !distinct_arms(*design) ==> self.preflight_failure(run@, *design, popt, cases as nat) == Some(INVALID),
                    popt == match policy { Some(p) => Some(*p), None => None::<PolicyTerms> },
                    variants@.len() == k + 2,
                    0 <= k < design.variants@.len(),
                    *v == design.variants@[k as int],
                    forall|q: int| 0 <= q < k + 2 ==> #[trigger] variants@[q].arm@ == arm_name(*design, q),
                    forall|q: int| 0 <= q < j ==> #[trigger] arm_name(*design, q) != arm_name(*design, k + 2),
                decreases variants@.len() - j,
            {
                if variants[j].arm == v.arm {
                    assert(!distinct_arms(*design)) by {
                        assert(arm_name(*design, j as int) == arm_name(*design, k + 2));
                    }
                    return Err(Error::invalid("duplicate experiment arm"));
                }
                assert(variants@[j as int].arm@ == arm_name(*design, j as int));
                j = j + 1;
            }
            variants.push(v.clone());
            k = k + 1;
        }
        assert(distinct_arms(*design));
        let ghost n = arm_count(*design);
        let len = variants.len() as u128;
        let per_arm = cases as u128;
        let reps = design.repetitions as u128;
        let ghost total = n * cases * design.repetitions;
        assert(len == n);
        let exceeded = if reps == 0 || per_arm == 0 {
            proof {
                assert(total == 0) by (nonlinear_arith)
                    requires total == n * cases * design.repetitions, design.repetitions == 0 || cases == 0;
            }
            false
        } else {
            assert(len * per_arm <= 0xffff_ffff_ffff_ffffu128 * 0xffff_ffff_ffff_ffffu128) by (nonlinear_arith)
                requires len <= 0xffff_ffff_ffff_ffffu128, per_arm <= 0xffff_ffff_ffff_ffffu128;
            let pairs = len * per_arm;
            if pairs > MAX_STUDY_EVALUATIONS as u128 {
                proof {
                    assert(total > MAX_STUDY_EVALUATIONS) by (nonlinear_arith)
                        requires total == n * cases * design.repetitions, design.repetitions >= 1,
                            n * cases == pairs, pairs > MAX_STUDY_EVALUATIONS;
                }
                true
            } else {
                assert(pairs * reps <= 1000 * 0xffff_ffffu128) by (nonlinear_arith)
                    requires pairs <= 1000, reps <= 0xffff_ffffu128;
                let t = pairs * reps;
                assert(t == total) by (nonlinear_arith)
                    requires t == pairs * reps, pairs == n * cases, reps == design.repetitions,
                        total == n * cases * design.repetitions;
                t > terms.max_evaluations as u128 || t > MAX_STUDY_EVALUATIONS as u128
            }
        };
        if exceeded {
            return Err(Error::exhausted("study evaluation budget exceeded"));
        }
        check_budget(&design.budget, &grant.budget)?;
        Ok(variants)
    }
}

} // verus!
