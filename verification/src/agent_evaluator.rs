//! What an agent evaluation derives from its owner before a case runs: the share of the
//! case budget each stage may draw on, and the sandbox grant the subject runs under.

use vstd::prelude::*;
use crate::compare::{same_grant, texts};
use crate::contracts::{Budget, Grant, Mode, Profile, Split};
use crate::decimal::{counter, decimal_repr, decimal_string, decimal_value, is_counter};
use crate::error::{Result, INVALID};
use crate::parking::clone_ids;

verus! {

/// The share of `budget` each of `stages` stages draws on: calls, actions, tokens and
/// cost divided evenly, rounding down; work items, depth and deadline unchanged.
pub open spec fn is_stage_budget(b: Budget, budget: Budget, stages: nat) -> bool {
    &&& b.max_calls as nat == budget.max_calls as nat / stages
    &&& b.max_actions as nat == budget.max_actions as nat / stages
    &&& b.max_tokens@ == decimal_repr(decimal_value(budget.max_tokens@) / stages)
    &&& b.max_cost_microusd@ == decimal_repr(decimal_value(budget.max_cost_microusd@) / stages)
    &&& b.max_work_items == budget.max_work_items
    &&& b.max_depth == budget.max_depth
    &&& b.deadline_ms == budget.deadline_ms
}

/// The budget of one of `stages` stages of a case whose budget is `budget`. Token and
/// cost ceilings that are not counters are invalid.
pub fn stage_budget(budget: &Budget, stages: u32) -> (r: Result<Budget>)
    requires
        stages > 0,
    ensures
        !is_counter(budget.max_tokens@) ==> (r matches Err(e) && e.code == INVALID),
        is_counter(budget.max_tokens@) && !is_counter(budget.max_cost_microusd@) ==> (r matches Err(e) && e.code == INVALID),
        is_counter(budget.max_tokens@) && is_counter(budget.max_cost_microusd@)
            ==> (r matches Ok(b) && is_stage_budget(b, *budget, stages as nat)),
{
    let tokens = counter(budget.max_tokens.as_str())?;
    let cost = counter(budget.max_cost_microusd.as_str())?;
    let mut b = budget.clone();
    b.max_calls = budget.max_calls / stages;
    b.max_actions = budget.max_actions / stages;
    b.max_tokens = decimal_string(tokens / stages as u64);
    b.max_cost_microusd = decimal_string(cost / stages as u64);
    Ok(b)
}

/// The splits a sandbox may see: those of its owner but the holdout.
pub open spec fn without_holdout(splits: Seq<Split>) -> Seq<Split> {
    splits.filter(|s: Split| s != Split::Holdout)
}

/// The grant a subject runs under: the owner's, in sandbox mode, under identifier `id`
/// and the project `namespace`, limited to the task's paths, writable paths and tools,
/// with the case budget, only the caretaker profile, no export, no prepared run or
/// discovery corpus, and none of the holdout split.
pub fn sandbox_grant(owner: &Grant, id: String, namespace: String, paths: &Vec<String>, writable: &Vec<String>,
    tools: &Vec<String>, budget: &Budget) -> (r: Grant)
    ensures
        r.id@ == id@,
        r.scope.client@ == owner.scope.client@,
        r.scope.project@ == namespace@,
        r.mode == Mode::Sandbox,
        texts(r.paths@) == texts(paths@),
        r.writable_paths matches Some(w) && texts(w@) == texts(writable@),
        texts(r.tools@) == texts(tools@),
        r.profiles@ == seq![Profile::Caretaker],
        r.budget == *budget,
        r.context@ == owner.context@,
        r.visible_splits@ == without_holdout(owner.visible_splits@),
        !r.allow_export,
        crate::compare::opt_texts(r.required_checks) == crate::compare::opt_texts(owner.required_checks),
        r.discovery_corpus is None,
        r.prepared_run is None,
{
    let mut grant = owner.clone();
    grant.id = id;
    grant.scope.project = namespace;
    grant.mode = Mode::Sandbox;
    grant.paths = clone_ids(paths);
    grant.writable_paths = Some(clone_ids(writable));
    grant.tools = clone_ids(tools);
    grant.profiles = vec![Profile::Caretaker];
    grant.budget = budget.clone();
    grant.allow_export = false;
    grant.prepared_run = None;
    grant.discovery_corpus = None;
    let mut splits: Vec<Split> = Vec::new();
    let mut i: usize = 0;
    while i < owner.visible_splits.len()
        invariant
            0 <= i <= owner.visible_splits@.len(),
            splits@ == without_holdout(owner.visible_splits@.subrange(0, i as int)),
        decreases owner.visible_splits@.len() - i,
    {
        proof {
            reveal(Seq::filter);
            assert(owner.visible_splits@.subrange(0, i + 1).drop_last() =~= owner.visible_splits@.subrange(0, i as int));
        }
        let s = owner.visible_splits[i];
        if s != Split::Holdout {
            splits.push(s);
        }
        i = i + 1;
    }
    assert(owner.visible_splits@.subrange(0, owner.visible_splits@.len() as int) =~= owner.visible_splits@);
    grant.visible_splits = splits;
    assert(texts(grant.paths@) =~= texts(paths@));
    assert(texts(grant.tools@) =~= texts(tools@));
    grant
}

/// The grant whose serialization, hashed, is the owner's checker policy version: the
/// grant as stored, without the run-local delivery selection.
pub fn policy_grant(grant: &Grant) -> (r: Grant)
    ensures
        same_grant(r, Grant { prepared_run: None, ..*grant }),
{
    let mut policy = grant.clone();
    policy.prepared_run = None;
    policy
}

} // verus!
