//! Field-wise comparison of records, as the ledger compares stored identities.

use vstd::prelude::*;
use crate::contracts::{Budget, BudgetAllocation, Grant, PermitRequest, Usage, VersionRef};

verus! {

pub open spec fn texts(v: Seq<String>) -> Seq<Seq<char>> {
    v.map_values(|s: String| s@)
}

pub open spec fn opt_texts(v: Option<Vec<String>>) -> Option<Seq<Seq<char>>> {
    match v {
        Some(v) => Some(texts(v@)),
        None => None,
    }
}

pub open spec fn opt_text(o: Option<String>) -> Option<Seq<char>> {
    match o {
        Some(s) => Some(s@),
        None => None,
    }
}

pub open spec fn same_version_ref(a: VersionRef, b: VersionRef) -> bool {
    a.id@ == b.id@ && a.version@ == b.version@
}

pub open spec fn same_budget(a: Budget, b: Budget) -> bool {
    &&& a.max_calls == b.max_calls
    &&& a.max_tokens@ == b.max_tokens@
    &&& a.max_cost_microusd@ == b.max_cost_microusd@
    &&& a.max_actions == b.max_actions
    &&& a.max_work_items == b.max_work_items
    &&& a.max_depth == b.max_depth
    &&& a.deadline_ms@ == b.deadline_ms@
}

/// Two grants state the same policy.
pub open spec fn same_grant(a: Grant, b: Grant) -> bool {
    &&& a.id@ == b.id@
    &&& a.scope.client@ == b.scope.client@
    &&& a.scope.project@ == b.scope.project@
    &&& a.mode == b.mode
    &&& texts(a.paths@) == texts(b.paths@)
    &&& texts(a.tools@) == texts(b.tools@)
    &&& a.profiles@ == b.profiles@
    &&& same_budget(a.budget, b.budget)
    &&& a.context@ == b.context@
    &&& a.visible_splits@ == b.visible_splits@
    &&& a.allow_export == b.allow_export
    &&& opt_texts(a.required_checks) == opt_texts(b.required_checks)
    &&& opt_texts(a.writable_paths) == opt_texts(b.writable_paths)
    &&& match (a.discovery_corpus, b.discovery_corpus) {
        (Some(x), Some(y)) => same_version_ref(x, y),
        (None, None) => true,
        _ => false,
    }
    &&& opt_text(a.prepared_run) == opt_text(b.prepared_run)
}

/// Two allocations have the same identity and ceilings, whatever their disposition.
pub open spec fn same_allocation_identity(a: BudgetAllocation, b: BudgetAllocation) -> bool {
    &&& a.id@ == b.id@
    &&& a.grant_id@ == b.grant_id@
    &&& opt_text(a.parent_id) == opt_text(b.parent_id)
    &&& a.cause_id@ == b.cause_id@
    &&& a.purpose@ == b.purpose@
    &&& same_budget(a.budget, b.budget)
}

pub open spec fn same_permit_request(a: PermitRequest, b: PermitRequest) -> bool {
    &&& a.max_output_tokens == b.max_output_tokens
    &&& a.input_tokens_bound@ == b.input_tokens_bound@
    &&& a.cost_microusd_bound@ == b.cost_microusd_bound@
    &&& opt_text(a.compaction_id) == opt_text(b.compaction_id)
    &&& opt_text(a.call_id) == opt_text(b.call_id)
}

pub open spec fn same_usage(a: Usage, b: Usage) -> bool {
    &&& a.permit_id@ == b.permit_id@
    &&& a.input_tokens@ == b.input_tokens@
    &&& a.output_tokens@ == b.output_tokens@
    &&& a.cost_microusd@ == b.cost_microusd@
    &&& a.complete == b.complete
}

pub fn opt_text_eq(a: &Option<String>, b: &Option<String>) -> (r: bool)
    ensures
        r == (opt_text(*a) == opt_text(*b)),
{
    match (a, b) {
        (Some(x), Some(y)) => *x == *y,
        (None, None) => true,
        _ => false,
    }
}

pub fn texts_eq(a: &Vec<String>, b: &Vec<String>) -> (r: bool)
    ensures
        r == (texts(a@) == texts(b@)),
{
    if a.len() != b.len() {
        proof {
            assert(texts(a@).len() != texts(b@).len());
        }
        return false;
    }
    let mut i: usize = 0;
    while i < a.len()
        invariant
            a@.len() == b@.len(),
            0 <= i <= a@.len(),
            forall|j: int| 0 <= j < i ==> (#[trigger] a@[j])@ == b@[j]@,
        decreases a@.len() - i,
    {
        if a[i] != b[i] {
            proof {
                assert(texts(a@)[i as int] != texts(b@)[i as int]);
            }
            return false;
        }
        i = i + 1;
    }
    proof {
        assert(texts(a@) =~= texts(b@));
    }
    true
}

pub fn opt_texts_eq(a: &Option<Vec<String>>, b: &Option<Vec<String>>) -> (r: bool)
    ensures
        r == (opt_texts(*a) == opt_texts(*b)),
{
    match (a, b) {
        (Some(x), Some(y)) => texts_eq(x, y),
        (None, None) => true,
        _ => false,
    }
}

pub fn budget_eq(a: &Budget, b: &Budget) -> (r: bool)
    ensures
        r == same_budget(*a, *b),
{
    a.max_calls == b.max_calls && a.max_tokens == b.max_tokens && a.max_cost_microusd
        == b.max_cost_microusd && a.max_actions == b.max_actions && a.max_work_items
        == b.max_work_items && a.max_depth == b.max_depth && a.deadline_ms == b.deadline_ms
}

pub fn grant_eq(a: &Grant, b: &Grant) -> (r: bool)
    ensures
        r == same_grant(*a, *b),
{
    if !(a.id == b.id && a.scope.client == b.scope.client && a.scope.project == b.scope.project
        && a.mode == b.mode && a.context == b.context && a.allow_export == b.allow_export) {
        return false;
    }
    if !(texts_eq(&a.paths, &b.paths) && texts_eq(&a.tools, &b.tools)) {
        return false;
    }
    if a.profiles.len() != b.profiles.len() || a.visible_splits.len() != b.visible_splits.len() {
        return false;
    }
    let mut i: usize = 0;
    while i < a.profiles.len()
        invariant
            a.profiles@.len() == b.profiles@.len(),
            0 <= i <= a.profiles@.len(),
            forall|j: int| 0 <= j < i ==> a.profiles@[j] == b.profiles@[j],
        decreases a.profiles@.len() - i,
    {
        if a.profiles[i] != b.profiles[i] {
            return false;
        }
        i = i + 1;
    }
    assert(a.profiles@ =~= b.profiles@);
    let mut i: usize = 0;
    while i < a.visible_splits.len()
        invariant
            a.visible_splits@.len() == b.visible_splits@.len(),
            0 <= i <= a.visible_splits@.len(),
            forall|j: int| 0 <= j < i ==> a.visible_splits@[j] == b.visible_splits@[j],
        decreases a.visible_splits@.len() - i,
    {
        if a.visible_splits[i] != b.visible_splits[i] {
            return false;
        }
        i = i + 1;
    }
    assert(a.visible_splits@ =~= b.visible_splits@);
    if !budget_eq(&a.budget, &b.budget) {
        return false;
    }
    if !(opt_texts_eq(&a.required_checks, &b.required_checks) && opt_texts_eq(
        &a.writable_paths,
        &b.writable_paths,
    )) {
        return false;
    }
    let corpus = match (&a.discovery_corpus, &b.discovery_corpus) {
        (Some(x), Some(y)) => x.id == y.id && x.version == y.version,
        (None, None) => true,
        _ => false,
    };
    corpus && opt_text_eq(&a.prepared_run, &b.prepared_run)
}

pub fn allocation_identity_eq(a: &BudgetAllocation, b: &BudgetAllocation) -> (r: bool)
    ensures
        r == same_allocation_identity(*a, *b),
{
    a.id == b.id && a.grant_id == b.grant_id && opt_text_eq(&a.parent_id, &b.parent_id)
        && a.cause_id == b.cause_id && a.purpose == b.purpose && budget_eq(&a.budget, &b.budget)
}

pub fn permit_request_eq(a: &PermitRequest, b: &PermitRequest) -> (r: bool)
    ensures
        r == same_permit_request(*a, *b),
{
    a.max_output_tokens == b.max_output_tokens && a.input_tokens_bound == b.input_tokens_bound
        && a.cost_microusd_bound == b.cost_microusd_bound && opt_text_eq(
        &a.compaction_id,
        &b.compaction_id,
    ) && opt_text_eq(&a.call_id, &b.call_id)
}

pub fn usage_eq(a: &Usage, b: &Usage) -> (r: bool)
    ensures
        r == same_usage(*a, *b),
{
    a.permit_id == b.permit_id && a.input_tokens == b.input_tokens && a.output_tokens
        == b.output_tokens && a.cost_microusd == b.cost_microusd && a.complete == b.complete
}

} // verus!
