//! Reading allowances and opening child allocations.

use vstd::prelude::*;
use crate::allocations::{
    allowance_of, ancestry_code, lemma_allocation_at_is_stored, lemma_ancestry_stored,
    lemma_chain_allowance_bounded, min_allowance, open_failure, spells, Allowance, Ancestry,
    MAX_LEVELS, allowance_le,
};
use crate::clock::now_ms;
use crate::compare::{opt_text, same_budget, same_grant, grant_eq, allocation_identity_eq, budget_eq, opt_text_eq};
use crate::contracts::{Budget, BudgetAllocation, BudgetAllocationRequest, BudgetStatus, BudgetUsage, Disposition, Grant, Profile};
use crate::decimal::{counter, decimal_string, decimal_value, lemma_decimal_roundtrip};
use crate::digest::{allocation_id, allocation_id_text};
use crate::error::{Error, Result, CONFLICT, DENIED, INTERNAL, INVALID, MISSING};
use crate::grants::{lemma_allocations_push, lemma_allocations_update};
use crate::store::{budget_valid, cost_of, deadline_of, opt_view, root_allocation_id, tokens_of, RunAllocation, Store};

verus! {

/// A child's ceilings do not exceed its parent's.
pub open spec fn ceilings_hold(child: Budget, parent: Budget) -> bool {
    &&& child.max_calls <= parent.max_calls
    &&& child.max_actions <= parent.max_actions
    &&& child.max_work_items <= parent.max_work_items
    &&& child.max_depth <= parent.max_depth
    &&& tokens_of(child) <= tokens_of(parent)
    &&& cost_of(child) <= cost_of(parent)
    &&& deadline_of(child) <= deadline_of(parent)
}

/// What a child allocation request asks for.
pub struct AllocationAsk {
    pub id: Seq<char>,
    pub parent_id: Seq<char>,
    pub cause_id: Seq<char>,
    pub purpose: Seq<char>,
    pub budget: Budget,
}

pub open spec fn ask_of(req: BudgetAllocationRequest) -> AllocationAsk {
    AllocationAsk {
        id: req.id@,
        parent_id: req.parent_id@,
        cause_id: req.cause_id@,
        purpose: req.purpose@,
        budget: req.budget,
    }
}

/// A stored allocation has the identity and ceilings that a request asks for.
pub open spec fn matches_request(a: BudgetAllocation, grant_id: Seq<char>, req: AllocationAsk) -> bool {
    &&& a.id@ == req.id
    &&& a.grant_id@ == grant_id
    &&& opt_text(a.parent_id) == Some(req.parent_id)
    &&& a.cause_id@ == req.cause_id
    &&& a.purpose@ == req.purpose
    &&& same_budget(a.budget, req.budget)
}

/// The allocation a request creates.
pub open spec fn is_requested(a: BudgetAllocation, grant_id: Seq<char>, req: AllocationAsk) -> bool {
    &&& matches_request(a, grant_id, req)
    &&& a.budget == req.budget
    &&& a.disposition is None
}

impl Store {
    /// Why a child allocation request is refused at time `now`, if it is.
    pub open spec fn allocate_failure(self, grant_id: Seq<char>, req: AllocationAsk, now: nat) -> Option<i32> {
        if !budget_valid(req.budget) {
            Some(INVALID)
        } else if !self.in_grant(grant_id, req.parent_id) {
            Some(MISSING)
        } else if self.has_allocation(req.id) {
            if matches_request(self.allocation_at(req.id), grant_id, req) {
                None
            } else {
                Some(CONFLICT)
            }
        } else {
            match self.ancestry(grant_id, req.parent_id) {
                Ancestry::Chain(c) => match open_failure(c, req.parent_id, now) {
                    Some(code) => Some(code),
                    None => if c.len() >= MAX_LEVELS {
                        Some(INVALID)
                    } else if !ceilings_hold(req.budget, self.allocation_at(req.parent_id).budget) {
                        Some(DENIED)
                    } else {
                        None
                    },
                },
                a => Some(ancestry_code(a)),
            }
        }
    }

    /// The outcome of `allocate_in` at time `now`.
    #[verifier::opaque]
    pub open spec fn allocate_post(
        old: Store,
        new: Store,
        grant_id: Seq<char>,
        req: AllocationAsk,
        now: nat,
        r: Result<BudgetAllocation>,
    ) -> bool {
        &&& new.wf()
        &&& match old.allocate_failure(grant_id, req, now) {
            Some(code) => r matches Err(e) && e.code == code && new == old,
            None => r matches Ok(a) && if old.has_allocation(req.id) {
                // Repeating a request returns the existing allocation and changes nothing.
                a == old.allocation_at(req.id) && new == old
            } else {
                &&& is_requested(a, grant_id, req)
                &&& new.allocations@ == old.allocations@.push(a)
                &&& new.grants == old.grants
                &&& new.runs == old.runs
                &&& new.permits == old.permits
                &&& new.run_allocations == old.run_allocations
                &&& new.effects == old.effects
                &&& new.work == old.work
                &&& new.compactions == old.compactions
                &&& new.attachments == old.attachments
                &&& new.attachment_work == old.attachment_work
                &&& new.feedback == old.feedback
                &&& new.waits == old.waits
                &&& new.contexts == old.contexts && new.validity == old.validity && new.corpora@ == old.corpora@ && new.archive == old.archive
                &&& new.messages == old.messages
                &&& new.events@ == old.events@
            },
        }
    }

    /// The ledger usage of allocation `id`.
    pub open spec fn is_budget_status(self, id: Seq<char>, s: BudgetStatus) -> bool {
        let a = self.allocation_at(id);
        let t = self.totals(id);
        &&& s.allocation == a
        &&& s.usage.model_calls as nat == t.calls
        &&& s.usage.undispatched_calls as nat == t.undispatched
        &&& s.usage.unknown_calls as nat == t.unknown
        &&& s.usage.settled_tokens@ == crate::decimal::decimal_repr(t.settled_tokens)
        &&& s.usage.reserved_tokens@ == crate::decimal::decimal_repr(t.reserved_tokens)
        &&& s.usage.settled_cost_microusd@ == crate::decimal::decimal_repr(t.settled_cost)
        &&& s.usage.reserved_cost_microusd@ == crate::decimal::decimal_repr(t.reserved_cost)
        &&& s.usage.actions as nat == self.actions(id)
        &&& s.usage.work_items as nat == self.work_items(id)
        &&& match self.ancestry(a.grant_id@, id) {
            Ancestry::Chain(c) => spells(s.remaining, self.chain_allowance(c, allowance_of(a.budget))),
            _ => false,
        }
    }

    /// The status of allocation `id` of the grant can be read.
    pub open spec fn status_available(self, grant_id: Seq<char>, id: Seq<char>) -> bool {
        &&& self.in_grant(grant_id, id)
        &&& self.ledger_fits(id)
        &&& match self.ancestry(grant_id, id) {
            Ancestry::Chain(c) => self.chain_failure(c) is None,
            _ => false,
        }
    }

    /// Why the status of allocation `id` cannot be read.
    pub open spec fn status_error(self, grant_id: Seq<char>, id: Seq<char>) -> i32 {
        if !self.in_grant(grant_id, id) {
            MISSING
        } else if !self.ledger_fits(id) {
            INTERNAL
        } else {
            match self.ancestry(grant_id, id) {
                Ancestry::Chain(c) => match self.chain_failure(c) {
                    Some(code) => code,
                    None => 0,
                },
                a => ancestry_code(a),
            }
        }
    }

    /// The allowance left to allocation `id`: its own ceilings, lowered by the remaining
    /// allowance of every owner on its ancestry, itself included.
    pub fn allocation_remaining(&self, grant: &Grant, id: &String) -> (r: Result<Budget>)
        requires
            self.wf(),
        ensures
            match self.ancestry(grant.id@, id@) {
                Ancestry::Chain(c) => match self.chain_failure(c) {
                    None => r matches Ok(b) && spells(b, self.chain_allowance(c, allowance_of(self.allocation_at(id@).budget))),
                    Some(code) => r matches Err(e) && e.code == code,
                },
                a => r matches Err(e) && e.code == ancestry_code(a),
            },
    {
        let start = self.allocation(grant, id)?;
        let chain = self.allocation_ancestry(grant, id)?;
        proof {
            lemma_ancestry_stored(*self, grant.id@, id@);
            lemma_allocation_at_is_stored(*self, id@);
        }
        let ghost c = chain@;
        let mut calls = start.budget.max_calls;
        let mut tokens = match counter(start.budget.max_tokens.as_str()) {
            Ok(v) => v,
            Err(e) => return Err(e),
        };
        let mut cost = match counter(start.budget.max_cost_microusd.as_str()) {
            Ok(v) => v,
            Err(e) => return Err(e),
        };
        let mut actions = start.budget.max_actions;
        let mut work_items = start.budget.max_work_items;
        let mut depth = start.budget.max_depth;
        let mut deadline = match counter(start.budget.deadline_ms.as_str()) {
            Ok(v) => v,
            Err(e) => return Err(e),
        };
        assert(c.subrange(0, c.len() as int) =~= c);
        let mut i: usize = 0;
        while i < chain.len()
            invariant
                self.wf(),
                c == chain@,
                self.ancestry(grant.id@, id@) == Ancestry::Chain(c),
                0 <= i <= c.len(),
                forall|k: int|
                    0 <= k < c.len() ==> {
                        &&& self.has_allocation((#[trigger] c[k]).id@)
                        &&& self.allocation_at(c[k].id@) == c[k]
                        &&& budget_valid(c[k].budget)
                    },
                self.chain_failure(c) == self.chain_failure(c.subrange(i as int, c.len() as int)),
                self.chain_allowance(c, allowance_of(self.allocation_at(id@).budget)) == self.chain_allowance(
                    c.subrange(i as int, c.len() as int),
                    Allowance {
                        calls: calls as nat,
                        tokens: tokens as nat,
                        cost: cost as nat,
                        actions: actions as nat,
                        work_items: work_items as nat,
                        depth: depth as nat,
                        deadline: deadline as nat,
                    },
                ),
            decreases c.len() - i,
        {
            let owner = &chain[i];
            let ghost rest = c.subrange(i as int, c.len() as int);
            assert(rest[0] == c[i as int]);
            assert(rest.drop_first() =~= c.subrange(i + 1, c.len() as int));
            let g = self.grant(&owner.grant_id)?;
            proof {
                let j = choose|j: int| 0 <= j < self.grants@.len() && #[trigger] self.grants@[j].id@ == owner.grant_id@;
                assert(g.id@ == owner.grant_id@);
            }
            let status = self.allocation_ledger_status(g, &owner.id)?;
            let other = &status.remaining;
            proof {
                lemma_decimal_roundtrip(self.ledger_remaining(owner.id@).tokens);
                lemma_decimal_roundtrip(self.ledger_remaining(owner.id@).cost);
            }
            let other_tokens = match counter(other.max_tokens.as_str()) {
                Ok(v) => v,
                Err(e) => return Err(e),
            };
            let other_cost = match counter(other.max_cost_microusd.as_str()) {
                Ok(v) => v,
                Err(e) => return Err(e),
            };
            let other_deadline = match counter(other.deadline_ms.as_str()) {
                Ok(v) => v,
                Err(e) => return Err(e),
            };
            if other.max_calls < calls {
                calls = other.max_calls;
            }
            if other.max_actions < actions {
                actions = other.max_actions;
            }
            if other.max_work_items < work_items {
                work_items = other.max_work_items;
            }
            if other.max_depth < depth {
                depth = other.max_depth;
            }
            if other_tokens < tokens {
                tokens = other_tokens;
            }
            if other_cost < cost {
                cost = other_cost;
            }
            if other_deadline < deadline {
                deadline = other_deadline;
            }
            i = i + 1;
        }
        assert(c.subrange(c.len() as int, c.len() as int) =~= Seq::<BudgetAllocation>::empty());
        Ok(Budget {
            max_calls: calls,
            max_tokens: decimal_string(tokens),
            max_cost_microusd: decimal_string(cost),
            max_actions: actions,
            max_work_items: work_items,
            max_depth: depth,
            deadline_ms: decimal_string(deadline),
        })
    }

    /// The usage of allocation `id`'s subtree and the allowance left to it through
    /// all of its ancestors.
    pub fn budget_status(&self, grant: &Grant, id: &String) -> (r: Result<BudgetStatus>)
        requires
            self.wf(),
        ensures
            r is Ok <==> self.status_available(grant.id@, id@),
            r matches Ok(s) ==> self.is_budget_status(id@, s),
            r matches Err(e) ==> e.code == self.status_error(grant.id@, id@),
    {
        let mut status = self.allocation_ledger_status(grant, id)?;
        status.remaining = self.allocation_remaining(grant, id)?;
        Ok(status)
    }

    /// The root allocation of a stored grant.
    pub fn root_allocation_in(&self, grant: &Grant) -> (r: Result<BudgetAllocation>)
        requires
            self.wf(),
            self.has_grant(grant.id@),
        ensures
            r matches Ok(a) ==> a == self.allocation_at(root_allocation_id(grant.id@))
                && a.id@ == root_allocation_id(grant.id@),
            r is Err ==> self.allocation_at(root_allocation_id(grant.id@)).grant_id@ != grant.id@,
    {
        let id = allocation_id("root", grant.id.as_str());
        proof {
            let i = choose|i: int| 0 <= i < self.grants@.len() && #[trigger] self.grants@[i].id@ == grant.id@;
            lemma_allocation_at_is_stored(*self, root_allocation_id(grant.id@));
        }
        self.allocation(grant, &id)
    }

    /// The budget status of the grant's root allocation, for the holder of the stored grant.
    pub fn root_budget_status(&self, grant: &Grant) -> (r: Result<BudgetStatus>)
        requires
            self.wf(),
        ensures
            !self.has_grant(grant.id@) ==> (r matches Err(e) && e.code == MISSING),
            self.has_grant(grant.id@) && !same_grant(self.grant_at(grant.id@), *grant) ==> (r matches Err(e) && e.code == DENIED),
            self.has_grant(grant.id@) && same_grant(self.grant_at(grant.id@), *grant) ==> {
                let root = root_allocation_id(grant.id@);
                &&& r is Ok <==> self.status_available(grant.id@, root)
                &&& r matches Ok(s) ==> self.is_budget_status(root, s)
                &&& r matches Err(e) ==> e.code == self.status_error(grant.id@, root)
            },
    {
        let stored = self.grant(&grant.id)?;
        if !grant_eq(stored, grant) {
            return Err(Error::denied("budget inspection requires the stored owner grant"));
        }
        proof {
            let i = choose|i: int| 0 <= i < self.grants@.len() && #[trigger] self.grants@[i].id@ == grant.id@;
            lemma_allocation_at_is_stored(*self, root_allocation_id(grant.id@));
        }
        let root = self.root_allocation_in(grant)?;
        self.budget_status(grant, &root.id)
    }

    /// The allocation a run draws on: the one bound to it, else its grant's root.
    pub open spec fn run_allocation_id(self, run: Seq<char>) -> Seq<char> {
        match self.run_allocation_binding(run) {
            Some(a) => a,
            None => root_allocation_id(self.run_at(run).grant_id@),
        }
    }

    pub fn run_allocation_in(&self, run: &String) -> (r: Result<BudgetAllocation>)
        requires
            self.wf(),
        ensures
            r is Ok <==> self.run_grant_known(run@) && self.in_grant(self.run_at(run@).grant_id@, self.run_allocation_id(run@)),
            r matches Ok(a) ==> a == self.allocation_at(self.run_allocation_id(run@)),
            r matches Err(e) ==> e.code == MISSING,
    {
        let grant = self.run_grant(run)?;
        proof {
            let i = choose|i: int| 0 <= i < self.grants@.len() && #[trigger] self.grants@[i].id@ == self.run_at(run@).grant_id@;
            lemma_allocation_at_is_stored(*self, root_allocation_id(grant.id@));
        }
        match self.find_run_allocation(run) {
            Some(i) => self.allocation(grant, &self.run_allocations[i].allocation_id),
            None => self.root_allocation_in(grant),
        }
    }

    /// The budget status of the allocation a run draws on.
    pub fn run_budget_status(&self, run: &String) -> (r: Result<BudgetStatus>)
        requires
            self.wf(),
        ensures
            !(self.run_grant_known(run@) && self.in_grant(self.run_at(run@).grant_id@, self.run_allocation_id(run@))) ==> (r matches Err(e) && e.code == MISSING),
            self.run_grant_known(run@) && self.in_grant(self.run_at(run@).grant_id@, self.run_allocation_id(run@)) ==> {
                let g = self.run_at(run@).grant_id@;
                let a = self.run_allocation_id(run@);
                &&& r is Ok <==> self.status_available(g, a)
                &&& r matches Ok(s) ==> self.is_budget_status(a, s)
                &&& r matches Err(e) ==> e.code == self.status_error(g, a)
            },
    {
        let allocation = self.run_allocation_in(run)?;
        let grant = self.run_grant(run)?;
        proof {
            let i = choose|i: int| 0 <= i < self.grants@.len() && #[trigger] self.grants@[i].id@ == self.run_at(run@).grant_id@;
            lemma_allocation_at_is_stored(*self, self.run_allocation_id(run@));
        }
        self.budget_status(grant, &allocation.id)
    }
}


/// Appending an allocation with a fresh identifier and well-formed ceilings keeps the ledger well formed.
pub proof fn lemma_wf_allocation_push(old: Store, new: Store, a: BudgetAllocation)
    requires
        old.wf(),
        new.allocations@ == old.allocations@.push(a),
        new.grants == old.grants,
        new.runs == old.runs,
        new.run_allocations == old.run_allocations,
        new.permits == old.permits,
        new.compactions == old.compactions,
        new.waits == old.waits,
        new.contexts == old.contexts && new.validity == old.validity && new.corpora@ == old.corpora@ && new.archive == old.archive,
        new.messages == old.messages,
        new.events@ == old.events@,
        new.work == old.work,
        new.attachments == old.attachments,
        new.attachment_work == old.attachment_work,
        new.feedback == old.feedback,
        !old.has_allocation(a.id@),
        budget_valid(a.budget),
    ensures
        new.wf(),
{
    lemma_allocations_push(old, new, a);
    assert forall|i: int|
        0 <= i < new.allocations@.len() implies budget_valid(#[trigger] new.allocations@[i].budget) by {
        if i < old.allocations@.len() {
            assert(new.allocations@[i] == old.allocations@[i]);
        }
    }
    assert forall|i: int| 0 <= i < new.grants@.len() implies {
        let g = #[trigger] new.grants@[i];
        &&& new.has_allocation(root_allocation_id(g.id@))
        &&& new.allocation_at(root_allocation_id(g.id@)).grant_id@ == g.id@
        &&& new.allocation_at(root_allocation_id(g.id@)).parent_id is None
    } by {
        assert(new.grants@[i] == old.grants@[i]);
    }
}

/// Replacing an allocation's disposition keeps the ledger well formed.
pub proof fn lemma_wf_allocation_update(old: Store, new: Store, i: int, a: BudgetAllocation)
    requires
        old.wf(),
        0 <= i < old.allocations@.len(),
        new.allocations@ == old.allocations@.update(i, a),
        new.grants == old.grants,
        new.runs == old.runs,
        new.run_allocations == old.run_allocations,
        new.permits == old.permits,
        new.compactions == old.compactions,
        new.waits == old.waits,
        new.contexts == old.contexts && new.validity == old.validity && new.corpora@ == old.corpora@ && new.archive == old.archive,
        new.messages == old.messages,
        new.events@ == old.events@,
        new.work == old.work,
        new.attachments == old.attachments,
        new.attachment_work == old.attachment_work,
        new.feedback == old.feedback,
        a.id@ == old.allocations@[i].id@,
        a.grant_id@ == old.allocations@[i].grant_id@,
        a.parent_id == old.allocations@[i].parent_id,
        a.budget == old.allocations@[i].budget,
    ensures
        new.wf(),
{
    lemma_allocations_update(old, new, i, a);
    assert forall|k: int|
        0 <= k < new.allocations@.len() implies budget_valid(#[trigger] new.allocations@[k].budget) by {
        if k != i {
            assert(new.allocations@[k] == old.allocations@[k]);
        }
    }
    assert forall|k: int| 0 <= k < new.grants@.len() implies {
        let g = #[trigger] new.grants@[k];
        &&& new.has_allocation(root_allocation_id(g.id@))
        &&& new.allocation_at(root_allocation_id(g.id@)).grant_id@ == g.id@
        &&& new.allocation_at(root_allocation_id(g.id@)).parent_id is None
    } by {
        assert(new.grants@[k] == old.grants@[k]);
        let g = new.grants@[k];
        if root_allocation_id(g.id@) == a.id@ {
            let j = choose|j: int| 0 <= j < old.allocations@.len() && #[trigger] old.allocations@[j].id@ == a.id@;
            if j != i {
                if j < i {
                    assert(old.allocations@[j].id@ != old.allocations@[i].id@);
                } else {
                    assert(old.allocations@[i].id@ != old.allocations@[j].id@);
                }
            }
        }
    }
}

impl Store {
    /// Opens a child allocation of the caller's grant under `request.parent_id`, at time `now_ms`.
    /// A repeated request returns the allocation it created; a request that reuses an
    /// identifier with other ceilings or lineage conflicts. The parent must admit new
    /// dispatch, the tree stays within 64 levels, and no ceiling exceeds the parent's.
    pub fn allocate_in(&mut self, grant: &Grant, request: &BudgetAllocationRequest, now_ms: u64) -> (r: Result<BudgetAllocation>)
        requires
            old(self).wf(),
        ensures
            Store::allocate_post(*old(self), *final(self), grant.id@, ask_of(*request), now_ms as nat, r),
    {
        proof {
            reveal(Store::allocate_post);
        }
        let t = counter(request.budget.max_tokens.as_str());
        let c = counter(request.budget.max_cost_microusd.as_str());
        let d = counter(request.budget.deadline_ms.as_str());
        let (child_tokens, child_cost, child_deadline) = match (t, c, d) {
            (Ok(t), Ok(c), Ok(d)) => (t, c, d),
            _ => return Err(Error::invalid("allocation ceilings must be decimal counters")),
        };
        let parent = self.allocation(grant, &request.parent_id)?;
        proof {
            lemma_allocation_at_is_stored(*self, request.parent_id@);
        }
        if let Some(i) = self.find_allocation(&request.id) {
            let existing = &self.allocations[i];
            let parent_id = Some(parent.id.clone());
            let same = existing.grant_id == grant.id && opt_text_eq(&existing.parent_id, &parent_id)
                && existing.cause_id == request.cause_id && existing.purpose == request.purpose
                && budget_eq(&existing.budget, &request.budget);
            if same {
                return Ok(existing.clone());
            } else {
                return Err(Error::conflict("allocation identity or ceilings changed"));
            }
        }
        let ancestry = self.require_allocation_open(grant, &parent.id, now_ms)?;
        if ancestry.len() >= MAX_LEVELS {
            return Err(Error::invalid("allocation ancestry exceeds 64 levels"));
        }
        let budget = &request.budget;
        let ceiling = &parent.budget;
        let parent_tokens = match counter(ceiling.max_tokens.as_str()) {
            Ok(v) => v,
            Err(e) => return Err(e),
        };
        let parent_cost = match counter(ceiling.max_cost_microusd.as_str()) {
            Ok(v) => v,
            Err(e) => return Err(e),
        };
        let parent_deadline = match counter(ceiling.deadline_ms.as_str()) {
            Ok(v) => v,
            Err(e) => return Err(e),
        };
        if budget.max_calls > ceiling.max_calls || budget.max_actions > ceiling.max_actions
            || budget.max_work_items > ceiling.max_work_items || budget.max_depth > ceiling.max_depth
            || child_tokens > parent_tokens || child_cost > parent_cost || child_deadline > parent_deadline {
            return Err(Error::denied("child allocation exceeds parent ceilings"));
        }
        let allocation = BudgetAllocation {
            id: request.id.clone(),
            grant_id: grant.id.clone(),
            parent_id: Some(parent.id),
            cause_id: request.cause_id.clone(),
            purpose: request.purpose.clone(),
            budget: request.budget.clone(),
            disposition: None,
        };
        let ghost old_store = *self;
        self.allocations.push(allocation.clone());
        proof {
            lemma_wf_allocation_push(old_store, *self, allocation);
        }
        Ok(allocation)
    }

    /// Host-owned allocation creation at time `now_ms`, for the holder of the stored grant.
    pub fn allocate_at(&mut self, grant: &Grant, request: &BudgetAllocationRequest, now_ms: u64) -> (r: Result<BudgetAllocation>)
        requires
            old(self).wf(),
        ensures
            final(self).wf(),
            !old(self).has_grant(grant.id@) ==> (r matches Err(e) && e.code == MISSING && *final(self) == *old(self)),
            old(self).has_grant(grant.id@) && !same_grant(old(self).grant_at(grant.id@), *grant) ==> (r matches Err(e)
                && e.code == DENIED && *final(self) == *old(self)),
            old(self).has_grant(grant.id@) && same_grant(old(self).grant_at(grant.id@), *grant) ==> Store::allocate_post(
                *old(self),
                *final(self),
                grant.id@,
                ask_of(*request),
                now_ms as nat,
                r,
            ),
    {
        proof {
            reveal(Store::allocate_post);
        }
        let stored = self.grant(&grant.id)?;
        if !grant_eq(stored, grant) {
            return Err(Error::denied("allocation requires the stored owner grant"));
        }
        self.allocate_in(grant, request, now_ms)
    }

    /// Host-owned allocation creation, for the holder of the stored grant. Workers cannot
    /// select another scope's funding source through a provider permit payload.
    pub fn allocate(&mut self, grant: &Grant, request: &BudgetAllocationRequest) -> (r: Result<BudgetAllocation>)
        requires
            old(self).wf(),
        ensures
            final(self).wf(),
            !old(self).has_grant(grant.id@) ==> (r matches Err(e) && e.code == MISSING && *final(self) == *old(self)),
            old(self).has_grant(grant.id@) && !same_grant(old(self).grant_at(grant.id@), *grant) ==> (r matches Err(e)
                && e.code == DENIED && *final(self) == *old(self)),
            old(self).has_grant(grant.id@) && same_grant(old(self).grant_at(grant.id@), *grant) ==> exists|now: u64|
                Store::allocate_post(*old(self), *final(self), grant.id@, ask_of(*request), now as nat, r),
    {
        proof {
            reveal(Store::allocate_post);
        }
        let now = now_ms();
        self.allocate_at(grant, request, now)
    }

    /// Records how an allocation finished. A finished allocation admits no new dispatch;
    /// a stopped one (cancelled, exhausted, failed) closes its whole subtree.
    pub fn finish_allocation(&mut self, grant: &Grant, id: &String, disposition: Disposition) -> (r: Result<()>)
        requires
            old(self).wf(),
        ensures
            final(self).wf(),
            !old(self).in_grant(grant.id@, id@) ==> (r matches Err(e) && e.code == MISSING && *final(self) == *old(self)),
            old(self).in_grant(grant.id@, id@) ==> {
                let before = old(self).allocation_at(id@);
                match before.disposition {
                    Some(d) => if d == disposition {
                        r is Ok && *final(self) == *old(self)
                    } else {
                        r matches Err(e) && e.code == CONFLICT && *final(self) == *old(self)
                    },
                    None => {
                        &&& r is Ok
                        &&& final(self).has_allocation(id@)
                        &&& final(self).allocation_at(id@).disposition == Some(disposition)
                        &&& same_allocation_identity_spec(final(self).allocation_at(id@), before)
                        &&& forall|x: Seq<char>| x != id@ ==> #[trigger] final(self).has_allocation(x) == old(self).has_allocation(x)
                            && (old(self).has_allocation(x) ==> final(self).allocation_at(x) == old(self).allocation_at(x))
                        &&& final(self).allocations@.len() == old(self).allocations@.len()
                        &&& final(self).grants@ == old(self).grants@
                        &&& Store::same_but_grants(*final(self), *old(self))
                    },
                }
            },
    {
        let allocation = self.allocation(grant, id)?;
        if let Some(existing) = allocation.disposition {
            if existing == disposition {
                return Ok(());
            } else {
                return Err(Error::conflict("allocation already finished"));
            }
        }
        let i = match self.find_allocation(id) {
            Some(i) => i,
            None => return Err(Error::missing("allocation not found in grant")),
        };
        let mut updated = allocation;
        updated.disposition = Some(disposition);
        let ghost old_store = *self;
        self.allocations.set(i, updated.clone());
        proof {
            lemma_wf_allocation_update(old_store, *self, i as int, updated);
            lemma_allocations_update(old_store, *self, i as int, updated);
        }
        Ok(())
    }
}

/// Identity, lineage and ceilings agree; dispositions may differ.
pub open spec fn same_allocation_identity_spec(a: BudgetAllocation, b: BudgetAllocation) -> bool {
    &&& a.id == b.id
    &&& a.grant_id == b.grant_id
    &&& a.parent_id == b.parent_id
    &&& a.cause_id == b.cause_id
    &&& a.purpose == b.purpose
    &&& a.budget == b.budget
}


/// The name under which a profile is recorded as an allocation's purpose.
pub open spec fn profile_name(p: Profile) -> Seq<char> {
    match p {
        Profile::Caretaker => "caretaker"@,
        Profile::Curator => "curator"@,
        Profile::Experimenter => "experimenter"@,
    }
}

fn profile_text(p: Profile) -> (r: String)
    ensures
        r@ == profile_name(p),
{
    match p {
        Profile::Caretaker => "caretaker".to_owned(),
        Profile::Curator => "curator".to_owned(),
        Profile::Experimenter => "experimenter".to_owned(),
    }
}

/// The allocation a run draws on, opened under `parent` for a run of `profile`.
pub open spec fn run_ask(run: Seq<char>, profile: Profile, parent: BudgetAllocation) -> AllocationAsk {
    AllocationAsk {
        id: allocation_id_text("run"@, run),
        parent_id: parent.id@,
        cause_id: run,
        purpose: profile_name(profile),
        budget: parent.budget,
    }
}

impl Store {
    /// The allocation that scheduled work `run` was queued under, if any.
    pub open spec fn work_allocation(self, run: Seq<char>) -> Option<Seq<char>> {
        if exists|j: int| 0 <= j < self.work@.len() && #[trigger] self.work@[j].item.id@ == run {
            opt_view(self.work@[choose|j: int| 0 <= j < self.work@.len() && #[trigger] self.work@[j].item.id@ == run].allocation_id)
        } else {
            None
        }
    }

    /// The allocation a new run is opened under: the one requested, else the one its
    /// scheduled work was queued under, else the grant's root.
    pub open spec fn bind_parent(self, grant_id: Seq<char>, run: Seq<char>, requested: Option<Seq<char>>) -> Seq<char> {
        match requested {
            Some(p) => p,
            None => match self.work_allocation(run) {
                Some(w) => w,
                None => root_allocation_id(grant_id),
            },
        }
    }

    /// Why a run cannot be bound to a new allocation before one is opened, if it cannot.
    pub open spec fn bind_failure(self, grant_id: Seq<char>, run: Seq<char>, requested: Option<Seq<char>>) -> Option<i32> {
        if !self.in_grant(grant_id, root_allocation_id(grant_id)) {
            Some(MISSING)
        } else if requested is Some && self.work_allocation(run) is Some && requested != self.work_allocation(run) {
            Some(DENIED)
        } else if !self.in_grant(grant_id, self.bind_parent(grant_id, run, requested)) {
            Some(MISSING)
        } else {
            None
        }
    }

    /// The allocation `a` was opened on `old` giving `mid`, and `new` binds run `run` to it.
    pub open spec fn bound_to(old: Store, mid: Store, new: Store, grant_id: Seq<char>, ask: AllocationAsk, now: nat, a: BudgetAllocation, run: Seq<char>) -> bool {
        &&& Store::allocate_post(old, mid, grant_id, ask, now, Ok(a))
        &&& new.run_allocations@.len() == mid.run_allocations@.len() + 1
        &&& new.run_allocations@.drop_last() == mid.run_allocations@
        &&& new.run_allocations@.last().run_id@ == run
        &&& new.run_allocations@.last().allocation_id@ == a.id@
        &&& new.grants@ == mid.grants@
        &&& new.runs@ == mid.runs@
        &&& new.allocations@ == mid.allocations@
        &&& new.permits@ == mid.permits@
        &&& new.effects@ == mid.effects@
        &&& new.work@ == mid.work@
        &&& new.compactions@ == mid.compactions@
        &&& new.attachments@ == mid.attachments@
        &&& new.attachment_work@ == mid.attachment_work@
        &&& new.feedback@ == mid.feedback@
        &&& new.waits@ == mid.waits@
        &&& new.contexts == mid.contexts && new.validity == mid.validity && new.corpora@ == mid.corpora@ && new.archive == mid.archive
        &&& new.messages == mid.messages
        &&& new.events@ == mid.events@
    }

    /// The outcome of binding run `run` of `profile` to its allocation at time `now`.
    /// A run already bound keeps its allocation, which is reopened.
    pub open spec fn bind_post(old: Store, new: Store, grant_id: Seq<char>, run: Seq<char>, profile: Profile,
        requested: Option<Seq<char>>, now: nat, r: Result<()>) -> bool {
        &&& new.wf()
        &&& match old.run_allocation_binding(run) {
            Some(bound) => r is Ok && {
                &&& if old.has_allocation(bound) {
                    new.allocations@ == old.allocations@.update(old.allocation_index(bound),
                        BudgetAllocation { disposition: None, ..old.allocation_at(bound) })
                } else {
                    new.allocations@ == old.allocations@
                }
                &&& new.grants@ == old.grants@
                &&& new.runs@ == old.runs@
                &&& new.run_allocations@ == old.run_allocations@
                &&& new.permits@ == old.permits@
                &&& new.effects@ == old.effects@
                &&& new.work@ == old.work@
                &&& new.compactions@ == old.compactions@
                &&& new.attachments@ == old.attachments@
                &&& new.attachment_work@ == old.attachment_work@
                &&& new.feedback@ == old.feedback@
                &&& new.waits@ == old.waits@
                &&& new.contexts == old.contexts && new.validity == old.validity && new.corpora@ == old.corpora@ && new.archive == old.archive
                &&& new.messages == old.messages
                &&& new.events@ == old.events@
            },
            None => match old.bind_failure(grant_id, run, requested) {
                Some(code) => r matches Err(e) && e.code == code && Store::same(new, old),
                None => {
                    let ask = run_ask(run, profile, old.allocation_at(old.bind_parent(grant_id, run, requested)));
                    match old.allocate_failure(grant_id, ask, now) {
                        Some(code) => r matches Err(e) && e.code == code && Store::same(new, old),
                        None => r is Ok && exists|mid: Store, a: BudgetAllocation|
                            #[trigger] Store::bound_to(old, mid, new, grant_id, ask, now, a, run),
                    }
                },
            },
        }
    }

    pub open spec fn allocation_index(self, id: Seq<char>) -> int {
        choose|i: int| 0 <= i < self.allocations@.len() && #[trigger] self.allocations@[i].id@ == id
    }

    /// The allocation scheduled work `run` was queued under.
    fn work_allocation_exec(&self, run: &String) -> (r: Option<String>)
        requires
            self.wf(),
        ensures
            opt_view(r) == self.work_allocation(run@),
    {
        let mut j: usize = 0;
        while j < self.work.len()
            invariant
                self.wf(),
                0 <= j <= self.work@.len(),
                forall|q: int| 0 <= q < j ==> (#[trigger] self.work@[q]).item.id@ != run@,
            decreases self.work@.len() - j,
        {
            if self.work[j].item.id == *run {
                proof {
                    assert(self.work@[j as int].item.id@ == run@);
                    let c = choose|c: int| 0 <= c < self.work@.len() && #[trigger] self.work@[c].item.id@ == run@;
                    if c != j && c > j {
                        assert(self.work@[j as int].item.id@ != self.work@[c].item.id@);
                    }
                }
                return match &self.work[j].allocation_id {
                    Some(a) => Some(a.clone()),
                    None => None,
                };
            }
            j = j + 1;
        }
        None
    }

    /// Binds run `run_id` of `profile` at time `now_ms` to an allocation of its own,
    /// opened under the requested allocation, else the one its scheduled work was
    /// queued under, else the grant's root, with the parent's ceilings. A run already
    /// bound keeps its allocation, whose disposition is cleared.
    pub fn bind_run_allocation_in(&mut self, grant: &Grant, run_id: &String, profile: Profile,
        parent_allocation_id: &Option<String>, now_ms: u64) -> (r: Result<()>)
        requires
            old(self).wf(),
        ensures
            Store::bind_post(*old(self), *final(self), grant.id@, run_id@, profile, opt_text(*parent_allocation_id), now_ms as nat, r),
    {
        proof {
            reveal(Store::allocate_post);
        }
        if let Some(k) = self.find_run_allocation(run_id) {
            if let Some(i) = self.find_allocation(&self.run_allocations[k].allocation_id) {
                let ghost before = *self;
                self.allocations[i].disposition = None;
                proof {
                    assert(self.allocations@ =~= before.allocations@.update(i as int,
                        BudgetAllocation { disposition: None, ..before.allocations@[i as int] }));
                    lemma_wf_allocation_update(before, *self, i as int, self.allocations@[i as int]);
                }
            }
            return Ok(());
        }
        let root_id = allocation_id("root", grant.id.as_str());
        proof {
            reveal_strlit("root");
        }
        let root = self.allocation(grant, &root_id)?;
        let work_parent = self.work_allocation_exec(run_id);
        if parent_allocation_id.is_some() && work_parent.is_some() && !opt_text_eq(parent_allocation_id, &work_parent) {
            return Err(Error::denied("scheduled work cannot change its allocation"));
        }
        let parent_id = match parent_allocation_id {
            Some(p) => p.clone(),
            None => match work_parent {
                Some(w) => w,
                None => root.id,
            },
        };
        let parent = self.allocation(grant, &parent_id)?;
        proof {
            reveal_strlit("run");
        }
        let request = BudgetAllocationRequest {
            id: allocation_id("run", run_id.as_str()),
            parent_id: parent.id.clone(),
            cause_id: run_id.clone(),
            purpose: profile_text(profile),
            budget: parent.budget.clone(),
        };
        let ghost old_store = *self;
        assert(ask_of(request) == run_ask(run_id@, profile,
            old_store.allocation_at(old_store.bind_parent(grant.id@, run_id@, opt_text(*parent_allocation_id)))));
        let a = self.allocate_in(grant, &request, now_ms)?;
        let ghost mid = *self;
        let binding = RunAllocation { run_id: run_id.clone(), allocation_id: a.id.clone() };
        self.run_allocations.push(binding);
        proof {
            assert(self.run_allocations@.drop_last() =~= mid.run_allocations@);
            lemma_wf_run_allocation_push(old_store, mid, *self);
            assert(Store::bound_to(old_store, mid, *self, grant.id@, ask_of(request), now_ms as nat, a, run_id@));
        }
        Ok(())
    }
}

/// Binding a run that has no allocation yet keeps the ledger well formed.
proof fn lemma_wf_run_allocation_push(old: Store, mid: Store, new: Store)
    requires
        mid.wf(),
        mid.run_allocations == old.run_allocations,
        old.run_allocation_binding(new.run_allocations@.last().run_id@) is None,
        new.run_allocations@.len() == mid.run_allocations@.len() + 1,
        new.run_allocations@.drop_last() == mid.run_allocations@,
        new.grants == mid.grants,
        new.runs == mid.runs,
        new.allocations == mid.allocations,
        new.permits == mid.permits,
        new.compactions == mid.compactions,
        new.waits == mid.waits,
        new.contexts == mid.contexts && new.validity == mid.validity && new.corpora@ == mid.corpora@ && new.archive == mid.archive,
        new.messages == mid.messages,
        new.events@ == mid.events@,
        new.work == mid.work,
        new.attachments == mid.attachments,
        new.attachment_work == mid.attachment_work,
        new.feedback == mid.feedback,
    ensures
        new.wf(),
{
    let n = mid.run_allocations@.len() as int;
    assert forall|i: int, j: int|
        0 <= i < j < new.run_allocations@.len() implies #[trigger] new.run_allocations@[i].run_id@
            != #[trigger] new.run_allocations@[j].run_id@ by {
        assert(new.run_allocations@[i] == mid.run_allocations@[i]);
        if j == n {
            if new.run_allocations@[i].run_id@ == new.run_allocations@[j].run_id@ {
                assert(old.run_allocations@[i].run_id@ == new.run_allocations@.last().run_id@);
            }
        } else {
            assert(new.run_allocations@[j] == mid.run_allocations@[j]);
        }
    }
}

} // verus!
