//! Budget allocations: a tree of ceilings under each grant's root allocation,
//! and the ledger of what each subtree has spent or reserved.

use vstd::prelude::*;
use crate::contracts::{Budget, BudgetAllocation, BudgetAllocationRequest, BudgetStatus, BudgetUsage, Disposition, Grant};
use crate::compare::{opt_text, same_allocation_identity, same_grant, allocation_identity_eq, grant_eq};
use crate::decimal::{counter, decimal_repr, decimal_string, decimal_value, is_counter};
use crate::error::{Error, Result, DENIED, EXHAUSTED, INTERNAL, INVALID, MISSING, CONFLICT};
use crate::store::{
    budget_valid, cost_of, deadline_of, tokens_of, EffectEntry, PermitEntry, PermitState,
    RunStatus, Store, WorkEntry,
};

verus! {

/// The result of following an allocation's parents.
pub enum Ancestry {
    /// The allocation and its ancestors, nearest first.
    Chain(Seq<BudgetAllocation>),
    /// The first allocation does not exist in the caller's grant.
    NotInGrant,
    /// A parent named by an allocation does not exist.
    Dangling,
    /// More than the supported number of levels.
    TooDeep,
}

/// The supported depth of an allocation tree.
pub const MAX_LEVELS: usize = 64;

pub open spec fn ancestry_code(a: Ancestry) -> i32 {
    match a {
        Ancestry::NotInGrant => MISSING,
        Ancestry::Dangling => INTERNAL,
        Ancestry::TooDeep => INVALID,
        Ancestry::Chain(_) => 0,
    }
}

/// A disposition that stops all new dispatch below an allocation.
pub open spec fn stopping(d: Option<Disposition>) -> bool {
    d == Some(Disposition::Cancelled) || d == Some(Disposition::Exhausted) || d == Some(
        Disposition::Failed,
    )
}

/// An owner on the path closes the allowance of allocation `id`: the allocation
/// itself has any disposition, or an owner was stopped.
pub open spec fn closes(owner: BudgetAllocation, id: Seq<char>) -> bool {
    (owner.id@ == id && owner.disposition is Some) || stopping(owner.disposition)
}

/// The first reason why a chain of owners refuses new dispatch at time `now`.
pub open spec fn open_failure(chain: Seq<BudgetAllocation>, id: Seq<char>, now: nat) -> Option<i32>
    decreases chain.len(),
{
    if chain.len() == 0 {
        None
    } else if closes(chain[0], id) {
        Some(DENIED)
    } else if now >= deadline_of(chain[0].budget) {
        Some(EXHAUSTED)
    } else {
        open_failure(chain.drop_first(), id, now)
    }
}

/// What a subtree of the ledger has drawn.
pub struct Totals {
    pub calls: nat,
    pub undispatched: nat,
    pub unknown: nat,
    pub settled_tokens: nat,
    pub reserved_tokens: nat,
    pub settled_cost: nat,
    pub reserved_cost: nat,
}

pub open spec fn zero_totals() -> Totals {
    Totals {
        calls: 0,
        undispatched: 0,
        unknown: 0,
        settled_tokens: 0,
        reserved_tokens: 0,
        settled_cost: 0,
        reserved_cost: 0,
    }
}

pub open spec fn add_permit(t: Totals, p: PermitEntry) -> Totals {
    let settled = p.state == PermitState::Settled;
    Totals {
        calls: t.calls + 1,
        undispatched: t.undispatched + if p.state == PermitState::Reserved { 1nat } else { 0nat },
        unknown: t.unknown + if p.state == PermitState::Dispatched { 1nat } else { 0nat },
        settled_tokens: t.settled_tokens + if settled { p.reserved_tokens as nat } else { 0nat },
        reserved_tokens: t.reserved_tokens + if settled { 0nat } else { p.reserved_tokens as nat },
        settled_cost: t.settled_cost + if settled { p.reserved_cost as nat } else { 0nat },
        reserved_cost: t.reserved_cost + if settled { 0nat } else { p.reserved_cost as nat },
    }
}

/// The totals fit the ledger's integer columns.
pub open spec fn totals_fit(t: Totals) -> bool {
    &&& t.calls <= u32::MAX
    &&& t.undispatched <= u32::MAX
    &&& t.unknown <= u32::MAX
    &&& t.settled_tokens <= i64::MAX
    &&& t.reserved_tokens <= i64::MAX
    &&& t.settled_cost <= i64::MAX
    &&& t.reserved_cost <= i64::MAX
}

pub open spec fn sat_sub(a: nat, b: nat) -> nat {
    if a >= b { (a - b) as nat } else { 0 }
}

pub open spec fn min_nat(a: nat, b: nat) -> nat {
    if a <= b { a } else { b }
}

/// A remaining allowance as numbers.
pub struct Allowance {
    pub calls: nat,
    pub tokens: nat,
    pub cost: nat,
    pub actions: nat,
    pub work_items: nat,
    pub depth: nat,
    pub deadline: nat,
}

pub open spec fn allowance_of(b: Budget) -> Allowance {
    Allowance {
        calls: b.max_calls as nat,
        tokens: tokens_of(b),
        cost: cost_of(b),
        actions: b.max_actions as nat,
        work_items: b.max_work_items as nat,
        depth: b.max_depth as nat,
        deadline: deadline_of(b),
    }
}

pub open spec fn min_allowance(a: Allowance, b: Allowance) -> Allowance {
    Allowance {
        calls: min_nat(a.calls, b.calls),
        tokens: min_nat(a.tokens, b.tokens),
        cost: min_nat(a.cost, b.cost),
        actions: min_nat(a.actions, b.actions),
        work_items: min_nat(a.work_items, b.work_items),
        depth: min_nat(a.depth, b.depth),
        deadline: min_nat(a.deadline, b.deadline),
    }
}

pub open spec fn allowance_le(a: Allowance, b: Allowance) -> bool {
    &&& a.calls <= b.calls
    &&& a.tokens <= b.tokens
    &&& a.cost <= b.cost
    &&& a.actions <= b.actions
    &&& a.work_items <= b.work_items
    &&& a.depth <= b.depth
    &&& a.deadline <= b.deadline
}

/// A budget spells exactly an allowance.
pub open spec fn spells(b: Budget, a: Allowance) -> bool {
    &&& b.max_calls as nat == a.calls
    &&& b.max_tokens@ == decimal_repr(a.tokens)
    &&& b.max_cost_microusd@ == decimal_repr(a.cost)
    &&& b.max_actions as nat == a.actions
    &&& b.max_work_items as nat == a.work_items
    &&& b.max_depth as nat == a.depth
    &&& b.deadline_ms@ == decimal_repr(a.deadline)
}

impl Store {
    pub open spec fn in_grant(self, grant_id: Seq<char>, id: Seq<char>) -> bool {
        self.has_allocation(id) && self.allocation_at(id).grant_id@ == grant_id
    }

    /// The allocations reached by following parents from `next`, nearest first.
    pub open spec fn parents_from(self, next: Option<Seq<char>>, fuel: nat) -> Ancestry
        decreases fuel,
    {
        match next {
            None => Ancestry::Chain(Seq::empty()),
            Some(p) => if fuel == 0 {
                Ancestry::TooDeep
            } else if !self.has_allocation(p) {
                Ancestry::Dangling
            } else {
                let a = self.allocation_at(p);
                match self.parents_from(opt_text(a.parent_id), (fuel - 1) as nat) {
                    Ancestry::Chain(rest) => Ancestry::Chain(seq![a] + rest),
                    e => e,
                }
            },
        }
    }

    /// An allocation of the grant followed by its ancestors, at most `MAX_LEVELS` in all.
    /// Only the first allocation is held to the caller's grant.
    pub open spec fn ancestry(self, grant_id: Seq<char>, id: Seq<char>) -> Ancestry {
        if !self.in_grant(grant_id, id) {
            Ancestry::NotInGrant
        } else {
            let a = self.allocation_at(id);
            match self.parents_from(opt_text(a.parent_id), (MAX_LEVELS - 1) as nat) {
                Ancestry::Chain(rest) => Ancestry::Chain(seq![a] + rest),
                e => e,
            }
        }
    }

    /// `x` lies in the subtree of `root`: `root` is reached from `x` by following parents.
    pub open spec fn in_family(self, x: Seq<char>, root: Seq<char>, fuel: nat) -> bool
        decreases fuel,
    {
        if x == root {
            true
        } else if fuel == 0 || !self.has_allocation(x) {
            false
        } else {
            match self.allocation_at(x).parent_id {
                Some(p) => self.in_family(p@, root, (fuel - 1) as nat),
                None => false,
            }
        }
    }

    pub open spec fn family(self, x: Seq<char>, root: Seq<char>) -> bool {
        self.in_family(x, root, self.allocations@.len())
    }

    /// A permit counts against allocation `id`: it lies in its subtree, or, for a
    /// root allocation, anywhere in the grant; released permits never count.
    pub open spec fn permit_counts(self, p: PermitEntry, grant_id: Seq<char>, id: Seq<char>, root: bool) -> bool {
        &&& (p.grant_id@ == grant_id && root) || self.family(p.allocation_id@, id)
        &&& p.state != PermitState::Released
    }

    pub open spec fn permit_totals(self, ps: Seq<PermitEntry>, grant_id: Seq<char>, id: Seq<char>, root: bool) -> Totals
        decreases ps.len(),
    {
        if ps.len() == 0 {
            zero_totals()
        } else {
            let t = self.permit_totals(ps.drop_last(), grant_id, id, root);
            if self.permit_counts(ps.last(), grant_id, id, root) {
                add_permit(t, ps.last())
            } else {
                t
            }
        }
    }

    pub open spec fn charged(self, grant: Seq<char>, alloc: Option<String>, grant_id: Seq<char>, id: Seq<char>, root: bool) -> bool {
        (grant == grant_id && root) || match alloc {
            Some(a) => self.family(a@, id),
            None => false,
        }
    }

    pub open spec fn effect_count(self, es: Seq<EffectEntry>, grant_id: Seq<char>, id: Seq<char>, root: bool) -> nat
        decreases es.len(),
    {
        if es.len() == 0 {
            0
        } else {
            self.effect_count(es.drop_last(), grant_id, id, root) + if self.charged(
                es.last().grant_id@,
                es.last().allocation_id,
                grant_id,
                id,
                root,
            ) {
                1nat
            } else {
                0nat
            }
        }
    }

    pub open spec fn work_count(self, ws: Seq<WorkEntry>, grant_id: Seq<char>, id: Seq<char>, root: bool) -> nat
        decreases ws.len(),
    {
        if ws.len() == 0 {
            0
        } else {
            self.work_count(ws.drop_last(), grant_id, id, root) + if self.charged(
                ws.last().grant_id@,
                ws.last().allocation_id,
                grant_id,
                id,
                root,
            ) {
                1nat
            } else {
                0nat
            }
        }
    }

    /// What the subtree of allocation `id` has drawn.
    pub open spec fn totals(self, id: Seq<char>) -> Totals {
        let a = self.allocation_at(id);
        self.permit_totals(self.permits@, a.grant_id@, id, a.parent_id is None)
    }

    pub open spec fn actions(self, id: Seq<char>) -> nat {
        let a = self.allocation_at(id);
        self.effect_count(self.effects@, a.grant_id@, id, a.parent_id is None)
    }

    pub open spec fn work_items(self, id: Seq<char>) -> nat {
        let a = self.allocation_at(id);
        self.work_count(self.work@, a.grant_id@, id, a.parent_id is None)
    }

    /// The ledger of allocation `id` can be read: its counts and sums fit their columns.
    pub open spec fn ledger_fits(self, id: Seq<char>) -> bool {
        &&& totals_fit(self.totals(id))
        &&& self.actions(id) <= u32::MAX
        &&& self.work_items(id) <= u32::MAX
    }

    /// The allowance of allocation `id` after what its own subtree has drawn.
    pub open spec fn ledger_remaining(self, id: Seq<char>) -> Allowance {
        let a = self.allocation_at(id);
        let t = self.totals(id);
        Allowance {
            calls: sat_sub(a.budget.max_calls as nat, t.calls),
            tokens: sat_sub(sat_sub(tokens_of(a.budget), t.settled_tokens), t.reserved_tokens),
            cost: sat_sub(sat_sub(cost_of(a.budget), t.settled_cost), t.reserved_cost),
            actions: sat_sub(a.budget.max_actions as nat, self.actions(id)),
            work_items: sat_sub(a.budget.max_work_items as nat, self.work_items(id)),
            depth: a.budget.max_depth as nat,
            deadline: deadline_of(a.budget),
        }
    }

    /// A ledger status of allocation `id` as `allocation_ledger_status` reports it.
    pub open spec fn is_ledger_status(self, id: Seq<char>, s: BudgetStatus) -> bool {
        let a = self.allocation_at(id);
        let t = self.totals(id);
        let r = self.ledger_remaining(id);
        &&& s.allocation == a
        &&& s.usage.model_calls as nat == t.calls
        &&& s.usage.undispatched_calls as nat == t.undispatched
        &&& s.usage.unknown_calls as nat == t.unknown
        &&& s.usage.settled_tokens@ == decimal_repr(t.settled_tokens)
        &&& s.usage.reserved_tokens@ == decimal_repr(t.reserved_tokens)
        &&& s.usage.settled_cost_microusd@ == decimal_repr(t.settled_cost)
        &&& s.usage.reserved_cost_microusd@ == decimal_repr(t.reserved_cost)
        &&& s.usage.actions as nat == self.actions(id)
        &&& s.usage.work_items as nat == self.work_items(id)
        &&& s.remaining.max_calls as nat == r.calls
        &&& s.remaining.max_tokens@ == decimal_repr(r.tokens)
        &&& s.remaining.max_cost_microusd@ == decimal_repr(r.cost)
        &&& s.remaining.max_actions as nat == r.actions
        &&& s.remaining.max_work_items as nat == r.work_items
        &&& s.remaining.max_depth == a.budget.max_depth
        &&& s.remaining.deadline_ms@ == a.budget.deadline_ms@
    }

    /// The first owner on a chain whose ledger cannot be read, and why.
    pub open spec fn chain_failure(self, chain: Seq<BudgetAllocation>) -> Option<i32>
        decreases chain.len(),
    {
        if chain.len() == 0 {
            None
        } else if !self.has_grant(chain[0].grant_id@) {
            Some(MISSING)
        } else if !self.ledger_fits(chain[0].id@) {
            Some(INTERNAL)
        } else {
            self.chain_failure(chain.drop_first())
        }
    }

    /// The allowance left after every owner's ledger on the chain, starting from `acc`.
    pub open spec fn chain_allowance(self, chain: Seq<BudgetAllocation>, acc: Allowance) -> Allowance
        decreases chain.len(),
    {
        if chain.len() == 0 {
            acc
        } else {
            self.chain_allowance(chain.drop_first(), min_allowance(acc, self.ledger_remaining(chain[0].id@)))
        }
    }
}


/// Every allocation on a chain read from the ledger is the stored allocation of its
/// identifier, and its budget is well formed.
pub proof fn lemma_parents_stored(store: Store, next: Option<Seq<char>>, fuel: nat)
    requires
        store.wf(),
    ensures
        store.parents_from(next, fuel) matches Ancestry::Chain(c) ==> forall|k: int|
            0 <= k < c.len() ==> {
                &&& store.has_allocation((#[trigger] c[k]).id@)
                &&& store.allocation_at(c[k].id@) == c[k]
                &&& budget_valid(c[k].budget)
            },
    decreases fuel,
{
    match next {
        None => {},
        Some(p) => {
            if fuel > 0 && store.has_allocation(p) {
                let a = store.allocation_at(p);
                lemma_parents_stored(store, opt_text(a.parent_id), (fuel - 1) as nat);
                lemma_allocation_at_is_stored(store, p);
                if let Ancestry::Chain(rest) = store.parents_from(opt_text(a.parent_id), (fuel - 1) as nat) {
                    let c = seq![a] + rest;
                    assert forall|k: int| 0 <= k < c.len() implies {
                        &&& store.has_allocation((#[trigger] c[k]).id@)
                        &&& store.allocation_at(c[k].id@) == c[k]
                        &&& budget_valid(c[k].budget)
                    } by {
                        if k > 0 {
                            assert(c[k] == rest[k - 1]);
                        }
                    }
                }
            }
        },
    }
}

/// The stored allocation of an identifier carries that identifier and a well-formed budget.
pub proof fn lemma_allocation_at_is_stored(store: Store, id: Seq<char>)
    requires
        store.wf(),
        store.has_allocation(id),
    ensures
        store.allocation_at(id).id@ == id,
        store.has_allocation(store.allocation_at(id).id@),
        store.allocation_at(store.allocation_at(id).id@) == store.allocation_at(id),
        budget_valid(store.allocation_at(id).budget),
{
    let i = choose|i: int| 0 <= i < store.allocations@.len() && #[trigger] store.allocations@[i].id@ == id;
    assert(budget_valid(store.allocations@[i].budget));
}

pub proof fn lemma_ancestry_stored(store: Store, grant_id: Seq<char>, id: Seq<char>)
    requires
        store.wf(),
    ensures
        store.ancestry(grant_id, id) matches Ancestry::Chain(c) ==> {
            &&& c.len() > 0
            &&& c[0] == store.allocation_at(id)
            &&& c.len() <= MAX_LEVELS
            &&& forall|k: int|
                0 <= k < c.len() ==> {
                    &&& store.has_allocation((#[trigger] c[k]).id@)
                    &&& store.allocation_at(c[k].id@) == c[k]
                    &&& budget_valid(c[k].budget)
                }
        },
{
    if store.in_grant(grant_id, id) {
        let a = store.allocation_at(id);
        lemma_allocation_at_is_stored(store, id);
        lemma_parents_stored(store, opt_text(a.parent_id), (MAX_LEVELS - 1) as nat);
        lemma_parents_len(store, opt_text(a.parent_id), (MAX_LEVELS - 1) as nat);
        if let Ancestry::Chain(rest) = store.parents_from(opt_text(a.parent_id), (MAX_LEVELS - 1) as nat) {
            let c = seq![a] + rest;
            assert forall|k: int| 0 <= k < c.len() implies {
                &&& store.has_allocation((#[trigger] c[k]).id@)
                &&& store.allocation_at(c[k].id@) == c[k]
                &&& budget_valid(c[k].budget)
            } by {
                if k > 0 {
                    assert(c[k] == rest[k - 1]);
                }
            }
        }
    }
}

pub proof fn lemma_parents_len(store: Store, next: Option<Seq<char>>, fuel: nat)
    ensures
        store.parents_from(next, fuel) matches Ancestry::Chain(c) ==> c.len() <= fuel,
    decreases fuel,
{
    if let Some(p) = next {
        if fuel > 0 && store.has_allocation(p) {
            lemma_parents_len(store, opt_text(store.allocation_at(p).parent_id), (fuel - 1) as nat);
        }
    }
}

/// The allowance left on a chain never exceeds the starting allowance nor the
/// remaining allowance of any owner on the chain.
pub proof fn lemma_chain_allowance_bounded(store: Store, chain: Seq<BudgetAllocation>, acc: Allowance)
    ensures
        allowance_le(store.chain_allowance(chain, acc), acc),
        forall|k: int|
            0 <= k < chain.len() ==> allowance_le(
                store.chain_allowance(chain, acc),
                store.ledger_remaining((#[trigger] chain[k]).id@),
            ),
    decreases chain.len(),
{
    if chain.len() > 0 {
        let next = min_allowance(acc, store.ledger_remaining(chain[0].id@));
        lemma_chain_allowance_bounded(store, chain.drop_first(), next);
        assert forall|k: int|
            0 <= k < chain.len() implies allowance_le(
            store.chain_allowance(chain, acc),
            store.ledger_remaining((#[trigger] chain[k]).id@),
        ) by {
            if k > 0 {
                assert(chain[k] == chain.drop_first()[k - 1]);
            }
        }
    }
}

impl Store {
    /// The allocation of the caller's grant with this identifier.
    pub fn allocation(&self, grant: &Grant, id: &String) -> (r: Result<BudgetAllocation>)
        requires
            self.wf(),
        ensures
            r matches Ok(a) ==> self.in_grant(grant.id@, id@) && a == self.allocation_at(id@),
            r matches Err(e) ==> !self.in_grant(grant.id@, id@) && e.code == MISSING,
    {
        match self.find_allocation(id) {
            Some(i) => {
                if self.allocations[i].grant_id == grant.id {
                    Ok(self.allocations[i].clone())
                } else {
                    Err(Error::missing("allocation not found in grant"))
                }
            },
            None => Err(Error::missing("allocation not found in grant")),
        }
    }

    fn parents(&self, next: &Option<String>, fuel: usize) -> (r: Result<Vec<BudgetAllocation>>)
        requires
            self.wf(),
        ensures
            match self.parents_from(opt_text(*next), fuel as nat) {
                Ancestry::Chain(c) => r matches Ok(v) && v@ == c,
                a => r matches Err(e) && e.code == ancestry_code(a),
            },
        decreases fuel,
    {
        match next {
            None => Ok(Vec::new()),
            Some(p) => {
                if fuel == 0 {
                    return Err(Error::invalid("allocation ancestry exceeds 64 levels"));
                }
                match self.find_allocation(p) {
                    None => Err(Error::internal("allocation parent not found")),
                    Some(i) => {
                        let a = self.allocations[i].clone();
                        let mut rest = self.parents(&self.allocations[i].parent_id, fuel - 1)?;
                        let ghost tail = rest@;
                        rest.insert(0, a);
                        assert(rest@ =~= seq![a] + tail);
                        Ok(rest)
                    },
                }
            },
        }
    }

    /// The allocation and its ancestors, nearest first, at most 64 levels.
    pub fn allocation_ancestry(&self, grant: &Grant, id: &String) -> (r: Result<Vec<BudgetAllocation>>)
        requires
            self.wf(),
        ensures
            match self.ancestry(grant.id@, id@) {
                Ancestry::Chain(c) => r matches Ok(v) && v@ == c,
                a => r matches Err(e) && e.code == ancestry_code(a),
            },
    {
        let a = self.allocation(grant, id)?;
        let mut rest = self.parents(&a.parent_id, MAX_LEVELS - 1)?;
        let ghost tail = rest@;
        rest.insert(0, a);
        assert(rest@ =~= seq![a] + tail);
        Ok(rest)
    }

    /// The allocation's ancestry if every owner still admits new dispatch at `now_ms`:
    /// no owner was stopped, the allocation itself is not finished, and no deadline passed.
    pub fn require_allocation_open(&self, grant: &Grant, id: &String, now_ms: u64) -> (r: Result<Vec<BudgetAllocation>>)
        requires
            self.wf(),
        ensures
            match self.ancestry(grant.id@, id@) {
                Ancestry::Chain(c) => match open_failure(c, id@, now_ms as nat) {
                    None => r matches Ok(v) && v@ == c,
                    Some(code) => r matches Err(e) && e.code == code,
                },
                a => r matches Err(e) && e.code == ancestry_code(a),
            },
    {
        let ancestry = self.allocation_ancestry(grant, id)?;
        proof {
            lemma_ancestry_stored(*self, grant.id@, id@);
        }
        let ghost c = ancestry@;
        assert(c.subrange(0, c.len() as int) =~= c);
        let mut i: usize = 0;
        while i < ancestry.len()
            invariant
                c == ancestry@,
                self.ancestry(grant.id@, id@) == Ancestry::Chain(c),
                0 <= i <= c.len(),
                forall|k: int| 0 <= k < c.len() ==> budget_valid((#[trigger] c[k]).budget),
                open_failure(c, id@, now_ms as nat) == open_failure(c.subrange(i as int, c.len() as int), id@, now_ms as nat),
            decreases c.len() - i,
        {
            let owner = &ancestry[i];
            let ghost rest = c.subrange(i as int, c.len() as int);
            assert(rest[0] == c[i as int]);
            assert(rest.drop_first() =~= c.subrange(i + 1, c.len() as int));
            let stopped = match owner.disposition {
                Some(Disposition::Cancelled) => true,
                Some(Disposition::Exhausted) => true,
                Some(Disposition::Failed) => true,
                _ => false,
            };
            if (owner.id == *id && owner.disposition.is_some()) || stopped {
                return Err(Error::denied("budget allocation is closed"));
            }
            let deadline = match counter(owner.budget.deadline_ms.as_str()) {
                Ok(d) => d,
                Err(e) => return Err(e),
            };
            if now_ms >= deadline {
                return Err(Error::exhausted("budget allocation expired"));
            }
            i = i + 1;
        }
        assert(c.subrange(c.len() as int, c.len() as int) =~= Seq::<BudgetAllocation>::empty());
        Ok(ancestry)
    }

    /// Allocation `x` lies in the subtree of `root`.
    pub fn in_family_exec(&self, x: &String, root: &String) -> (r: bool)
        requires
            self.wf(),
        ensures
            r == self.family(x@, root@),
    {
        let mut cur: String = x.clone();
        let mut fuel: usize = self.allocations.len();
        loop
            invariant
                self.wf(),
                fuel <= self.allocations@.len(),
                self.family(x@, root@) == self.in_family(cur@, root@, fuel as nat),
            decreases fuel,
        {
            if cur == *root {
                return true;
            }
            if fuel == 0 {
                return false;
            }
            match self.find_allocation(&cur) {
                None => return false,
                Some(i) => match &self.allocations[i].parent_id {
                    None => return false,
                    Some(p) => {
                        cur = p.clone();
                        fuel = fuel - 1;
                    },
                },
            }
        }
    }

    fn charged_exec(&self, grant: &String, alloc: &Option<String>, grant_id: &String, id: &String, root: bool) -> (r: bool)
        requires
            self.wf(),
        ensures
            r == self.charged(grant@, *alloc, grant_id@, id@, root),
    {
        if *grant == *grant_id && root {
            return true;
        }
        match alloc {
            Some(a) => self.in_family_exec(a, id),
            None => false,
        }
    }

    /// What the subtree of an allocation of the grant has drawn, and the allowance
    /// its own ceilings leave. A root allocation counts everything in its grant.
    pub fn allocation_ledger_status(&self, grant: &Grant, id: &String) -> (r: Result<BudgetStatus>)
        requires
            self.wf(),
        ensures
            r is Ok <==> self.in_grant(grant.id@, id@) && self.ledger_fits(id@),
            r matches Ok(s) ==> self.is_ledger_status(id@, s),
            r matches Err(e) ==> if !self.in_grant(grant.id@, id@) {
                e.code == MISSING
            } else {
                e.code == INTERNAL
            },
    {
        let allocation = self.allocation(grant, id)?;
        proof {
            lemma_allocation_at_is_stored(*self, id@);
        }
        let root = allocation.parent_id.is_none();
        let ghost gid = grant.id@;
        let mut calls: u128 = 0;
        let mut undispatched: u128 = 0;
        let mut unknown: u128 = 0;
        let mut settled_tokens: u128 = 0;
        let mut reserved_tokens: u128 = 0;
        let mut settled_cost: u128 = 0;
        let mut reserved_cost: u128 = 0;
        let mut i: usize = 0;
        while i < self.permits.len()
            invariant
                self.wf(),
                gid == grant.id@,
                0 <= i <= self.permits@.len(),
                ({
                    let t = self.permit_totals(self.permits@.take(i as int), gid, id@, root);
                    &&& calls as nat == t.calls
                    &&& undispatched as nat == t.undispatched
                    &&& unknown as nat == t.unknown
                    &&& settled_tokens as nat == t.settled_tokens
                    &&& reserved_tokens as nat == t.reserved_tokens
                    &&& settled_cost as nat == t.settled_cost
                    &&& reserved_cost as nat == t.reserved_cost
                }),
                calls <= i,
                undispatched <= i,
                unknown <= i,
                settled_tokens <= i * 0x8000_0000_0000_0000,
                reserved_tokens <= i * 0x8000_0000_0000_0000,
                settled_cost <= i * 0x8000_0000_0000_0000,
                reserved_cost <= i * 0x8000_0000_0000_0000,
            decreases self.permits@.len() - i,
        {
            let p = &self.permits[i];
            proof {
                assert(self.permits@.take(i + 1).drop_last() =~= self.permits@.take(i as int));
                assert(self.permits@.take(i + 1).last() == self.permits@[i as int]);
                assert(p.reserved_tokens <= i64::MAX && p.reserved_cost <= i64::MAX);
            }
            let counts = ((p.grant_id == grant.id && root) || self.in_family_exec(&p.allocation_id, id))
                && p.state != PermitState::Released;
            if counts {
                calls = calls + 1;
                if p.state == PermitState::Reserved {
                    undispatched = undispatched + 1;
                }
                if p.state == PermitState::Dispatched {
                    unknown = unknown + 1;
                }
                if p.state == PermitState::Settled {
                    settled_tokens = settled_tokens + p.reserved_tokens as u128;
                    settled_cost = settled_cost + p.reserved_cost as u128;
                } else {
                    reserved_tokens = reserved_tokens + p.reserved_tokens as u128;
                    reserved_cost = reserved_cost + p.reserved_cost as u128;
                }
            }
            i = i + 1;
        }
        assert(self.permits@.take(self.permits@.len() as int) =~= self.permits@);
        let mut actions: usize = 0;
        let mut i: usize = 0;
        while i < self.effects.len()
            invariant
                self.wf(),
                gid == grant.id@,
                0 <= i <= self.effects@.len(),
                actions as nat == self.effect_count(self.effects@.take(i as int), gid, id@, root),
                actions <= i,
            decreases self.effects@.len() - i,
        {
            proof {
                assert(self.effects@.take(i + 1).drop_last() =~= self.effects@.take(i as int));
                assert(self.effects@.take(i + 1).last() == self.effects@[i as int]);
            }
            if self.charged_exec(&self.effects[i].grant_id, &self.effects[i].allocation_id, &grant.id, id, root) {
                actions = actions + 1;
            }
            i = i + 1;
        }
        assert(self.effects@.take(self.effects@.len() as int) =~= self.effects@);
        let mut work_items: usize = 0;
        let mut i: usize = 0;
        while i < self.work.len()
            invariant
                self.wf(),
                gid == grant.id@,
                0 <= i <= self.work@.len(),
                work_items as nat == self.work_count(self.work@.take(i as int), gid, id@, root),
                work_items <= i,
            decreases self.work@.len() - i,
        {
            proof {
                assert(self.work@.take(i + 1).drop_last() =~= self.work@.take(i as int));
                assert(self.work@.take(i + 1).last() == self.work@[i as int]);
            }
            if self.charged_exec(&self.work[i].grant_id, &self.work[i].allocation_id, &grant.id, id, root) {
                work_items = work_items + 1;
            }
            i = i + 1;
        }
        assert(self.work@.take(self.work@.len() as int) =~= self.work@);
        if calls > u32::MAX as u128 || undispatched > u32::MAX as u128 || unknown > u32::MAX as u128
            || settled_tokens > i64::MAX as u128 || reserved_tokens > i64::MAX as u128
            || settled_cost > i64::MAX as u128 || reserved_cost > i64::MAX as u128
            || actions > u32::MAX as usize || work_items > u32::MAX as usize {
            return Err(Error::internal("integer overflow"));
        }
        let calls = calls as u32;
        let actions = actions as u32;
        let work_items = work_items as u32;
        let settled_tokens = settled_tokens as u64;
        let reserved_tokens = reserved_tokens as u64;
        let settled_cost = settled_cost as u64;
        let reserved_cost = reserved_cost as u64;
        let budget = &allocation.budget;
        let max_tokens = match counter(budget.max_tokens.as_str()) {
            Ok(v) => v,
            Err(e) => return Err(e),
        };
        let max_cost = match counter(budget.max_cost_microusd.as_str()) {
            Ok(v) => v,
            Err(e) => return Err(e),
        };
        let remaining = Budget {
            max_calls: budget.max_calls.saturating_sub(calls),
            max_tokens: decimal_string(max_tokens.saturating_sub(settled_tokens).saturating_sub(reserved_tokens)),
            max_cost_microusd: decimal_string(max_cost.saturating_sub(settled_cost).saturating_sub(reserved_cost)),
            max_actions: budget.max_actions.saturating_sub(actions),
            max_work_items: budget.max_work_items.saturating_sub(work_items),
            max_depth: budget.max_depth,
            deadline_ms: budget.deadline_ms.clone(),
        };
        let usage = BudgetUsage {
            model_calls: calls,
            undispatched_calls: undispatched as u32,
            unknown_calls: unknown as u32,
            settled_tokens: decimal_string(settled_tokens),
            reserved_tokens: decimal_string(reserved_tokens),
            settled_cost_microusd: decimal_string(settled_cost),
            reserved_cost_microusd: decimal_string(reserved_cost),
            actions,
            work_items,
        };
        Ok(BudgetStatus { allocation, usage, remaining })
    }
}

} // verus!
