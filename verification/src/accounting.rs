//! Provider permits: reservations against every owner of an allocation, their
//! dispatch, release and settlement.

use vstd::prelude::*;
use crate::allocations::{ancestry_code, lemma_ancestry_stored, open_failure, Ancestry};
use crate::budgets::{AllocationAsk, ask_of};
use crate::clock::now_ms;
use crate::compare::{opt_text, permit_request_eq, same_permit_request, same_usage, usage_eq};
use crate::contracts::{BudgetAllocation, BudgetAllocationRequest, Grant, Permit, PermitRequest, Usage};
use crate::decimal::{counter, decimal_value, is_counter, lemma_decimal_roundtrip};
use crate::digest::{allocation_id, allocation_id_text};
use crate::error::{Error, Result, CONFLICT, DENIED, EXHAUSTED, INTERNAL, INVALID, MISSING};
use crate::store::{opt_view, CompactionEntry, PermitEntry, PermitState, Store};

verus! {

/// Calls `uuid::Uuid::new_v4` and spells it in the hyphenated form. Nothing is claimed
/// of the result: it is random.
#[verifier::external_body]
pub(crate) fn new_id() -> String {
    uuid::Uuid::new_v4().to_string()
}

/// The counters of a permit request are decimal strings.
pub open spec fn permit_request_valid(req: PermitRequest) -> bool {
    is_counter(req.input_tokens_bound@) && is_counter(req.cost_microusd_bound@)
}

/// Tokens a permit reserves: the input bound and the output allowance.
pub open spec fn reserved_of(req: PermitRequest) -> nat {
    decimal_value(req.input_tokens_bound@) + req.max_output_tokens as nat
}

pub open spec fn cost_bound_of(req: PermitRequest) -> nat {
    decimal_value(req.cost_microusd_bound@)
}

/// The counters of a usage report are decimal strings.
pub open spec fn usage_valid(u: Usage) -> bool {
    is_counter(u.input_tokens@) && is_counter(u.output_tokens@) && is_counter(u.cost_microusd@)
}

/// Tokens a usage report observed.
pub open spec fn usage_tokens(u: Usage) -> nat {
    decimal_value(u.input_tokens@) + decimal_value(u.output_tokens@)
}

pub open spec fn without_flag(r: Result<(Permit, bool)>) -> Result<Permit> {
    match r {
        Ok((p, _)) => Ok(p),
        Err(e) => Err(e),
    }
}

pub enum PermitDecision {
    Refused(i32),
    /// The call already holds the permit at this index.
    Repeated(int),
    Granted,
}

/// The permit row a granted request adds.
pub open spec fn is_granted_entry(
    p: PermitEntry,
    run: Seq<char>,
    grant_id: Seq<char>,
    req: PermitRequest,
    alloc: Seq<char>,
    permit_id: Seq<char>,
) -> bool {
    &&& p.id@ == permit_id
    &&& p.grant_id@ == grant_id
    &&& p.run_id@ == run
    &&& p.reserved_tokens as nat == reserved_of(req)
    &&& p.reserved_cost as nat == cost_bound_of(req)
    &&& opt_text(p.compaction_id) == opt_text(req.compaction_id)
    &&& p.allocation_id@ == alloc
    &&& opt_text(p.call_id) == opt_text(req.call_id)
    &&& p.request == req
    // A stable call identity opts into explicit dispatch; legacy calls count as dispatched.
    &&& p.state == if req.call_id is Some { PermitState::Reserved } else { PermitState::Dispatched }
    &&& p.usage is None
}

impl Store {
    pub open spec fn has_call(self, run: Seq<char>, call: Seq<char>) -> bool {
        exists|i: int|
            0 <= i < self.permits@.len() && #[trigger] self.permits@[i].run_id@ == run && opt_view(
                self.permits@[i].call_id,
            ) == Some(call)
    }

    /// The permit already held by a provider call of a run.
    pub open spec fn call_index(self, run: Seq<char>, call: Seq<char>) -> int {
        choose|i: int|
            0 <= i < self.permits@.len() && #[trigger] self.permits@[i].run_id@ == run && opt_view(
                self.permits@[i].call_id,
            ) == Some(call)
    }

    pub open spec fn permit_index(self, id: Seq<char>) -> int {
        choose|i: int| 0 <= i < self.permits@.len() && #[trigger] self.permits@[i].id@ == id
    }

    /// The first owner on the chain that refuses a reservation, and why.
    pub open spec fn owner_refusal(self, chain: Seq<BudgetAllocation>, reserved: nat, cost: nat) -> Option<i32>
        decreases chain.len(),
    {
        if chain.len() == 0 {
            None
        } else if !self.has_grant(chain[0].grant_id@) {
            Some(MISSING)
        } else if !self.ledger_fits(chain[0].id@) {
            Some(INTERNAL)
        } else {
            let r = self.ledger_remaining(chain[0].id@);
            if r.calls == 0 || reserved > r.tokens || cost > r.cost {
                Some(EXHAUSTED)
            } else {
                self.owner_refusal(chain.drop_first(), reserved, cost)
            }
        }
    }

    /// The decision on a permit for allocation `alloc` of a running run at time `now`.
    pub open spec fn permit_decision(self, run: Seq<char>, req: PermitRequest, alloc: Seq<char>, now: nat, permit_id: Seq<char>) -> PermitDecision {
        let grant_id = self.run_at(run).grant_id@;
        let run_alloc = self.run_allocation_id(run);
        if req.call_id is Some && self.has_call(run, req.call_id->0@) {
            let i = self.call_index(run, req.call_id->0@);
            if same_permit_request(self.permits@[i].request, req) && self.permits@[i].allocation_id@ == alloc {
                PermitDecision::Repeated(i)
            } else {
                PermitDecision::Refused(CONFLICT)
            }
        } else {
            match self.ancestry(grant_id, alloc) {
                Ancestry::Chain(c) => match open_failure(c, alloc, now) {
                    Some(code) => PermitDecision::Refused(code),
                    None => if !(exists|k: int| 0 <= k < c.len() && (#[trigger] c[k]).id@ == run_alloc) {
                        PermitDecision::Refused(DENIED)
                    } else {
                        match self.owner_refusal(c, reserved_of(req), cost_bound_of(req)) {
                            Some(code) => PermitDecision::Refused(code),
                            None => if self.has_permit(permit_id) {
                                PermitDecision::Refused(INTERNAL)
                            } else {
                                PermitDecision::Granted
                            },
                        }
                    },
                },
                a => PermitDecision::Refused(ancestry_code(a)),
            }
        }
    }

    /// The outcome of a permit decided on ledger `mid`; refusals and repeats leave `old`.
    #[verifier::opaque]
    pub open spec fn permit_core_post(
        old: Store,
        new: Store,
        mid: Store,
        run: Seq<char>,
        req: PermitRequest,
        alloc: Seq<char>,
        now: nat,
        permit_id: Seq<char>,
        r: Result<Permit>,
    ) -> bool {
        match mid.permit_decision(run, req, alloc, now, permit_id) {
            PermitDecision::Refused(code) => r matches Err(e) && e.code == code && Store::same(new, old),
            PermitDecision::Repeated(i) => r matches Ok(p) && p.id@ == mid.permits@[i].id@
                && p.max_output_tokens == req.max_output_tokens && Store::same(new, old),
            PermitDecision::Granted => r matches Ok(p) && {
                &&& p.id@ == permit_id
                &&& p.max_output_tokens == req.max_output_tokens
                &&& new.permits@.len() == mid.permits@.len() + 1
                &&& new.permits@.drop_last() == mid.permits@
                &&& is_granted_entry(new.permits@.last(), run, mid.run_at(run).grant_id@, req, alloc, permit_id)
                &&& new.allocations@ == mid.allocations@
                &&& new.grants@ == mid.grants@
                &&& new.runs@ == mid.runs@
                &&& new.run_allocations@ == mid.run_allocations@
                &&& new.effects@ == mid.effects@
                &&& new.work@ == mid.work@
                &&& new.compactions@ == mid.compactions@
                &&& new.attachments@ == mid.attachments@
                &&& new.attachment_work@ == mid.attachment_work@
                &&& new.feedback@ == mid.feedback@
                &&& new.waits@ == mid.waits@
                &&& new.contexts == mid.contexts && new.validity == mid.validity && new.corpora@ == mid.corpora@ && new.archive == mid.archive
                &&& new.messages == mid.messages
                &&& new.events@ == mid.events@
            },
        }
    }

    /// Why a permit is refused before any allocation is read, if it is.
    pub open spec fn permit_prelim_failure(self, run: Seq<char>, req: PermitRequest) -> Option<i32> {
        if !permit_request_valid(req) {
            Some(INVALID)
        } else if !self.run_active(run) {
            if !self.run_grant_known(run) { Some(MISSING) } else { Some(DENIED) }
        } else if reserved_of(req) > i64::MAX || cost_bound_of(req) > i64::MAX {
            Some(INVALID)
        } else if !self.in_grant(self.run_at(run).grant_id@, self.run_allocation_id(run)) {
            Some(MISSING)
        } else {
            None
        }
    }

    pub open spec fn has_compaction(self, run: Seq<char>, id: Seq<char>) -> bool {
        exists|i: int|
            0 <= i < self.compactions@.len() && #[trigger] self.compactions@[i].id@ == id
                && self.compactions@[i].run_id@ == run
    }

    /// Why a compaction cannot be funded for a run, if it cannot.
    pub open spec fn compaction_failure(self, run: Seq<char>, id: Seq<char>) -> Option<i32> {
        if !self.has_compaction(run, id) {
            Some(DENIED)
        } else if !self.compactions@[choose|i: int|
            0 <= i < self.compactions@.len() && #[trigger] self.compactions@[i].id@ == id
                && self.compactions@[i].run_id@ == run].eligible {
            Some(CONFLICT)
        } else {
            None
        }
    }

    /// The child allocation that funds a compaction of a run from allocation `parent`.
    pub open spec fn compaction_ask(self, run: Seq<char>, summary: Seq<char>, parent: Seq<char>) -> AllocationAsk {
        AllocationAsk {
            id: allocation_id_text("compaction"@, run + ":"@ + summary),
            parent_id: parent,
            cause_id: summary,
            purpose: "compaction"@,
            budget: self.allocation_at(parent).budget,
        }
    }

    /// The compaction allocation `a` was opened on `old` giving `mid`, and the permit was
    /// then decided on `mid`.
    pub open spec fn funded_permit(
        old: Store,
        new: Store,
        mid: Store,
        a: BudgetAllocation,
        run: Seq<char>,
        req: PermitRequest,
        first: Seq<char>,
        now: nat,
        permit_id: Seq<char>,
        r: Result<Permit>,
    ) -> bool {
        let grant_id = old.run_at(run).grant_id@;
        let ask = old.compaction_ask(run, req.compaction_id->0@, first);
        &&& Store::allocate_post(old, mid, grant_id, ask, now, Ok(a))
        &&& Store::permit_core_post(old, new, mid, run, req, a.id@, now, permit_id, r)
    }

    /// Some compaction allocation was opened on `old` and the permit decided on the result.
    pub open spec fn compaction_funded(
        old: Store,
        new: Store,
        run: Seq<char>,
        req: PermitRequest,
        first: Seq<char>,
        now: nat,
        permit_id: Seq<char>,
        r: Result<Permit>,
    ) -> bool {
        exists|mid: Store, a: BudgetAllocation|
            #[trigger] Store::funded_permit(old, new, mid, a, run, req, first, now, permit_id, r)
    }

    /// Why a permit is refused before the decision on its allocation, if it is.
    pub open spec fn permit_early_failure(self, run: Seq<char>, req: PermitRequest, alloc: Option<Seq<char>>, now: nat) -> Option<i32> {
        match self.permit_prelim_failure(run, req) {
            Some(code) => Some(code),
            None => {
                let first = match alloc {
                    Some(a) => a,
                    None => self.run_allocation_id(run),
                };
                let grant_id = self.run_at(run).grant_id@;
                match req.compaction_id {
                    None => None,
                    Some(summary) => match self.compaction_failure(run, summary@) {
                        Some(code) => Some(code),
                        None => if !self.in_grant(grant_id, first) {
                            Some(MISSING)
                        } else {
                            self.allocate_failure(grant_id, self.compaction_ask(run, summary@, first), now)
                        },
                    },
                }
            },
        }
    }

    /// The complete outcome of a permit request at time `now` with a fresh identifier.
    #[verifier::opaque]
    pub open spec fn permit_post(
        old: Store,
        new: Store,
        run: Seq<char>,
        req: PermitRequest,
        alloc: Option<Seq<char>>,
        now: nat,
        permit_id: Seq<char>,
        r: Result<Permit>,
    ) -> bool {
        &&& new.wf()
        &&& match old.permit_prelim_failure(run, req) {
            Some(code) => r matches Err(e) && e.code == code && Store::same(new, old),
            None => {
                let first = match alloc {
                    Some(a) => a,
                    None => old.run_allocation_id(run),
                };
                let grant_id = old.run_at(run).grant_id@;
                match req.compaction_id {
                    None => Store::permit_core_post(old, new, old, run, req, first, now, permit_id, r),
                    Some(summary) => match old.compaction_failure(run, summary@) {
                        Some(code) => r matches Err(e) && e.code == code && Store::same(new, old),
                        None => if !old.in_grant(grant_id, first) {
                            r matches Err(e) && e.code == MISSING && Store::same(new, old)
                        } else {
                            let ask = old.compaction_ask(run, summary@, first);
                            match old.allocate_failure(grant_id, ask, now) {
                                Some(code) => r matches Err(e) && e.code == code && Store::same(new, old),
                                None => Store::compaction_funded(old, new, run, req, first, now, permit_id, r),
                            }
                        },
                    },
                }
            },
        }
    }
}

/// A permit refused before its decision leaves the ledger as it was.
pub proof fn lemma_permit_refused_early(
    old: Store,
    run: Seq<char>,
    req: PermitRequest,
    alloc_opt: Option<Seq<char>>,
    now: nat,
    pid: Seq<char>,
    e: Error,
)
    requires
        old.wf(),
        old.permit_early_failure(run, req, alloc_opt, now) == Some(e.code),
    ensures
        Store::permit_post(old, old, run, req, alloc_opt, now, pid, Err(e)),
{
    reveal(Store::permit_post);
}

/// A successful allocation either found the allocation or appended it.
pub proof fn lemma_allocate_post_shape(old: Store, new: Store, grant_id: Seq<char>, ask: AllocationAsk, now: nat, a: BudgetAllocation)
    requires
        Store::allocate_post(old, new, grant_id, ask, now, Ok(a)),
    ensures
        new.wf(),
        old.allocate_failure(grant_id, ask, now) is None,
        a.id@ == ask.id,
        Store::same(new, old) || {
            &&& new.allocations@ == old.allocations@.push(a)
            &&& new.grants@ == old.grants@
            &&& new.runs@ == old.runs@
            &&& new.run_allocations@ == old.run_allocations@
            &&& new.permits@ == old.permits@
            &&& new.effects@ == old.effects@
            &&& new.work@ == old.work@
            &&& new.compactions@ == old.compactions@
            &&& new.attachments@ == old.attachments@
            &&& new.attachment_work@ == old.attachment_work@
            &&& new.feedback@ == old.feedback@
            &&& new.waits@ == old.waits@
            &&& new.contexts == old.contexts && new.validity == old.validity && new.corpora@ == old.corpora@ && new.archive == old.archive
            &&& new.messages == old.messages
            &&& new.events@ == old.events@
        },
{
    reveal(Store::allocate_post);
    if old.has_allocation(ask.id) {
        lemma_allocation_at_is_stored_acc(old, ask.id);
    }
}

proof fn lemma_allocation_at_is_stored_acc(store: Store, id: Seq<char>)
    requires
        store.keys_unique(),
        store.has_allocation(id),
    ensures
        store.allocation_at(id).id@ == id,
{
}

/// A permit decision that grants nothing leaves the ledger it was decided on.
pub proof fn lemma_core_unchanged(
    mid: Store,
    cf: Store,
    run: Seq<char>,
    req: PermitRequest,
    alloc: Seq<char>,
    now: nat,
    pid: Seq<char>,
    out: Result<Permit>,
)
    requires
        Store::permit_core_post(mid, cf, mid, run, req, alloc, now, pid, out),
        out is Err || !(mid.permit_decision(run, req, alloc, now, pid) is Granted),
    ensures
        Store::same(cf, mid),
        !(mid.permit_decision(run, req, alloc, now, pid) is Granted),
{
    reveal(Store::permit_core_post);
}

/// A permit decision stated against one starting ledger holds against another when
/// refusals and repeats restore that other ledger.
pub proof fn lemma_core_rebase(
    old: Store,
    mid: Store,
    cf: Store,
    new: Store,
    run: Seq<char>,
    req: PermitRequest,
    alloc: Seq<char>,
    now: nat,
    pid: Seq<char>,
    out: Result<Permit>,
)
    requires
        Store::permit_core_post(mid, cf, mid, run, req, alloc, now, pid, out),
        mid.permit_decision(run, req, alloc, now, pid) is Granted ==> new == cf,
        !(mid.permit_decision(run, req, alloc, now, pid) is Granted) ==> Store::same(new, old),
    ensures
        Store::permit_core_post(old, new, mid, run, req, alloc, now, pid, out),
{
    reveal(Store::permit_core_post);
}

/// Assembles the outcome of a permit request from the outcomes of its steps.
pub proof fn lemma_permit_post(
    old: Store,
    new: Store,
    mid: Store,
    run: Seq<char>,
    req: PermitRequest,
    alloc_opt: Option<Seq<char>>,
    first: Seq<char>,
    alloc: Seq<char>,
    made: Option<BudgetAllocation>,
    now: nat,
    pid: Seq<char>,
    out: Result<Permit>,
)
    requires
        new.wf(),
        old.permit_prelim_failure(run, req) is None,
        first == match alloc_opt {
            Some(a) => a,
            None => old.run_allocation_id(run),
        },
        req.compaction_id is None ==> mid == old && alloc == first,
        req.compaction_id is Some ==> {
            let gid = old.run_at(run).grant_id@;
            let ask = old.compaction_ask(run, req.compaction_id->0@, first);
            &&& made is Some
            &&& old.compaction_failure(run, req.compaction_id->0@) is None
            &&& old.in_grant(gid, first)
            &&& Store::allocate_post(old, mid, gid, ask, now, Ok(made->0))
            &&& alloc == made->0.id@
        },
        Store::permit_core_post(old, new, mid, run, req, alloc, now, pid, out),
    ensures
        Store::permit_post(old, new, run, req, alloc_opt, now, pid, out),
{
    reveal(Store::permit_post);
    if req.compaction_id is Some {
        let gid = old.run_at(run).grant_id@;
        let ask = old.compaction_ask(run, req.compaction_id->0@, first);
        lemma_allocate_post_shape(old, mid, gid, ask, now, made->0);
        let a = made->0;
        assert(Store::allocate_post(old, mid, gid, ask, now, Ok(a))
            && Store::permit_core_post(old, new, mid, run, req, a.id@, now, pid, out));
        assert(old.allocate_failure(gid, ask, now) is None);
        assert(Store::funded_permit(old, new, mid, a, run, req, first, now, pid, out));
        assert(Store::compaction_funded(old, new, run, req, first, now, pid, out));
    } else {
        assert(Store::permit_core_post(old, new, old, run, req, first, now, pid, out));
    }
}

/// Ledgers with the same rows are alike in every respect the specifications read.
pub proof fn lemma_same_wf(a: Store, b: Store)
    requires
        a.wf(),
        Store::same(a, b),
    ensures
        b.wf(),
{
    assert(b.keys_unique());
}

/// A granted permit fits the remaining allowance of every owner of its allocation:
/// each still admits a call and covers the reserved tokens and cost.
pub proof fn lemma_owner_refusal_none(store: Store, chain: Seq<BudgetAllocation>, reserved: nat, cost: nat)
    requires
        store.owner_refusal(chain, reserved, cost) is None,
    ensures
        forall|k: int|
            0 <= k < chain.len() ==> {
                let r = store.ledger_remaining((#[trigger] chain[k]).id@);
                &&& r.calls >= 1
                &&& r.tokens >= reserved
                &&& r.cost >= cost
            },
    decreases chain.len(),
{
    if chain.len() > 0 {
        lemma_owner_refusal_none(store, chain.drop_first(), reserved, cost);
        assert forall|k: int| 0 <= k < chain.len() implies {
            let r = store.ledger_remaining((#[trigger] chain[k]).id@);
            &&& r.calls >= 1
            &&& r.tokens >= reserved
            &&& r.cost >= cost
        } by {
            if k > 0 {
                assert(chain[k] == chain.drop_first()[k - 1]);
            }
        }
    }
}


impl Store {
    /// The permit held by a provider call of a run.
    pub fn find_call(&self, run: &String, call: &String) -> (r: Option<usize>)
        requires
            self.wf(),
        ensures
            match r {
                Some(i) => i < self.permits@.len() && self.has_call(run@, call@) && i as int == self.call_index(run@, call@),
                None => !self.has_call(run@, call@),
            },
    {
        let mut i: usize = 0;
        while i < self.permits.len()
            invariant
                self.wf(),
                0 <= i <= self.permits@.len(),
                forall|j: int|
                    0 <= j < i ==> !(#[trigger] self.permits@[j].run_id@ == run@ && opt_view(
                        self.permits@[j].call_id,
                    ) == Some(call@)),
            decreases self.permits@.len() - i,
        {
            let p = &self.permits[i];
            let matches = match &p.call_id {
                Some(c) => p.run_id == *run && *c == *call,
                None => false,
            };
            if matches {
                proof {
                    assert(self.permits@[i as int].run_id@ == run@);
                    let k = self.call_index(run@, call@);
                    if k != i {
                        if k < i {
                        } else {
                            assert(!({
                                &&& self.permits@[i as int].run_id@ == self.permits@[k].run_id@
                                &&& self.permits@[i as int].call_id is Some
                                &&& opt_view(self.permits@[i as int].call_id) == opt_view(self.permits@[k].call_id)
                            }));
                        }
                    }
                }
                return Some(i);
            }
            i = i + 1;
        }
        None
    }

    /// A prepared, still eligible compaction of the run.
    pub fn require_compaction(&self, run: &String, summary: &String) -> (r: Result<()>)
        requires
            self.wf(),
        ensures
            match self.compaction_failure(run@, summary@) {
                Some(code) => r matches Err(e) && e.code == code,
                None => r is Ok,
            },
    {
        let mut i: usize = 0;
        while i < self.compactions.len()
            invariant
                self.wf(),
                0 <= i <= self.compactions@.len(),
                forall|j: int|
                    0 <= j < i ==> !(#[trigger] self.compactions@[j].id@ == summary@ && self.compactions@[j].run_id@ == run@),
            decreases self.compactions@.len() - i,
        {
            let c = &self.compactions[i];
            if c.id == *summary && c.run_id == *run {
                proof {
                    assert(self.compactions@[i as int].id@ == summary@);
                    let k = choose|k: int|
                        0 <= k < self.compactions@.len() && #[trigger] self.compactions@[k].id@ == summary@
                            && self.compactions@[k].run_id@ == run@;
                    if k != i && k > i {
                        assert(self.compactions@[i as int].id@ != self.compactions@[k].id@);
                    }
                }
                if !c.eligible {
                    return Err(Error::conflict("compaction input no longer eligible; authorize a clean continuation"));
                }
                return Ok(());
            }
            i = i + 1;
        }
        Err(Error::denied("compaction does not belong to this run"))
    }

    /// The decision on a permit once its allocation is known. Grants push one permit;
    /// otherwise the ledger is left as it was. The flag tells whether a permit was added.
    fn permit_core(
        &mut self,
        run: &String,
        grant: &Grant,
        request: &PermitRequest,
        alloc: &String,
        run_alloc: &String,
        reserved: u64,
        cost: u64,
        now_ms: u64,
        permit_id: String,
    ) -> (r: Result<(Permit, bool)>)
        requires
            old(self).wf(),
            old(self).run_active(run@),
            grant.id@ == old(self).run_at(run@).grant_id@,
            run_alloc@ == old(self).run_allocation_id(run@),
            reserved as nat == reserved_of(*request),
            cost as nat == cost_bound_of(*request),
            reserved <= i64::MAX,
            cost <= i64::MAX,
        ensures
            final(self).wf(),
            r matches Ok((p, granted)) ==> granted == (old(self).permit_decision(run@, *request, alloc@, now_ms as nat, permit_id@) is Granted),
            Store::permit_core_post(
                *old(self),
                *final(self),
                *old(self),
                run@,
                *request,
                alloc@,
                now_ms as nat,
                permit_id@,
                without_flag(r),
            ),
    {
        proof {
            reveal(Store::permit_core_post);
        }
        if let Some(call) = &request.call_id {
            if let Some(i) = self.find_call(run, call) {
                let prev = &self.permits[i];
                if !permit_request_eq(&prev.request, request) || prev.allocation_id != *alloc {
                    return Err(Error::conflict("provider call identity or allocation changed"));
                }
                return Ok((Permit { id: prev.id.clone(), max_output_tokens: request.max_output_tokens }, false));
            }
        }
        let ancestry = self.require_allocation_open(grant, alloc, now_ms)?;
        proof {
            lemma_ancestry_stored(*self, grant.id@, alloc@);
        }
        let ghost c = ancestry@;
        let mut found = false;
        let mut i: usize = 0;
        while i < ancestry.len()
            invariant
                c == ancestry@,
                0 <= i <= c.len(),
                found == exists|k: int| 0 <= k < i && (#[trigger] c[k]).id@ == run_alloc@,
            decreases c.len() - i,
        {
            if ancestry[i].id == *run_alloc {
                found = true;
            }
            i = i + 1;
        }
        if !found {
            return Err(Error::denied("provider allocation is outside this run"));
        }
        assert(c.subrange(0, c.len() as int) =~= c);
        let mut i: usize = 0;
        while i < ancestry.len()
            invariant
                self.wf(),
                c == ancestry@,
                0 <= i <= c.len(),
                grant.id@ == self.run_at(run@).grant_id@,
                run_alloc@ == self.run_allocation_id(run@),
                self.ancestry(grant.id@, alloc@) == Ancestry::Chain(c),
                open_failure(c, alloc@, now_ms as nat) is None,
                exists|k: int| 0 <= k < c.len() && (#[trigger] c[k]).id@ == run_alloc@,
                !(request.call_id is Some && self.has_call(run@, request.call_id->0@)),
                reserved as nat == reserved_of(*request),
                cost as nat == cost_bound_of(*request),
                forall|k: int|
                    0 <= k < c.len() ==> {
                        &&& self.has_allocation((#[trigger] c[k]).id@)
                        &&& self.allocation_at(c[k].id@) == c[k]
                    },
                self.owner_refusal(c, reserved as nat, cost as nat) == self.owner_refusal(
                    c.subrange(i as int, c.len() as int),
                    reserved as nat,
                    cost as nat,
                ),
            decreases c.len() - i,
        {
            proof {
                reveal(Store::permit_core_post);
            }
            let owner = &ancestry[i];
            let ghost rest = c.subrange(i as int, c.len() as int);
            assert(rest[0] == c[i as int]);
            assert(rest.drop_first() =~= c.subrange(i + 1, c.len() as int));
            let g = self.grant(&owner.grant_id)?;
            proof {
                let j = choose|j: int| 0 <= j < self.grants@.len() && #[trigger] self.grants@[j].id@ == owner.grant_id@;
            }
            let status = self.allocation_ledger_status(g, &owner.id)?;
            proof {
                lemma_decimal_roundtrip(self.ledger_remaining(owner.id@).tokens);
                lemma_decimal_roundtrip(self.ledger_remaining(owner.id@).cost);
            }
            let tokens = match counter(status.remaining.max_tokens.as_str()) {
                Ok(v) => v,
                Err(e) => return Err(e),
            };
            let money = match counter(status.remaining.max_cost_microusd.as_str()) {
                Ok(v) => v,
                Err(e) => return Err(e),
            };
            if status.remaining.max_calls == 0 || reserved > tokens || cost > money {
                return Err(Error::exhausted("root or child model budget exhausted"));
            }
            i = i + 1;
        }
        assert(c.subrange(c.len() as int, c.len() as int) =~= Seq::<BudgetAllocation>::empty());
        if self.find_permit(&permit_id).is_some() {
            return Err(Error::internal("permit identifier already exists"));
        }
        let state = if request.call_id.is_some() {
            PermitState::Reserved
        } else {
            PermitState::Dispatched
        };
        let permit = Permit { id: permit_id.clone(), max_output_tokens: request.max_output_tokens };
        let entry = PermitEntry {
            id: permit_id,
            grant_id: grant.id.clone(),
            run_id: run.clone(),
            reserved_tokens: reserved,
            reserved_cost: cost,
            compaction_id: request.compaction_id.clone(),
            allocation_id: alloc.clone(),
            call_id: request.call_id.clone(),
            request: request.clone(),
            state,
            usage: None,
            dispatched_ms: None,
            observed_ms: None,
        };
        let ghost old_store = *self;
        self.permits.push(entry);
        proof {
            let n = old_store.permits@.len() as int;
            assert forall|p: int, q: int|
                0 <= p < q < self.permits@.len() implies #[trigger] self.permits@[p].id@
                    != #[trigger] self.permits@[q].id@ by {
                if q == n {
                    if self.permits@[p].id@ == entry.id@ {
                        assert(old_store.permits@[p].id@ == entry.id@);
                    }
                } else {
                    assert(old_store.permits@[p].id@ != old_store.permits@[q].id@);
                }
            }
            assert forall|p: int, q: int|
                0 <= p < q < self.permits@.len() implies !({
                    &&& #[trigger] self.permits@[p].run_id@ == #[trigger] self.permits@[q].run_id@
                    &&& self.permits@[p].call_id is Some
                    &&& opt_view(self.permits@[p].call_id) == opt_view(self.permits@[q].call_id)
                }) by {
                if q == n {
                    if self.permits@[p].run_id@ == run@ && self.permits@[p].call_id is Some
                        && opt_view(self.permits@[p].call_id) == opt_view(entry.call_id) {
                        assert(old_store.permits@[p] == self.permits@[p]);
                        assert(old_store.has_call(run@, request.call_id->0@));
                    }
                } else {
                    assert(old_store.permits@[p] == self.permits@[p]);
                    assert(old_store.permits@[q] == self.permits@[q]);
                }
            }
            assert forall|p: int| 0 <= p < self.permits@.len() implies {
                &&& (#[trigger] self.permits@[p]).reserved_tokens <= i64::MAX
                &&& self.permits@[p].reserved_cost <= i64::MAX
            } by {
                if p < n {
                    assert(self.permits@[p] == old_store.permits@[p]);
                }
            }
            assert(self.permits@.drop_last() =~= old_store.permits@);
        }
        Ok((permit, true))
    }
}


/// The permit row `q` is row `p` with only its lifecycle, usage and timestamps changed.
pub open spec fn same_permit_identity(p: PermitEntry, q: PermitEntry) -> bool {
    &&& q.id == p.id
    &&& q.grant_id == p.grant_id
    &&& q.run_id == p.run_id
    &&& q.compaction_id == p.compaction_id
    &&& q.allocation_id == p.allocation_id
    &&& q.call_id == p.call_id
    &&& q.request == p.request
}

/// Replacing a permit row by one with the same identity keeps the ledger well formed.
pub proof fn lemma_wf_permit_update(old: Store, new: Store, i: int, p: PermitEntry)
    requires
        old.wf(),
        0 <= i < old.permits@.len(),
        new.permits@ == old.permits@.update(i, p),
        new.grants == old.grants,
        new.runs == old.runs,
        new.allocations == old.allocations,
        new.run_allocations == old.run_allocations,
        new.compactions == old.compactions,
        new.waits == old.waits,
        new.contexts == old.contexts && new.validity == old.validity && new.corpora@ == old.corpora@ && new.archive == old.archive,
        new.messages == old.messages,
        new.events@ == old.events@,
        new.work == old.work,
        new.attachments == old.attachments,
        new.attachment_work == old.attachment_work,
        new.feedback == old.feedback,
        same_permit_identity(old.permits@[i], p),
        p.reserved_tokens <= i64::MAX,
        p.reserved_cost <= i64::MAX,
    ensures
        new.wf(),
{
    assert forall|a: int, b: int|
        0 <= a < b < new.permits@.len() implies #[trigger] new.permits@[a].id@ != #[trigger] new.permits@[b].id@ by {
        assert(old.permits@[a].id@ != old.permits@[b].id@);
    }
    assert forall|a: int, b: int|
        0 <= a < b < new.permits@.len() implies !({
            &&& #[trigger] new.permits@[a].run_id@ == #[trigger] new.permits@[b].run_id@
            &&& new.permits@[a].call_id is Some
            &&& opt_view(new.permits@[a].call_id) == opt_view(new.permits@[b].call_id)
        }) by {
        assert(!({
            &&& old.permits@[a].run_id@ == old.permits@[b].run_id@
            &&& old.permits@[a].call_id is Some
            &&& opt_view(old.permits@[a].call_id) == opt_view(old.permits@[b].call_id)
        }));
    }
    assert forall|a: int| 0 <= a < new.permits@.len() implies {
        &&& (#[trigger] new.permits@[a]).reserved_tokens <= i64::MAX
        &&& new.permits@[a].reserved_cost <= i64::MAX
    } by {
        if a != i {
            assert(new.permits@[a] == old.permits@[a]);
        }
    }
}

impl Store {
    /// The permit row with this identifier.
    pub open spec fn permit_row(self, id: Seq<char>) -> PermitEntry {
        self.permits@[self.permit_index(id)]
    }

    /// Why a permit of a run cannot be dispatched at time `now`, if it cannot.
    pub open spec fn dispatch_failure(self, run: Seq<char>, permit: Seq<char>, now: nat) -> Option<i32> {
        if !self.run_active(run) {
            if !self.run_grant_known(run) { Some(MISSING) } else { Some(DENIED) }
        } else if !(self.has_permit(permit) && self.permit_row(permit).run_id@ == run
            && self.permit_row(permit).state == PermitState::Reserved) {
            Some(CONFLICT)
        } else {
            let alloc = self.permit_row(permit).allocation_id@;
            match self.ancestry(self.run_at(run).grant_id@, alloc) {
                Ancestry::Chain(c) => open_failure(c, alloc, now),
                a => Some(ancestry_code(a)),
            }
        }
    }

    /// The ledger `new` is `old` with the row of permit `permit` replaced by `row`.
    pub open spec fn permit_set(old: Store, new: Store, permit: Seq<char>, row: PermitEntry) -> bool {
        &&& new.permits@ == old.permits@.update(old.permit_index(permit), row)
        &&& new.grants@ == old.grants@
        &&& new.runs@ == old.runs@
        &&& new.allocations@ == old.allocations@
        &&& new.run_allocations@ == old.run_allocations@
        &&& new.effects@ == old.effects@
        &&& new.work@ == old.work@
        &&& new.compactions@ == old.compactions@
        &&& new.attachments@ == old.attachments@
        &&& new.attachment_work@ == old.attachment_work@
        &&& new.feedback@ == old.feedback@
        &&& new.waits@ == old.waits@
        &&& new.contexts == old.contexts && new.validity == old.validity && new.corpora@ == old.corpora@ && new.archive == old.archive
        &&& new.messages == old.messages
        &&& new.events@ == old.events@
    }

    /// The outcome of releasing a run's permit.
    pub open spec fn release_post(old: Store, new: Store, run: Seq<char>, permit: Seq<char>, r: Result<()>) -> bool {
        match old.release_failure(run, permit) {
            Some(code) => r matches Err(e) && e.code == code && Store::same(new, old),
            None => r is Ok && Store::permit_set(old, new, permit,
                PermitEntry { state: PermitState::Released, ..old.permit_row(permit) }),
        }
    }

    /// Why a permit of a run cannot be released, if it cannot.
    pub open spec fn release_failure(self, run: Seq<char>, permit: Seq<char>) -> Option<i32> {
        if !(self.has_permit(permit) && self.permit_row(permit).run_id@ == run) {
            Some(MISSING)
        } else if !(self.permit_row(permit).state == PermitState::Reserved
            || self.permit_row(permit).state == PermitState::Released) {
            Some(CONFLICT)
        } else {
            None
        }
    }

    /// Why usage cannot be recorded for a run's permit, if it cannot.
    pub open spec fn usage_failure(self, run: Seq<char>, u: Usage) -> Option<i32> {
        if !usage_valid(u) {
            Some(INVALID)
        } else if !(self.has_permit(u.permit_id@) && self.permit_row(u.permit_id@).run_id@ == run) {
            Some(MISSING)
        } else {
            let p = self.permit_row(u.permit_id@);
            match p.usage {
                Some(prev) => if same_usage(prev, u) { None } else { Some(CONFLICT) },
                None => if p.state != PermitState::Dispatched {
                    Some(CONFLICT)
                } else if usage_tokens(u) > i64::MAX || decimal_value(u.cost_microusd@) > i64::MAX {
                    Some(INVALID)
                } else {
                    None
                },
            }
        }
    }

    pub fn find_permit_of_run(&self, run: &String, permit: &String) -> (r: Option<usize>)
        requires
            self.wf(),
        ensures
            match r {
                Some(i) => i < self.permits@.len() && self.has_permit(permit@) && i as int == self.permit_index(permit@)
                    && self.permits@[i as int].run_id@ == run@,
                None => !(self.has_permit(permit@) && self.permit_row(permit@).run_id@ == run@),
            },
    {
        match self.find_permit(permit) {
            None => None,
            Some(i) => {
                proof {
                    let k = self.permit_index(permit@);
                    if k != i {
                        if k < i {
                            assert(self.permits@[k].id@ != self.permits@[i as int].id@);
                        } else {
                            assert(self.permits@[i as int].id@ != self.permits@[k].id@);
                        }
                    }
                }
                if self.permits[i].run_id == *run {
                    Some(i)
                } else {
                    None
                }
            },
        }
    }

    /// Reserves a provider call against allocation `allocation` (by default the run's
    /// own) at time `now_ms`, under the fresh identifier `permit_id`. A compaction permit
    /// is funded by a child allocation of the same ceilings. A repeated call identity
    /// returns its permit; the reservation must fit every owner's remaining allowance.
    /// Only a granted permit changes the ledger.
    #[verifier::rlimit(60)]
    #[verifier::spinoff_prover]
    pub fn permit_in_allocation_at(
        &mut self,
        run_id: &String,
        request: &PermitRequest,
        allocation: Option<&String>,
        now_ms: u64,
        permit_id: String,
    ) -> (r: Result<Permit>)
        requires
            old(self).wf(),
        ensures
            Store::permit_post(
                *old(self),
                *final(self),
                run_id@,
                *request,
                match allocation {
                    Some(a) => Some(a@),
                    None => None,
                },
                now_ms as nat,
                permit_id@,
                r,
            ),
    {
        let ghost alloc_view = match allocation {
            Some(a) => Some(a@),
            None => None,
        };
        let ghost pid0 = permit_id@;
        let (input, money) = match (
            counter(request.input_tokens_bound.as_str()),
            counter(request.cost_microusd_bound.as_str()),
        ) {
            (Ok(a), Ok(b)) => (a, b),
            _ => {
                let e = Error::invalid("permit bounds must be decimal counters");
                proof {
                    lemma_permit_refused_early(*self, run_id@, *request, alloc_view, now_ms as nat, pid0, e);
                }
                return Err(e);
            },
        };
        let grant = match self.require_active(run_id) {
            Ok(g) => g.clone(),
            Err(e) => {
                proof {
                    lemma_permit_refused_early(*self, run_id@, *request, alloc_view, now_ms as nat, pid0, e);
                }
                return Err(e);
            },
        };
        let reserved = match input.checked_add(request.max_output_tokens as u64) {
            Some(v) => v,
            None => {
                let e = Error::invalid("token bound overflow");
                proof {
                    lemma_permit_refused_early(*self, run_id@, *request, alloc_view, now_ms as nat, pid0, e);
                }
                return Err(e);
            },
        };
        if reserved > i64::MAX as u64 || money > i64::MAX as u64 {
            let e = Error::invalid("reservation exceeds local accounting range");
            proof {
                lemma_permit_refused_early(*self, run_id@, *request, alloc_view, now_ms as nat, pid0, e);
            }
            return Err(e);
        }
        let run_allocation = match self.run_allocation_in(run_id) {
            Ok(a) => a,
            Err(e) => {
                proof {
                    lemma_permit_refused_early(*self, run_id@, *request, alloc_view, now_ms as nat, pid0, e);
                }
                return Err(e);
            },
        };
        let mut alloc: String = match allocation {
            Some(a) => a.clone(),
            None => run_allocation.id.clone(),
        };
        proof {
            crate::allocations::lemma_allocation_at_is_stored(*self, self.run_allocation_id(run_id@));
        }
        let ghost old_store = *self;
        let ghost first = alloc@;
        assert(first == match allocation {
            Some(a) => a@,
            None => old_store.run_allocation_id(run_id@),
        });
        assert(old_store.permit_prelim_failure(run_id@, *request) is None);
        let ghost mut made: Option<BudgetAllocation> = None;
        let alloc_len = self.allocations.len();
        if let Some(summary) = &request.compaction_id {
            match self.require_compaction(run_id, summary) {
                Ok(()) => {},
                Err(e) => {
                    proof {
                        lemma_permit_refused_early(*self, run_id@, *request, alloc_view, now_ms as nat, pid0, e);
                    }
                    return Err(e);
                },
            }
            let parent = match self.allocation(&grant, &alloc) {
                Ok(p) => p,
                Err(e) => {
                    proof {
                        lemma_permit_refused_early(*self, run_id@, *request, alloc_view, now_ms as nat, pid0, e);
                    }
                    return Err(e);
                },
            };
            proof {
                reveal_strlit(":");
                reveal_strlit("compaction");
            }
            let mut cause = run_id.clone();
            cause.append(":");
            cause.append(summary.as_str());
            let creq = BudgetAllocationRequest {
                id: allocation_id("compaction", cause.as_str()),
                parent_id: parent.id.clone(),
                cause_id: summary.clone(),
                purpose: "compaction".to_owned(),
                budget: parent.budget.clone(),
            };
            assert(ask_of(creq) == old_store.compaction_ask(run_id@, summary@, alloc@));
            let created = match self.allocate_in(&grant, &creq, now_ms) {
                Ok(a) => a,
                Err(e) => {
                    proof {
                        reveal(Store::allocate_post);
                        lemma_permit_refused_early(old_store, run_id@, *request, alloc_view, now_ms as nat, pid0, e);
                    }
                    return Err(e);
                },
            };
            proof {
                made = Some(created);
                assert(Store::allocate_post(old_store, *self, grant.id@, ask_of(creq), now_ms as nat, Ok(created)));
            }
            alloc = created.id;
        }
        let ghost mid = *self;
        let ghost pid = permit_id@;
        proof {
            if let Some(m) = made {
                lemma_allocate_post_shape(old_store, mid, old_store.run_at(run_id@).grant_id@,
                    old_store.compaction_ask(run_id@, request.compaction_id->0@, first), now_ms as nat, m);
            }
        }
        let result = self.permit_core(
            run_id,
            &grant,
            request,
            &alloc,
            &run_allocation.id,
            reserved,
            money,
            now_ms,
            permit_id,
        );
        let ghost cf = *self;
        let ghost out0 = without_flag(result);
        let out: Result<Permit> = match result {
            Ok((p, granted)) => {
                if !granted {
                    proof {
                        lemma_core_unchanged(mid, cf, run_id@, *request, alloc@, now_ms as nat, pid, out0);
                    }
                    self.allocations.truncate(alloc_len);
                    proof {
                        assert(self.allocations@ =~= old_store.allocations@);
                        lemma_same_wf(old_store, *self);
                    }
                }
                Ok(p)
            },
            Err(e) => {
                proof {
                    lemma_core_unchanged(mid, cf, run_id@, *request, alloc@, now_ms as nat, pid, out0);
                }
                self.allocations.truncate(alloc_len);
                proof {
                    assert(self.allocations@ =~= old_store.allocations@);
                    lemma_same_wf(old_store, *self);
                }
                Err(e)
            },
        };
        proof {
            lemma_core_rebase(old_store, mid, cf, *self, run_id@, *request, alloc@, now_ms as nat, pid, out);
            lemma_permit_post(old_store, *self, mid, run_id@, *request,
                match allocation { Some(a) => Some(a@), None => None }, first, alloc@, made, now_ms as nat, pid, out);
        }
        out
    }
}


/// The allocation named by an optional reference, as text.
pub open spec fn opt_ref_view(a: Option<&String>) -> Option<Seq<char>> {
    match a {
        Some(s) => Some(s@),
        None => None,
    }
}

impl Store {
    /// Reserves a provider call now, under a fresh random identifier; see
    /// `permit_in_allocation_at` for the decision taken at that time.
    pub fn permit_in_allocation(
        &mut self,
        run_id: &String,
        request: &PermitRequest,
        allocation: Option<&String>,
    ) -> (r: Result<Permit>)
        requires
            old(self).wf(),
        ensures
            exists|now: nat, id: Seq<char>|
                #[trigger] Store::permit_post(*old(self), *final(self), run_id@, *request, opt_ref_view(allocation), now, id, r),
    {
        let now = now_ms();
        let id = new_id();
        let ghost id_view = id@;
        let r = self.permit_in_allocation_at(run_id, request, allocation, now, id);
        assert(Store::permit_post(*old(self), *self, run_id@, *request, opt_ref_view(allocation), now as nat, id_view, r));
        r
    }

    /// Reserves a provider call against the run's own allocation.
    pub fn permit(&mut self, run_id: &String, request: &PermitRequest) -> (r: Result<Permit>)
        requires
            old(self).wf(),
        ensures
            exists|now: nat, id: Seq<char>|
                #[trigger] Store::permit_post(*old(self), *final(self), run_id@, *request, None, now, id, r),
    {
        self.permit_in_allocation(run_id, request, None)
    }

    /// The permit of a provider call of a run.
    pub fn lookup_permit(&self, run: &String, call: &String) -> (r: Result<Permit>)
        requires
            self.wf(),
        ensures
            self.has_call(run@, call@) ==> (r matches Ok(p) && {
                let row = self.permits@[self.call_index(run@, call@)];
                &&& p.id@ == row.id@
                &&& p.max_output_tokens == row.request.max_output_tokens
            }),
            !self.has_call(run@, call@) ==> (r matches Err(e) && e.code == MISSING),
    {
        match self.find_call(run, call) {
            Some(i) => Ok(Permit {
                id: self.permits[i].id.clone(),
                max_output_tokens: self.permits[i].request.max_output_tokens,
            }),
            None => Err(Error::missing("provider call not found for run")),
        }
    }
}


impl Store {
    /// Releases a permit whose transport never started; releasing twice is harmless.
    pub fn release_permit(&mut self, run: &String, permit: &String) -> (r: Result<()>)
        requires
            old(self).wf(),
        ensures
            final(self).wf(),
            Store::release_post(*old(self), *final(self), run@, permit@, r),
    {
        let i = match self.find_permit_of_run(run, permit) {
            Some(i) => i,
            None => return Err(Error::missing("permit not found for run")),
        };
        let state = self.permits[i].state;
        if state != PermitState::Reserved && state != PermitState::Released {
            return Err(Error::conflict("dispatched or settled usage cannot be released"));
        }
        let ghost old_store = *self;
        self.permits[i].state = PermitState::Released;
        proof {
            assert(self.permits@ =~= old_store.permits@.update(i as int,
                PermitEntry { state: PermitState::Released, ..old_store.permits@[i as int] }));
            lemma_wf_permit_update(old_store, *self, i as int, self.permits@[i as int]);
        }
        Ok(())
    }
}


impl Store {
    /// The outcome of dispatching a run's permit at time `now`.
    pub open spec fn dispatch_post(old: Store, new: Store, run: Seq<char>, permit: Seq<char>, now: u64, r: Result<()>) -> bool {
        match old.dispatch_failure(run, permit, now as nat) {
            Some(code) => r matches Err(e) && e.code == code && Store::same(new, old),
            None => r is Ok && Store::permit_set(old, new, permit,
                PermitEntry { state: PermitState::Dispatched, dispatched_ms: Some(now), ..old.permit_row(permit) }),
        }
    }

    /// Marks a reserved permit of a running run dispatched at time `now_ms`, once its
    /// allocation chain is still open then. Only an undispatched permit may be dispatched,
    /// so provider transport is never repeated.
    pub fn dispatch_permit_at(&mut self, run: &String, permit: &String, now_ms: u64) -> (r: Result<()>)
        requires
            old(self).wf(),
        ensures
            final(self).wf(),
            Store::dispatch_post(*old(self), *final(self), run@, permit@, now_ms, r),
    {
        let grant = self.require_active(run)?;
        let i = match self.find_permit_of_run(run, permit) {
            Some(i) => i,
            None => return Err(Error::conflict("permit is not undispatched; do not repeat provider transport")),
        };
        if self.permits[i].state != PermitState::Reserved {
            return Err(Error::conflict("permit is not undispatched; do not repeat provider transport"));
        }
        self.require_allocation_open(grant, &self.permits[i].allocation_id, now_ms)?;
        let ghost old_store = *self;
        self.permits[i].state = PermitState::Dispatched;
        self.permits[i].dispatched_ms = Some(now_ms);
        proof {
            assert(self.permits@ =~= old_store.permits@.update(i as int,
                PermitEntry {
                    state: PermitState::Dispatched,
                    dispatched_ms: Some(now_ms),
                    ..old_store.permits@[i as int]
                }));
            lemma_wf_permit_update(old_store, *self, i as int, self.permits@[i as int]);
        }
        Ok(())
    }

    /// Marks a reserved permit dispatched now.
    pub fn dispatch_permit(&mut self, run: &String, permit: &String) -> (r: Result<()>)
        requires
            old(self).wf(),
        ensures
            final(self).wf(),
            exists|now: u64| #[trigger] Store::dispatch_post(*old(self), *final(self), run@, permit@, now, r),
    {
        let now = now_ms();
        let r = self.dispatch_permit_at(run, permit, now);
        assert(Store::dispatch_post(*old(self), *self, run@, permit@, now, r));
        r
    }
}


/// The row of a permit after usage `u` was observed at time `now`: complete usage replaces
/// the reservation and settles the permit; partial usage is only recorded.
pub open spec fn observed_row(row: PermitEntry, u: Usage, now: u64) -> PermitEntry {
    if u.complete {
        PermitEntry {
            usage: Some(u),
            reserved_tokens: usage_tokens(u) as u64,
            reserved_cost: decimal_value(u.cost_microusd@) as u64,
            state: PermitState::Settled,
            observed_ms: Some(now),
            ..row
        }
    } else {
        PermitEntry { usage: Some(u), observed_ms: Some(now), ..row }
    }
}

impl Store {
    /// The outcome of recording usage `u` for a run's permit at time `now`. Repeating
    /// the recorded usage changes nothing.
    pub open spec fn usage_post(old: Store, new: Store, run: Seq<char>, u: Usage, now: u64, r: Result<()>) -> bool {
        match old.usage_failure(run, u) {
            Some(code) => r matches Err(e) && e.code == code && Store::same(new, old),
            None => r is Ok && if old.permit_row(u.permit_id@).usage is Some {
                Store::same(new, old)
            } else {
                Store::permit_set(old, new, u.permit_id@, observed_row(old.permit_row(u.permit_id@), u, now))
            },
        }
    }

    /// Records usage observed for a dispatched permit of a run at time `now_ms`.
    pub fn usage_at(&mut self, run_id: &String, usage: &Usage, now_ms: u64) -> (r: Result<()>)
        requires
            old(self).wf(),
        ensures
            final(self).wf(),
            Store::usage_post(*old(self), *final(self), run_id@, *usage, now_ms, r),
    {
        let (input, output, cost) = match (
            counter(usage.input_tokens.as_str()),
            counter(usage.output_tokens.as_str()),
            counter(usage.cost_microusd.as_str()),
        ) {
            (Ok(a), Ok(b), Ok(c)) => (a, b, c),
            _ => return Err(Error::invalid("usage counters must be decimal strings")),
        };
        let i = match self.find_permit_of_run(run_id, &usage.permit_id) {
            Some(i) => i,
            None => return Err(Error::missing("permit not found for run")),
        };
        if let Some(prev) = &self.permits[i].usage {
            if usage_eq(prev, usage) {
                return Ok(());
            } else {
                return Err(Error::conflict("usage already recorded"));
            }
        }
        if self.permits[i].state != PermitState::Dispatched {
            return Err(Error::conflict("usage requires a dispatched permit"));
        }
        let tokens = match input.checked_add(output) {
            Some(t) => t,
            None => return Err(Error::invalid("usage overflow")),
        };
        if tokens > i64::MAX as u64 || cost > i64::MAX as u64 {
            return Err(Error::invalid("usage exceeds local accounting range"));
        }
        let ghost old_store = *self;
        if usage.complete {
            self.permits[i].usage = Some(usage.clone());
            self.permits[i].reserved_tokens = tokens;
            self.permits[i].reserved_cost = cost;
            self.permits[i].state = PermitState::Settled;
            self.permits[i].observed_ms = Some(now_ms);
        } else {
            self.permits[i].usage = Some(usage.clone());
            self.permits[i].observed_ms = Some(now_ms);
        }
        proof {
            assert(self.permits@ =~= old_store.permits@.update(i as int,
                observed_row(old_store.permits@[i as int], *usage, now_ms)));
            lemma_wf_permit_update(old_store, *self, i as int, self.permits@[i as int]);
        }
        Ok(())
    }

    /// Records usage observed for a dispatched permit of a run now.
    pub fn usage(&mut self, run_id: &String, usage: &Usage) -> (r: Result<()>)
        requires
            old(self).wf(),
        ensures
            final(self).wf(),
            exists|now: u64| #[trigger] Store::usage_post(*old(self), *final(self), run_id@, *usage, now, r),
    {
        let now = now_ms();
        let r = self.usage_at(run_id, usage, now);
        assert(Store::usage_post(*old(self), *self, run_id@, *usage, now, r));
        r
    }
}

} // verus!
