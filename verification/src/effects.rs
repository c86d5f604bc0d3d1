//! The host runtime around the ledger, and what a receipt says about reconciliation.

use vstd::prelude::*;
use crate::allocations::{ancestry_code, lemma_ancestry_stored, Ancestry};
use crate::contracts::{
    Action, ActionKind, ActionReceipt, ArtifactRef, EffectOutcomeBasis, BudgetAllocation, EffectSettlement, EffectSettlementRequest,
    EffectStatus, Grant, Mode, PropertyBinding, VersionRef,
};
use crate::decimal::{counter, decimal_repr, decimal_string};
use crate::digest::{hash, hash_text};
use crate::effect_validation::{find_at, first_at};
use crate::host::HostReport;
use crate::parking::clone_ids;
use vstd::utf8::encode_utf8;
use crate::error::{Error, Result, CONFLICT, DENIED, EXHAUSTED, INTERNAL, MISSING};
use crate::store::{budget_valid, deadline_of, EffectEntry, EffectPhase, Store};
use crate::accounting::new_id;
use crate::clock::now_ms;
use crate::compare::opt_text;

verus! {

/// The host runtime: the ledger it serves. The workspace adapter, files and
/// cancellation registry stay with the program that drives it.
pub struct Runtime {
    pub store: Store,
}

impl ActionReceipt {
    /// The effect may have started and its owner has not yet settled what happened.
    pub open spec fn needs_reconciliation(&self) -> bool {
        self.status == EffectStatus::Started || (self.status == EffectStatus::Unknown && self.settlement is None)
    }

    pub fn requires_reconciliation(&self) -> (r: bool)
        ensures
            r == self.needs_reconciliation(),
    {
        self.status == EffectStatus::Started || (self.status == EffectStatus::Unknown && self.settlement.is_none())
    }
}


/// The text a receipt shows once its content is withheld.
pub open spec fn withheld_output() -> Seq<char> {
    "Receipt content withheld because its sources are unavailable or unverified."@
}

/// The reason a withheld settlement shows.
pub open spec fn withheld_reason() -> Seq<char> {
    "Source content withheld."@
}

impl ActionReceipt {
    /// `new` is `old` with its content withheld: no action content, output, side
    /// effects, validations or restorations, and a settlement without reason or sources.
    pub open spec fn is_withheld(old: ActionReceipt, new: ActionReceipt) -> bool {
        &&& new == ActionReceipt {
            content_available: Some(false),
            action: Action { content: None, ..old.action },
            output: new.output,
            side_effects: new.side_effects,
            validations: None,
            restored_validity: None,
            restored_properties: None,
            settlement: match old.settlement {
                Some(st) => Some(EffectSettlement {
                    request: EffectSettlementRequest {
                        reason: new.settlement->0.request.reason,
                        source_refs: new.settlement->0.request.source_refs,
                        ..st.request
                    },
                    ..st
                }),
                None => None,
            },
            ..old
        }
        &&& new.output@ == withheld_output()
        &&& new.side_effects@.len() == 0
        &&& new.settlement matches Some(st) ==> st.request.reason@ == withheld_reason()
            && st.request.source_refs@.len() == 0
    }

    /// Withholds the receipt's content because its sources are unavailable or unverified.
    pub fn withhold_content(&mut self)
        ensures
            ActionReceipt::is_withheld(*old(self), *final(self)),
    {
        self.content_available = Some(false);
        self.action.content = None;
        self.output = "Receipt content withheld because its sources are unavailable or unverified.".to_owned();
        self.side_effects.clear();
        self.validations = None;
        self.restored_validity = None;
        self.restored_properties = None;
        let settlement = self.settlement.take();
        match settlement {
            Some(mut st) => {
                st.request.reason = "Source content withheld.".to_owned();
                st.request.source_refs.clear();
                self.settlement = Some(st);
            },
            None => {},
        }
    }
}

impl Store {
    /// The receipt as delivered to a grant, given whether its evidence source and its
    /// settlement's evidence source are still available to that grant: content is
    /// withheld unless it was captured and every source it rests on is available.
    pub fn receipt_for_delivery(&self, receipt: ActionReceipt, evidence_available: bool, settlement_evidence_available: bool) -> (r: ActionReceipt)
        ensures
            if receipt.content_available == Some(true) && receipt.evidence_ref is Some && evidence_available
                && (receipt.settlement is Some ==> settlement_evidence_available) {
                r == receipt
            } else {
                ActionReceipt::is_withheld(receipt, r)
            },
    {
        let mut receipt = receipt;
        let mut available = receipt.content_available == Some(true);
        if receipt.evidence_ref.is_some() {
            available = available && evidence_available;
        } else {
            available = false;
        }
        if receipt.settlement.is_some() {
            available = available && settlement_evidence_available;
        }
        if !available {
            receipt.withhold_content();
        }
        receipt
    }
}

/// A branch an effect created, with its path as text.
#[derive(Debug)]
pub struct CreatedBranch {
    pub id: String,
    pub path: String,
    pub versions: Vec<ArtifactRef>,
}

/// Checks pinned for an effect before it runs.
#[derive(Debug)]
pub struct EffectPreflight {
    pub checks: Vec<(String, String)>,
    pub intervention: Option<VersionRef>,
    pub properties: Vec<PropertyBinding>,
}

impl Default for EffectPreflight {
    fn default() -> (r: Self)
        ensures
            r.checks@.len() == 0,
            r.intervention is None,
            r.properties@.len() == 0,
    {
        EffectPreflight { checks: Vec::new(), intervention: None, properties: Vec::new() }
    }
}

/// Captured adapter evidence for an effect, durable before the ledger's bookkeeping.
#[derive(Debug)]
pub struct EffectObservation {
    pub receipt: ActionReceipt,
    pub writes: Vec<String>,
    pub validation_generation: i64,
    pub branch: Option<CreatedBranch>,
    pub preflight: EffectPreflight,
}

impl EffectObservation {
    /// An observation of the receipt alone: no writes, generation 0, no branch and
    /// no pinned checks.
    pub fn new(receipt: ActionReceipt) -> (r: Self)
        ensures
            r.receipt == receipt,
            r.writes@.len() == 0,
            r.validation_generation == 0,
            r.branch is None,
            r.preflight.checks@.len() == 0,
            r.preflight.intervention is None,
            r.preflight.properties@.len() == 0,
    {
        EffectObservation {
            receipt,
            writes: Vec::new(),
            validation_generation: 0,
            branch: None,
            preflight: EffectPreflight::default(),
        }
    }
}


impl Store {
    /// Effects recorded under grant `grant` among `es`.
    pub open spec fn grant_effect_count(es: Seq<EffectEntry>, grant: Seq<char>) -> nat
        decreases es.len(),
    {
        if es.len() == 0 {
            0
        } else {
            Store::grant_effect_count(es.drop_last(), grant) + if es.last().grant_id@ == grant { 1nat } else { 0nat }
        }
    }

    /// The first owner on the chain that refuses another action at time `now`, and why:
    /// its deadline passed or its actions already exceed its ceiling.
    pub open spec fn action_refusal(self, chain: Seq<BudgetAllocation>, now: nat) -> Option<i32>
        decreases chain.len(),
    {
        if chain.len() == 0 {
            None
        } else if now >= deadline_of(chain[0].budget) {
            Some(EXHAUSTED)
        } else if !self.has_grant(chain[0].grant_id@) {
            Some(MISSING)
        } else if !self.in_grant(chain[0].grant_id@, chain[0].id@) {
            Some(MISSING)
        } else if !self.ledger_fits(chain[0].id@) {
            Some(INTERNAL)
        } else if self.actions(chain[0].id@) > chain[0].budget.max_actions {
            Some(EXHAUSTED)
        } else {
            self.action_refusal(chain.drop_first(), now)
        }
    }

    /// Why run `run` under `grant` may not dispatch `action` at time `now`, given
    /// whether the run was cancelled, if it may not.
    pub open spec fn effect_admission_failure(self, run: Seq<char>, grant: Grant, cancelled: bool, action: Action, now: nat) -> Option<i32> {
        if !self.run_active(run) {
            if !self.run_grant_known(run) { Some(MISSING) } else { Some(DENIED) }
        } else if cancelled {
            Some(DENIED)
        } else if grant.mode == Mode::Observe {
            Some(DENIED)
        } else if Store::grant_effect_count(self.effects@, grant.id@) > grant.budget.max_actions {
            Some(EXHAUSTED)
        } else if !self.in_grant(self.run_at(run).grant_id@, self.run_allocation_id(run)) {
            Some(MISSING)
        } else {
            match self.ancestry(grant.id@, self.run_allocation_id(run)) {
                Ancestry::Chain(c) => match self.action_refusal(c, now) {
                    Some(code) => Some(code),
                    None => self.attachment_write_failure(run, action, now),
                },
                a => Some(ancestry_code(a)),
            }
        }
    }

    /// Decides at time `now_ms` whether run `run_id` under `grant` may dispatch
    /// `action` before any workspace effect starts: the run must be active and not
    /// cancelled, the grant must allow effects, and neither the grant nor any owner of
    /// the run's allocation may have exhausted its actions or deadline.
    pub fn effect_admission(&self, run_id: &String, grant: &Grant, cancelled: bool, action: &Action, now_ms: u64) -> (r: Result<()>)
        requires
            self.wf(),
        ensures
            match self.effect_admission_failure(run_id@, *grant, cancelled, *action, now_ms as nat) {
                Some(code) => r matches Err(e) && e.code == code,
                None => r is Ok,
            },
    {
        self.require_active(run_id)?;
        if cancelled {
            return Err(Error::denied("run cancelled; effect not dispatched"));
        }
        if grant.mode == Mode::Observe {
            return Err(Error::denied("observe grants cannot dispatch effects"));
        }
        let mut attempts: u64 = 0;
        let mut i: usize = 0;
        while i < self.effects.len()
            invariant
                0 <= i <= self.effects@.len(),
                attempts == Store::grant_effect_count(self.effects@.subrange(0, i as int), grant.id@),
                attempts <= i,
            decreases self.effects@.len() - i,
        {
            proof {
                assert(self.effects@.subrange(0, i + 1).drop_last() =~= self.effects@.subrange(0, i as int));
            }
            if self.effects[i].grant_id == grant.id {
                attempts = attempts + 1;
            }
            i = i + 1;
        }
        assert(self.effects@.subrange(0, self.effects@.len() as int) =~= self.effects@);
        if attempts > grant.budget.max_actions as u64 {
            return Err(Error::exhausted("root action budget exhausted"));
        }
        let allocation = self.run_allocation_in(run_id)?;
        proof {
            crate::allocations::lemma_allocation_at_is_stored(*self, self.run_allocation_id(run_id@));
        }
        let ancestry = self.allocation_ancestry(grant, &allocation.id)?;
        proof {
            lemma_ancestry_stored(*self, grant.id@, allocation.id@);
        }
        let ghost c = ancestry@;
        assert(c.subrange(0, c.len() as int) =~= c);
        let mut k: usize = 0;
        while k < ancestry.len()
            invariant
                self.wf(),
                c == ancestry@,
                0 <= k <= c.len(),
                self.run_active(run_id@),
                !cancelled,
                grant.mode != Mode::Observe,
                Store::grant_effect_count(self.effects@, grant.id@) <= grant.budget.max_actions,
                self.in_grant(self.run_at(run_id@).grant_id@, self.run_allocation_id(run_id@)),
                self.ancestry(grant.id@, self.run_allocation_id(run_id@)) == Ancestry::Chain(c),
                forall|q: int|
                    0 <= q < c.len() ==> {
                        &&& self.has_allocation((#[trigger] c[q]).id@)
                        &&& self.allocation_at(c[q].id@) == c[q]
                        &&& budget_valid(c[q].budget)
                    },
                self.action_refusal(c, now_ms as nat) == self.action_refusal(c.subrange(k as int, c.len() as int), now_ms as nat),
            decreases c.len() - k,
        {
            let owner = &ancestry[k];
            let ghost rest = c.subrange(k as int, c.len() as int);
            assert(rest[0] == c[k as int]);
            assert(rest.drop_first() =~= c.subrange(k + 1, c.len() as int));
            let deadline = counter(owner.budget.deadline_ms.as_str())?;
            if now_ms >= deadline {
                return Err(Error::exhausted("child action budget or deadline exhausted"));
            }
            let g = self.grant(&owner.grant_id)?;
            let status = self.allocation_ledger_status(g, &owner.id)?;
            if status.usage.actions > owner.budget.max_actions {
                return Err(Error::exhausted("child action budget or deadline exhausted"));
            }
            k = k + 1;
        }
        assert(c.subrange(c.len() as int, c.len() as int) =~= Seq::<BudgetAllocation>::empty());
        self.require_attachment_write_at(run_id, action, now_ms)
    }
}

/// The effect `operation` was recorded under grant `grant`.
pub open spec fn effect_of(es: Seq<EffectEntry>, operation: Seq<char>, grant: Seq<char>) -> bool {
    exists|i: int| 0 <= i < es.len() && (#[trigger] es[i]).id@ == operation && es[i].grant_id@ == grant
}

impl Runtime {
    /// The run that recorded effect `operation` for the owner, who must present the
    /// grant exactly as stored: an unknown grant or an effect outside it is missing, a
    /// grant that differs from the stored policy is denied.
    pub fn require_effect_owner(&self, owner: &Grant, operation: &String) -> (r: Result<String>)
        requires
            self.store.wf(),
        ensures
            !self.store.has_grant(owner.id@) ==> (r matches Err(e) && e.code == MISSING),
            self.store.has_grant(owner.id@) && !crate::compare::same_grant(self.store.grant_at(owner.id@), *owner)
                ==> (r matches Err(e) && e.code == DENIED),
            self.store.has_grant(owner.id@) && crate::compare::same_grant(self.store.grant_at(owner.id@), *owner) ==> {
                &&& !effect_of(self.store.effects@, operation@, owner.id@) ==> (r matches Err(e) && e.code == MISSING)
                &&& effect_of(self.store.effects@, operation@, owner.id@) ==> (r matches Ok(run) && exists|i: int|
                    0 <= i < self.store.effects@.len() && #[trigger] self.store.effects@[i].id@ == operation@
                        && self.store.effects@[i].grant_id@ == owner.id@ && self.store.effects@[i].run_id@ == run@)
            },
    {
        let stored = self.store.grant(&owner.id)?;
        if !crate::compare::grant_eq(stored, owner) {
            return Err(Error::denied("owner grant does not match the stored policy"));
        }
        let effects = &self.store.effects;
        let mut i: usize = 0;
        while i < effects.len()
            invariant
                0 <= i <= effects@.len(),
                effects@ == self.store.effects@,
                self.store.has_grant(owner.id@),
                crate::compare::same_grant(self.store.grant_at(owner.id@), *owner),
                forall|k: int| 0 <= k < i ==> !((#[trigger] effects@[k]).id@ == operation@ && effects@[k].grant_id@ == owner.id@),
            decreases effects@.len() - i,
        {
            if effects[i].id == *operation && effects[i].grant_id == owner.id {
                assert(effects@[i as int].id@ == operation@);
                return Ok(effects[i].run_id.clone());
            }
            i = i + 1;
        }
        Err(Error::missing("operation not found in owner grant"))
    }
}

/// What a reconciled receipt says when nothing was observed.
pub open spec fn unresolved_output() -> Seq<char> {
    "Host has no captured adapter outcome. No retry was dispatched; owner reconciliation remains required."@
}

/// What a reconciled receipt says when the desired content is in place.
pub open spec fn observed_output() -> Seq<char> {
    "Desired current content observed. This does not establish dispatch, execution, or required checks. Owner reconciliation and fresh validation remain required."@
}

/// The writes an unresolved effect may have made: those recorded when it was prepared,
/// or, failing those, for a live execution, everything the grant may write.
pub open spec fn reconciled_writes(grant: Grant, action: Action, stored: Seq<String>) -> Seq<String> {
    if stored.len() == 0 && action.kind == ActionKind::Execute && action.branch_id is None {
        match grant.writable_paths {
            Some(w) => w@,
            None => grant.paths@,
        }
    } else {
        stored
    }
}

/// The receipts agree but for what reconciliation records: the outcome, its basis,
/// what it shows and when it finished.
pub open spec fn same_but_outcome(a: ActionReceipt, b: ActionReceipt) -> bool {
    &&& a.operation_id == b.operation_id
    &&& a.run_id == b.run_id
    &&& a.action == b.action
    &&& a.before == b.before
    &&& a.side_effects == b.side_effects
    &&& a.started_ms == b.started_ms
    &&& a.elapsed_ms == b.elapsed_ms
    &&& a.evidence_ref == b.evidence_ref
    &&& a.validations == b.validations
    &&& a.restored_validity == b.restored_validity
    &&& a.restored_properties == b.restored_properties
    &&& a.settlement == b.settlement
    &&& a.content_available == b.content_available
}

/// What reconciling an effect that has no captured adapter outcome records at time
/// `now`, given the writes recorded when it was prepared, the validation generation it
/// was dispatched under, the path of an edit's branch as the grant's branches hold it
/// (`None` when the branch is not the grant's), and what the adapter reports about the
/// workspace the action targets. The outcome stays unknown and unresolved unless an edit
/// or application finds its desired content in place; the potential writes include the
/// target of a live edit or application.
pub fn reconciled_observation(
    grant: &Grant,
    receipt: ActionReceipt,
    stored_writes: Vec<String>,
    generation: i64,
    branch_workspace: &Option<String>,
    host: &HostReport,
    now: u64,
) -> (r: EffectObservation)
    ensures
        same_but_outcome(r.receipt, receipt),
        r.receipt.reconciled,
        r.receipt.finished_ms matches Some(f) && f@ == decimal_repr(now as nat),
        r.receipt.status == EffectStatus::Unknown,
        r.validation_generation == generation,
        r.branch is None,
        r.preflight.checks@.len() == 0,
        r.preflight.intervention is None,
        r.preflight.properties@.len() == 0,
        ({
            let action = receipt.action;
            let base = reconciled_writes(*grant, action, stored_writes@);
            let targets = action.kind == ActionKind::Edit || action.kind == ActionKind::Apply;
            let resolved = !(action.kind == ActionKind::Edit && action.branch_id is Some) || branch_workspace is Some;
            let live = !(action.kind == ActionKind::Edit && action.branch_id is Some);
            if targets && resolved && action.path is Some && action.content is Some {
                let path = action.path->0;
                &&& r.writes@ == if live { base.push(path) } else { base }
                &&& if first_at(host.artifacts@, path@) matches Some(c)
                    && c.version@ == hash_text(encode_utf8(action.content->0@)) {
                    &&& r.receipt.outcome_basis == Some(EffectOutcomeBasis::CurrentPostconditionObserved)
                    &&& r.receipt.after@ == seq![first_at(host.artifacts@, path@)->0]
                    &&& r.receipt.output@ == observed_output()
                } else {
                    &&& r.receipt.outcome_basis == Some(EffectOutcomeBasis::Unresolved)
                    &&& r.receipt.after == receipt.after
                    &&& r.receipt.output@ == unresolved_output()
                }
            } else {
                &&& r.writes@ == base
                &&& r.receipt.outcome_basis == Some(EffectOutcomeBasis::Unresolved)
                &&& r.receipt.after == receipt.after
                &&& r.receipt.output@ == unresolved_output()
            }
        }),
{
    let mut receipt = receipt;
    receipt.reconciled = true;
    receipt.finished_ms = Some(decimal_string(now));
    receipt.status = EffectStatus::Unknown;
    receipt.outcome_basis = Some(EffectOutcomeBasis::Unresolved);
    proof {
        reveal_strlit("Host has no captured adapter outcome. No retry was dispatched; owner reconciliation remains required.");
        reveal_strlit("Desired current content observed. This does not establish dispatch, execution, or required checks. Owner reconciliation and fresh validation remain required.");
    }
    receipt.output = "Host has no captured adapter outcome. No retry was dispatched; owner reconciliation remains required.".to_owned();
    let kind = receipt.action.kind;
    let mut writes = stored_writes;
    if writes.len() == 0 && kind == ActionKind::Execute && receipt.action.branch_id.is_none() {
        writes = match &grant.writable_paths {
            Some(w) => clone_ids(w),
            None => clone_ids(&grant.paths),
        };
    }
    if kind == ActionKind::Edit || kind == ActionKind::Apply {
        let branched = kind == ActionKind::Edit && receipt.action.branch_id.is_some();
        if !branched || branch_workspace.is_some() {
            let mut observed: Option<ArtifactRef> = None;
            match (&receipt.action.path, &receipt.action.content) {
                (Some(path), Some(content)) => {
                    if !branched {
                        writes.push(path.clone());
                    }
                    match find_at(&host.artifacts, path) {
                        Some(current) => {
                            if current.version == hash(content.as_str().as_bytes()) {
                                observed = Some(current);
                            }
                        },
                        None => {},
                    }
                },
                _ => {},
            }
            match observed {
                Some(current) => {
                    receipt.outcome_basis = Some(EffectOutcomeBasis::CurrentPostconditionObserved);
                    receipt.after = vec![current];
                    receipt.output = "Desired current content observed. This does not establish dispatch, execution, or required checks. Owner reconciliation and fresh validation remain required.".to_owned();
                },
                None => {},
            }
        }
    }
    let mut observation = EffectObservation::new(receipt);
    observation.writes = writes;
    observation.validation_generation = generation;
    observation
}

/// The first effect recorded under operation `id` among `es`, by position.
pub open spec fn first_effect(es: Seq<EffectEntry>, id: Seq<char>) -> Option<int>
    decreases es.len(),
{
    if es.len() == 0 {
        None
    } else if es[0].id@ == id {
        Some(0)
    } else {
        match first_effect(es.drop_first(), id) {
            Some(k) => Some(k + 1),
            None => None,
        }
    }
}

/// Two actions ask for the same thing.
pub open spec fn same_action(a: Action, b: Action) -> bool {
    &&& a.operation_id@ == b.operation_id@
    &&& a.kind == b.kind
    &&& opt_text(a.path) == opt_text(b.path)
    &&& opt_text(a.expected_version) == opt_text(b.expected_version)
    &&& opt_text(a.content) == opt_text(b.content)
    &&& opt_text(a.tool) == opt_text(b.tool)
    &&& opt_text(a.branch_id) == opt_text(b.branch_id)
    &&& opt_text(a.intervention_ref) == opt_text(b.intervention_ref)
    &&& match (a.implementation, b.implementation) {
        (Some(x), Some(y)) => x.id@ == y.id@ && x.version@ == y.version@,
        (None, None) => true,
        _ => false,
    }
}

fn action_eq(a: &Action, b: &Action) -> (r: bool)
    ensures
        r == same_action(*a, *b),
{
    let implementation = match (&a.implementation, &b.implementation) {
        (Some(x), Some(y)) => x.id == y.id && x.version == y.version,
        (None, None) => true,
        _ => false,
    };
    a.operation_id == b.operation_id && a.kind == b.kind && crate::compare::opt_text_eq(&a.path, &b.path)
        && crate::compare::opt_text_eq(&a.expected_version, &b.expected_version)
        && crate::compare::opt_text_eq(&a.content, &b.content) && crate::compare::opt_text_eq(&a.tool, &b.tool)
        && crate::compare::opt_text_eq(&a.branch_id, &b.branch_id)
        && crate::compare::opt_text_eq(&a.intervention_ref, &b.intervention_ref) && implementation
}

/// The receipt of an effect of `run` that has just started at time `now`, before any
/// adapter work, with `source` the identifier of its context evidence.
pub open spec fn is_started(rc: ActionReceipt, run: Seq<char>, action: Action, source: Seq<char>, now: nat) -> bool {
    &&& rc.operation_id@ == action.operation_id@
    &&& rc.run_id@ == run
    &&& rc.status == EffectStatus::Started
    &&& rc.action == action
    &&& rc.before@.len() == 0
    &&& rc.after@.len() == 0
    &&& rc.output@.len() == 0
    &&& rc.side_effects@.len() == 0
    &&& rc.started_ms@ == decimal_repr(now)
    &&& rc.finished_ms is None
    &&& rc.elapsed_ms is None
    &&& !rc.reconciled
    &&& rc.evidence_ref matches Some(e) && e@ == source
    &&& rc.content_available == Some(true)
    &&& rc.outcome_basis is None
    &&& rc.validations is None
    &&& rc.restored_validity is None
    &&& rc.restored_properties is None
    &&& rc.settlement is None
}

impl Store {
    /// The outcome of beginning `action` for run `run` at time `now`, with `source` the
    /// identifier of its context evidence. An operation identifier already used by
    /// another grant or for another action is a conflict; the same action again
    /// answers `None`, leaving the existing effect to be looked up. Otherwise the effect
    /// is recorded as prepared and started, charged to the run's allocation, before any
    /// adapter work.
    pub open spec fn begin_effect_post(old: Store, new: Store, run: Seq<char>, action: Action, source: Seq<char>,
        now: nat, r: Result<Option<ActionReceipt>>) -> bool {
        if !old.run_grant_known(run) {
            r matches Err(e) && e.code == MISSING && Store::same(new, old)
        } else {
            let grant = old.grant_at(old.run_at(run).grant_id@).id@;
            match first_effect(old.effects@, action.operation_id@) {
                Some(i) => if old.effects@[i].grant_id@ != grant || !same_action(old.effects@[i].action, action) {
                    r matches Err(e) && e.code == CONFLICT && Store::same(new, old)
                } else {
                    r matches Ok(None) && Store::same(new, old)
                },
                None => if !old.in_grant(old.run_at(run).grant_id@, old.run_allocation_id(run)) {
                    r matches Err(e) && e.code == MISSING && Store::same(new, old)
                } else {
                    r matches Ok(Some(rc)) && is_started(rc, run, action, source, now) && {
                        let e = new.effects@.last();
                        &&& new.effects@.len() == old.effects@.len() + 1
                        &&& new.effects@.drop_last() == old.effects@
                        &&& e.id@ == action.operation_id@
                        &&& e.grant_id@ == grant
                        &&& e.run_id@ == run
                        &&& e.allocation_id matches Some(a) && a@ == old.run_allocation_id(run)
                        &&& e.action == action
                        &&& e.phase == EffectPhase::Prepared
                        &&& e.status == EffectStatus::Started
                        &&& !e.settled
                        &&& e.writes@.len() == 0
                        &&& Store::same_but_effects(new, old)
                    }
                },
            }
        }
    }

    /// An effect that still holds write ownership of the workspace: handed to the
    /// adapter, or its outcome captured but not finalized, or unknown and not settled by
    /// its owner, and it may have written the live workspace.
    pub open spec fn holds_writes(e: EffectEntry) -> bool {
        &&& (e.phase == EffectPhase::Dispatching || e.phase == EffectPhase::Observed
            || (e.status == EffectStatus::Unknown && !e.settled))
        &&& (e.writes@.len() > 0 || e.action.kind == ActionKind::Apply
            || ((e.action.kind == ActionKind::Edit || e.action.kind == ActionKind::Execute) && e.action.branch_id is None))
    }

    /// Another effect than `operation` holds write ownership of the workspace.
    pub open spec fn write_fenced(self, operation: Seq<char>) -> bool {
        exists|i: int| 0 <= i < self.effects@.len() && (#[trigger] self.effects@[i]).id@ != operation
            && Store::holds_writes(self.effects@[i])
    }

    pub(crate) fn find_effect(&self, id: &String) -> (r: Option<usize>)
        ensures
            match r {
                Some(i) => first_effect(self.effects@, id@) == Some(i as int) && i < self.effects@.len(),
                None => first_effect(self.effects@, id@) is None,
            },
    {
        let mut i: usize = 0;
        assert(self.effects@.subrange(0, self.effects@.len() as int) =~= self.effects@);
        while i < self.effects.len()
            invariant
                0 <= i <= self.effects@.len(),
                forall|k: int| 0 <= k < i ==> (#[trigger] self.effects@[k]).id@ != id@,
                first_effect(self.effects@, id@) == match first_effect(self.effects@.subrange(i as int, self.effects@.len() as int), id@) {
                    Some(k) => Some(k + i),
                    None => None::<int>,
                },
            decreases self.effects@.len() - i,
        {
            let ghost rest = self.effects@.subrange(i as int, self.effects@.len() as int);
            assert(rest.drop_first() =~= self.effects@.subrange(i + 1, self.effects@.len() as int));
            if self.effects[i].id == *id {
                return Some(i);
            }
            i = i + 1;
        }
        None
    }

    /// Refuses live writes while another effect still holds write ownership of the
    /// workspace; an effect that writes nothing is not fenced.
    pub fn require_write_fence(&self, operation: &String, writes: &Vec<String>) -> (r: Result<()>)
        ensures
            writes@.len() > 0 && self.write_fenced(operation@) ==> (r matches Err(e) && e.code == DENIED),
            !(writes@.len() > 0 && self.write_fenced(operation@)) ==> r is Ok,
    {
        if writes.len() == 0 {
            return Ok(());
        }
        let mut i: usize = 0;
        while i < self.effects.len()
            invariant
                0 <= i <= self.effects@.len(),
                writes@.len() > 0,
                forall|k: int| 0 <= k < i ==> !((#[trigger] self.effects@[k]).id@ != operation@
                    && Store::holds_writes(self.effects@[k])),
            decreases self.effects@.len() - i,
        {
            let e = &self.effects[i];
            let live = e.phase == EffectPhase::Dispatching || e.phase == EffectPhase::Observed
                || (e.status == EffectStatus::Unknown && !e.settled);
            let writer = e.writes.len() > 0 || e.action.kind == ActionKind::Apply
                || ((e.action.kind == ActionKind::Edit || e.action.kind == ActionKind::Execute) && e.action.branch_id.is_none());
            if e.id != *operation && live && writer {
                assert(self.write_fenced(operation@)) by {
                    assert(self.effects@[i as int].id@ != operation@);
                }
                return Err(Error::denied(
                    "unsettled workspace effects retain write ownership; reconcile them before new live writes"));
            }
            i = i + 1;
        }
        Ok(())
    }
}

/// An effect of another operation that is being dispatched, has its outcome captured
/// but not finalized, or is unknown and not settled by its owner, fences every live write
/// whenever it may have written the live workspace: it recorded writes, it applies a
/// branch, or it edits or executes without a branch, whatever writes it recorded. Such a
/// fence refuses a non-empty write with DENIED.
pub proof fn law_unsettled_live_effect_fences(s: Store, operation: Seq<char>, i: int)
    requires
        0 <= i < s.effects@.len(),
        s.effects@[i].id@ != operation,
        s.effects@[i].phase == EffectPhase::Dispatching || s.effects@[i].phase == EffectPhase::Observed
            || (s.effects@[i].status == EffectStatus::Unknown && !s.effects@[i].settled),
        s.effects@[i].writes@.len() > 0 || s.effects@[i].action.kind == ActionKind::Apply
            || s.effects@[i].action.kind == ActionKind::Edit && s.effects@[i].action.branch_id is None
            || s.effects@[i].action.kind == ActionKind::Execute && s.effects@[i].action.branch_id is None,
    ensures
        s.write_fenced(operation),
{
    assert(Store::holds_writes(s.effects@[i]));
}

/// Only an effect of another operation that is being dispatched, captured, or unknown and
/// unsettled, and that may have written the live workspace, fences live writes.
pub proof fn law_fence_needs_unsettled_live_effect(s: Store, operation: Seq<char>)
    requires
        s.write_fenced(operation),
    ensures
        exists|i: int| 0 <= i < s.effects@.len() && (#[trigger] s.effects@[i]).id@ != operation
            && (s.effects@[i].phase == EffectPhase::Dispatching || s.effects@[i].phase == EffectPhase::Observed
                || (s.effects@[i].status == EffectStatus::Unknown && !s.effects@[i].settled))
            && (s.effects@[i].writes@.len() > 0 || s.effects@[i].action.kind == ActionKind::Apply
                || ((s.effects@[i].action.kind == ActionKind::Edit || s.effects@[i].action.kind == ActionKind::Execute)
                    && s.effects@[i].action.branch_id is None)),
{
}

impl Runtime {
    /// Begins `action` for run `run_id` at time `now`, as `Store::begin_effect_post`
    /// states, with `source` the identifier of its context evidence: the effect is
    /// recorded before the adapter may act.
    pub fn begin_effect_at(&mut self, run_id: &String, action: &Action, source: String, now: u64)
        -> (r: Result<Option<ActionReceipt>>)
        requires
            old(self).store.wf(),
        ensures
            final(self).store.wf(),
            Store::begin_effect_post(old(self).store, final(self).store, run_id@, *action, source@, now as nat, r),
    {
        let grant = self.store.run_grant(run_id)?;
        let grant_id = grant.id.clone();
        match self.store.find_effect(&action.operation_id) {
            Some(i) => {
                if self.store.effects[i].grant_id != grant_id || !action_eq(&self.store.effects[i].action, action) {
                    return Err(Error::conflict("operation ID reused with different grant or arguments"));
                }
                return Ok(None);
            },
            None => {},
        }
        let allocation = self.store.run_allocation_in(run_id)?;
        let receipt = ActionReceipt {
            operation_id: action.operation_id.clone(),
            run_id: run_id.clone(),
            status: EffectStatus::Started,
            action: action.clone(),
            before: Vec::new(),
            after: Vec::new(),
            output: String::new(),
            side_effects: Vec::new(),
            started_ms: decimal_string(now),
            finished_ms: None,
            elapsed_ms: None,
            reconciled: false,
            evidence_ref: Some(source),
            content_available: Some(true),
            outcome_basis: None,
            validations: None,
            restored_validity: None,
            restored_properties: None,
            settlement: None,
        };
        let entry = EffectEntry {
            id: action.operation_id.clone(),
            grant_id,
            run_id: run_id.clone(),
            allocation_id: Some(allocation.id),
            action: action.clone(),
            phase: EffectPhase::Prepared,
            status: EffectStatus::Started,
            settled: false,
            writes: Vec::new(),
            observation: None,
            finalized: None,
        };
        let ghost before = self.store;
        self.store.effects.push(entry);
        proof {
            assert(self.store.effects@.drop_last() =~= before.effects@);
        }
        Ok(Some(receipt))
    }

    /// Begins `action` now, with a fresh identifier for its context evidence.
    pub fn begin_effect(&mut self, run_id: &String, action: &Action) -> (r: Result<Option<ActionReceipt>>)
        requires
            old(self).store.wf(),
        ensures
            final(self).store.wf(),
            exists|source: Seq<char>, now: nat| #[trigger] Store::begin_effect_post(old(self).store, final(self).store,
                run_id@, *action, source, now, r),
    {
        let source = new_id();
        let ghost s = source@;
        let now = now_ms();
        let r = self.begin_effect_at(run_id, action, source, now);
        assert(Store::begin_effect_post(old(self).store, self.store, run_id@, *action, s, now as nat, r));
        r
    }
}

} // verus!
