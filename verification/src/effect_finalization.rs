//! Finalizing an effect whose adapter outcome was captured: the dependents of what it
//! wrote are invalidated, validity is restored only from its transferable checks, the
//! properties those checks validated are recorded, and its receipt becomes final.

use vstd::prelude::*;
use crate::compare::{opt_text, texts};
use crate::contracts::{ActionKind, ActionReceipt, ArtifactRef, EffectStatus, Grant, ValidatedProperty, ValidationEvidence};
use crate::digest::{hash, hash_text};
use crate::effect_validation::{oldest_generation, transfer_targets, transfers, TransferGate};
use crate::effects::{first_effect, EffectObservation, Runtime};
use crate::error::{Error, Result, CONFLICT, EXHAUSTED, INTERNAL};
use crate::host::HostReport;
use crate::parking::listed;
use crate::store::{EffectEntry, EffectPhase, EventRecord, Store};
use crate::contracts::Split;
use crate::decimal::{decimal_repr, decimal_string};
use crate::text::{insert_ordered, ordered_texts};
use crate::validity::{
    binding_holds, clock_of, coverage, declared, invalidate_post, invalidation_generation, mark_of, property_of,
    same_scope, ValidityTables,
};
use vstd::utf8::encode_utf8;

verus! {

/// A validated property names the same obligation version and artifact version.
pub open spec fn same_property(a: ValidatedProperty, b: ValidatedProperty) -> bool {
    &&& a.obligation.id@ == b.obligation.id@
    &&& a.obligation.version@ == b.obligation.version@
    &&& a.artifact.path@ == b.artifact.path@
    &&& a.artifact.version@ == b.artifact.version@
}

/// `p` is among `ps`.
pub open spec fn has_property(ps: Seq<ValidatedProperty>, p: ValidatedProperty) -> bool {
    exists|i: int| 0 <= i < ps.len() && same_property(#[trigger] ps[i], p)
}

/// The properties among `ps` validated on `artifact`, in order.
pub open spec fn on_artifact(ps: Seq<ValidatedProperty>, artifact: ArtifactRef) -> Seq<ValidatedProperty>
    decreases ps.len(),
{
    if ps.len() == 0 {
        Seq::empty()
    } else {
        let before = on_artifact(ps.drop_last(), artifact);
        let p = ps.last();
        if p.artifact.path@ == artifact.path@ && p.artifact.version@ == artifact.version@ { before.push(p) } else { before }
    }
}

/// The properties the checks validated on `artifact`, check by check.
pub open spec fn properties_for(checks: Seq<ValidationEvidence>, artifact: ArtifactRef) -> Seq<ValidatedProperty>
    decreases checks.len(),
{
    if checks.len() == 0 {
        Seq::empty()
    } else {
        let before = properties_for(checks.drop_last(), artifact);
        match checks.last().properties {
            Some(ps) => before + on_artifact(ps@, artifact),
            None => before,
        }
    }
}

/// The validity tables hold the same rows but for their property validations, which
/// are those of `old` with the validation of `p` by `operation` at `generation` recorded
/// unless a newer one is.
pub open spec fn property_recorded(old: ValidityTables, new: ValidityTables, scope: crate::contracts::Scope,
    p: ValidatedProperty, operation: Seq<char>, generation: i64) -> bool {
    &&& new.clocks@ == old.clocks@
    &&& new.marks@ == old.marks@
    &&& new.dependencies@ == old.dependencies@
    &&& new.obligations@ == old.obligations@
    &&& forall|sc: crate::contracts::Scope, pa: Seq<char>, id: Seq<char>| #[trigger] property_of(new.properties@, sc, pa, id)
        == if same_scope(sc, scope) && pa == p.artifact.path@ && id == p.obligation.id@ {
            match property_of(old.properties@, sc, pa, id) {
                Some(v) => if v.3 > generation { Some(v) } else {
                    Some((p.obligation.version@, p.artifact.version@, operation, generation))
                },
                None => Some((p.obligation.version@, p.artifact.version@, operation, generation)),
            }
        } else {
            property_of(old.properties@, sc, pa, id)
        }
}

/// Recording the properties `ps` of one artifact, in order, from `t0` to `t1`: a
/// property whose binding no longer holds is passed over; each other one is recorded
/// and listed once in the restored properties, `po0` before and `po1` after. `ts` and
/// `pos` are the tables and lists after each step.
pub open spec fn property_run(ts: Seq<ValidityTables>, pos: Seq<Seq<ValidatedProperty>>, grant: Grant, operation: Seq<char>,
    generation: i64, ps: Seq<ValidatedProperty>) -> bool {
    &&& ts.len() == ps.len() + 1
    &&& pos.len() == ps.len() + 1
    &&& forall|k: int| 0 <= k < ps.len() ==> #[trigger] property_step(ts[k], ts[k + 1], grant, operation, generation, ps[k], pos[k], pos[k + 1])
}

/// Recording the properties `ps`, in order, takes `t0` to `t1` and the restored
/// properties `po0` to `po1`.
pub open spec fn properties_recorded(t0: ValidityTables, t1: ValidityTables, grant: Grant, operation: Seq<char>,
    generation: i64, ps: Seq<ValidatedProperty>, po0: Seq<ValidatedProperty>, po1: Seq<ValidatedProperty>) -> bool {
    exists|ts: Seq<ValidityTables>, pos: Seq<Seq<ValidatedProperty>>| #[trigger] property_run(ts, pos, grant, operation, generation, ps)
        && ts[0] == t0 && ts.last() == t1 && pos[0] == po0 && pos.last() == po1
}

/// Recording one property `p` from `tm` to `t1`, the restored properties `pm` before
/// and `po1` after: passed over where its binding no longer holds.
pub open spec fn property_step(tm: ValidityTables, t1: ValidityTables, grant: Grant, operation: Seq<char>,
    generation: i64, p: ValidatedProperty, pm: Seq<ValidatedProperty>, po1: Seq<ValidatedProperty>) -> bool {
    if !binding_holds(tm, grant, p.obligation, p.artifact.path@) {
        t1 == tm && po1 == pm
    } else {
        &&& property_recorded(tm, t1, grant.scope, p, operation, generation)
        &&& po1 == (if has_property(pm, p) { pm } else { pm.push(p) })
    }
}

/// The validity tables hold the same rows but for the marks, where the standing
/// invalidation of `path` no newer than `generation` is cleared.
pub open spec fn invalidation_cleared(old: ValidityTables, new: ValidityTables, scope: crate::contracts::Scope,
    path: Seq<char>, generation: i64) -> bool {
    &&& new.clocks@ == old.clocks@
    &&& new.dependencies@ == old.dependencies@
    &&& new.obligations@ == old.obligations@
    &&& new.properties@ == old.properties@
    &&& forall|sc: crate::contracts::Scope, p: Seq<char>| #[trigger] mark_of(new.marks@, sc, p) == if same_scope(sc, scope) && p == path {
        match mark_of(old.marks@, sc, p) {
            Some(m) => if m.0 <= generation { Some((m.0, false)) } else { Some(m) },
            None => None,
        }
    } else {
        mark_of(old.marks@, sc, p)
    }
}

/// Restoring validity for one transferable artifact `a`, checked as of `g`, from `tm`
/// to `t1`, the restored validity and properties `vm`, `pm` before and `vo`, `po` after:
/// an artifact invalidated after its checks ran is passed over; otherwise the
/// properties its checks validated are recorded, and where every property it declares
/// is then supported its invalidation is cleared and it is listed as restored.
pub open spec fn restore_step(tm: ValidityTables, t1: ValidityTables, grant: Grant, operation: Seq<char>,
    checks: Seq<ValidationEvidence>, entry: (ArtifactRef, i64), vm: Seq<ArtifactRef>, vo: Seq<ArtifactRef>,
    pm: Seq<ValidatedProperty>, po: Seq<ValidatedProperty>) -> bool {
    let (a, g) = entry;
    if invalidation_generation(tm.marks@, grant.scope, a.path@) > g {
        t1 == tm && vo == vm && po == pm
    } else {
        exists|tp: ValidityTables| {
            &&& #[trigger] properties_recorded(tm, tp, grant, operation, g, properties_for(checks, a), pm, po)
            &&& if coverage(tp, grant.scope, a) == Some(true) {
                invalidation_cleared(tp, t1, grant.scope, a.path@, g) && vo == vm.push(a)
            } else {
                t1 == tp && vo == vm
            }
        }
    }
}

/// Restoring validity from the transferable checks `v`, artifact by artifact, from
/// `t0` to `t1`, with `vo` and `po` the validity and properties restored.
pub open spec fn restorations(t0: ValidityTables, t1: ValidityTables, grant: Grant, operation: Seq<char>,
    checks: Seq<ValidationEvidence>, v: Seq<(ArtifactRef, i64)>, vo: Seq<ArtifactRef>, po: Seq<ValidatedProperty>) -> bool {
    exists|ts: Seq<ValidityTables>, vos: Seq<Seq<ArtifactRef>>, pos: Seq<Seq<ValidatedProperty>>| {
        &&& #[trigger] restore_run(ts, vos, pos, grant, operation, checks, v)
        &&& ts[0] == t0 && ts.last() == t1
        &&& vos[0].len() == 0 && vos.last() == vo
        &&& pos[0].len() == 0 && pos.last() == po
    }
}

/// `ts`, `vos` and `pos` are the tables and restored lists after each step of
/// restoring validity from `v`.
pub open spec fn restore_run(ts: Seq<ValidityTables>, vos: Seq<Seq<ArtifactRef>>, pos: Seq<Seq<ValidatedProperty>>,
    grant: Grant, operation: Seq<char>, checks: Seq<ValidationEvidence>, v: Seq<(ArtifactRef, i64)>) -> bool {
    &&& ts.len() == v.len() + 1
    &&& vos.len() == v.len() + 1
    &&& pos.len() == v.len() + 1
    &&& forall|k: int| 0 <= k < v.len() ==> #[trigger] restore_step(ts[k], ts[k + 1], grant, operation, checks, v[k],
        vos[k], vos[k + 1], pos[k], pos[k + 1])
}

/// The dependents found, write by write, one after another.
pub open spec fn joined(ds: Seq<Vec<String>>) -> Seq<String>
    decreases ds.len(),
{
    if ds.len() == 0 { Seq::empty() } else { joined(ds.drop_last()) + ds.last()@ }
}

/// Invalidating the dependents of each written path in turn, from `t0` to `t1`, with
/// `affected` the dependents found, write by write.
pub open spec fn invalidations(t0: ValidityTables, t1: ValidityTables, scope: crate::contracts::Scope,
    writes: Seq<String>, affected: Seq<String>) -> bool {
    exists|ts: Seq<ValidityTables>, ds: Seq<Vec<String>>| {
        &&& #[trigger] invalidation_run(ts, ds, scope, writes)
        &&& ts[0] == t0 && ts.last() == t1
        &&& affected == joined(ds)
    }
}

/// `ts` are the tables after each write's invalidation, `ds` the dependents found.
pub open spec fn invalidation_run(ts: Seq<ValidityTables>, ds: Seq<Vec<String>>, scope: crate::contracts::Scope,
    writes: Seq<String>) -> bool {
    &&& ts.len() == writes.len() + 1
    &&& ds.len() == writes.len()
    &&& forall|k: int| 0 <= k < writes.len() ==> #[trigger] invalidate_post(ts[k], ts[k + 1], scope, writes[k]@, Ok(ds[k]))
}

/// The note a successful application adds when it restored no validity.
pub open spec fn apply_note(restored_properties: bool) -> Seq<char> {
    if restored_properties {
        " Only the listed properties were restored; other declared properties remain unproven."@
    } else {
        " Current validity was not restored; fresh authorized checks are required."@
    }
}

/// The final receipt of `operation` made from the captured one, `c`: its side effects
/// are its own and the dependents invalidated, ordered and each once; it lists the
/// validity and properties restored; a successful application that restored no
/// validity says so; and its evidence is the operation's receipt reference.
pub open spec fn final_receipt(c: ActionReceipt, rc: ActionReceipt, operation: Seq<char>, affected: Seq<String>,
    vo: Seq<ArtifactRef>, po: Seq<ValidatedProperty>) -> bool {
    &&& rc == (ActionReceipt {
        side_effects: rc.side_effects,
        restored_validity: rc.restored_validity,
        restored_properties: rc.restored_properties,
        output: rc.output,
        evidence_ref: rc.evidence_ref,
        ..c
    })
    &&& ordered_texts(rc.side_effects@)
    &&& forall|y: Seq<char>| #[trigger] listed(rc.side_effects@, y) <==> (listed(c.side_effects@, y) || listed(affected, y))
    &&& rc.restored_validity matches Some(x) && x@ == vo
    &&& rc.restored_properties matches Some(x) && x@ == po
    &&& rc.output@ == (if c.action.kind == ActionKind::Apply && c.status == EffectStatus::Succeeded && vo.len() == 0 {
        c.output@ + apply_note(po.len() > 0)
    } else {
        c.output@
    })
    &&& rc.evidence_ref matches Some(x) && x@ == "receipt:"@ + hash_text(encode_utf8(operation))
}

/// The checks captured in a receipt.
pub open spec fn checks_of(c: ActionReceipt) -> Seq<ValidationEvidence> {
    match c.validations {
        Some(v) => v@,
        None => Seq::empty(),
    }
}

impl Store {
    /// Two ledgers hold the same rows but for effects and validity.
    pub open spec fn same_but_finalization(a: Store, b: Store) -> bool {
        &&& a.grants@ == b.grants@
        &&& a.runs@ == b.runs@
        &&& a.allocations@ == b.allocations@
        &&& a.run_allocations@ == b.run_allocations@
        &&& a.permits@ == b.permits@
        &&& a.work@ == b.work@
        &&& a.compactions@ == b.compactions@
        &&& a.attachments@ == b.attachments@
        &&& a.attachment_work@ == b.attachment_work@
        &&& a.feedback@ == b.feedback@
        &&& a.waits@ == b.waits@
        &&& a.contexts == b.contexts
        &&& a.messages@ == b.messages@
        &&& a.events@ == b.events@
        &&& a.corpora@ == b.corpora@ && a.archive == b.archive
    }

    /// The outcome of finalizing `operation` at time `now`, given the owner's checker
    /// policy serialized as `policy`, the current version of the intervention the grant
    /// reads and what the workspace adapter reports. A finalized effect is answered
    /// again unchanged; an effect without a captured outcome is a conflict. Otherwise
    /// its checks are judged for transfer; an artifact declaring more than a thousand
    /// obligations, or a validity clock that cannot advance once per write, is refused.
    /// Then the dependents of each written path are invalidated, validity is restored
    /// as `restorations` states, and the effect is finalized with the receipt
    /// `final_receipt` describes. Only a finalization changes the ledger.
    pub open spec fn finalize_post(old: Store, new: Store, operation: Seq<char>, policy: Seq<u8>,
        intervention: Option<Seq<char>>, host: HostReport, now: nat, r: Result<()>) -> bool {
        match first_effect(old.effects@, operation) {
            None => r matches Err(e) && e.code == INTERNAL && Store::same(new, old),
            Some(i) => {
                let e = old.effects@[i];
                if e.phase == EffectPhase::Finalized {
                    (if e.finalized is Some { r is Ok } else { r matches Err(x) && x.code == INTERNAL }) && Store::same(new, old)
                } else if e.phase != EffectPhase::Observed {
                    r matches Err(x) && x.code == CONFLICT && Store::same(new, old)
                } else if e.observation is None || !old.has_grant(e.grant_id@) {
                    r matches Err(x) && x.code == INTERNAL && Store::same(new, old)
                } else {
                    let obs = e.observation->0;
                    let grant = old.grant_at(e.grant_id@);
                    match old.transfer_gate(grant, obs.receipt, obs.preflight, policy, intervention, host, now) {
                        TransferGate::Failed(code) => r matches Err(x) && x.code == code && Store::same(new, old),
                        gate => exists|v: Seq<(ArtifactRef, i64)>| {
                            &&& #[trigger] validated_by_gate(gate, v, obs.receipt)
                            &&& if exists|k: int| 0 <= k < v.len() && #[trigger] declared(old.validity.obligations@, grant.scope,
                                v[k].0.path@).len() > 1000 {
                                r matches Err(x) && x.code == EXHAUSTED && Store::same(new, old)
                            } else if clock_of(old.validity.clocks@, grant.scope) + obs.writes@.len() > i64::MAX {
                                r matches Err(x) && x.code == EXHAUSTED && Store::same(new, old)
                            } else {
                                &&& r is Ok
                                &&& Store::same_but_finalization(new, old)
                                &&& new.effects@.len() == old.effects@.len()
                                &&& forall|k: int| 0 <= k < old.effects@.len() && k != i ==> new.effects@[k] == old.effects@[k]
                                &&& exists|t1: ValidityTables, affected: Seq<String>, vo: Seq<ArtifactRef>, po: Seq<ValidatedProperty>| {
                                    let n = new.effects@[i];
                                    &&& #[trigger] invalidations(old.validity, t1, grant.scope, obs.writes@, affected)
                                    &&& #[trigger] restorations(t1, new.validity, grant, operation, checks_of(obs.receipt), v, vo, po)
                                    &&& n == (crate::store::EffectEntry { phase: EffectPhase::Finalized, observation: n.observation,
                                        finalized: n.finalized, ..e })
                                    &&& n.observation is None
                                    &&& n.finalized matches Some(rc) && final_receipt(obs.receipt, rc, operation, affected, vo, po)
                                }
                            }
                        },
                    }
                }
            },
        }
    }
}

/// The validity that transfers under `gate`: nothing when it is closed, and the
/// transferable targets when it is open.
pub open spec fn validated_by_gate(gate: TransferGate, v: Seq<(ArtifactRef, i64)>, c: ActionReceipt) -> bool {
    match gate {
        TransferGate::Open => transfers(v, transfer_targets(c.validations->0@, c.action), oldest_generation(c.validations->0@)),
        _ => v.len() == 0,
    }
}

fn properties_on(checks: &Vec<ValidationEvidence>, artifact: &ArtifactRef) -> (r: Vec<ValidatedProperty>)
    ensures
        r@ == properties_for(checks@, *artifact),
{
    let mut out: Vec<ValidatedProperty> = Vec::new();
    let mut c: usize = 0;
    assert(checks@.take(0) =~= Seq::<ValidationEvidence>::empty());
    while c < checks.len()
        invariant
            0 <= c <= checks@.len(),
            out@ == properties_for(checks@.take(c as int), *artifact),
        decreases checks@.len() - c,
    {
        proof {
            assert(checks@.take(c as int + 1).drop_last() =~= checks@.take(c as int));
            assert(checks@.take(c as int + 1).last() == checks@[c as int]);
        }
        match &checks[c].properties {
            Some(ps) => {
                let ghost base = out@;
                let mut j: usize = 0;
                assert(ps@.take(0) =~= Seq::<ValidatedProperty>::empty());
                assert(base + on_artifact(ps@.take(0), *artifact) =~= base);
                while j < ps.len()
                    invariant
                        0 <= j <= ps@.len(),
                        out@ == base + on_artifact(ps@.take(j as int), *artifact),
                    decreases ps@.len() - j,
                {
                    proof {
                        assert(ps@.take(j as int + 1).drop_last() =~= ps@.take(j as int));
                        assert(ps@.take(j as int + 1).last() == ps@[j as int]);
                    }
                    let p = &ps[j];
                    if p.artifact.path == artifact.path && p.artifact.version == artifact.version {
                        out.push(p.clone());
                        proof {
                            assert(out@ =~= base + on_artifact(ps@.take(j as int + 1), *artifact));
                        }
                    } else {
                        proof {
                            assert(on_artifact(ps@.take(j as int + 1), *artifact) == on_artifact(ps@.take(j as int), *artifact));
                        }
                    }
                    j = j + 1;
                }
                proof {
                    assert(ps@.take(ps@.len() as int) =~= ps@);
                }
            },
            None => {},
        }
        c = c + 1;
    }
    proof {
        assert(checks@.take(checks@.len() as int) =~= checks@);
    }
    out
}

fn property_listed(ps: &Vec<ValidatedProperty>, p: &ValidatedProperty) -> (r: bool)
    ensures
        r == has_property(ps@, *p),
{
    let mut i: usize = 0;
    while i < ps.len()
        invariant
            0 <= i <= ps@.len(),
            forall|k: int| 0 <= k < i ==> !same_property(#[trigger] ps@[k], *p),
        decreases ps@.len() - i,
    {
        let q = &ps[i];
        if q.obligation.id == p.obligation.id && q.obligation.version == p.obligation.version
            && q.artifact.path == p.artifact.path && q.artifact.version == p.artifact.version {
            return true;
        }
        i = i + 1;
    }
    false
}

impl ValidityTables {
    /// Records the properties `ps` of one artifact validated by `operation` with checks
    /// as of `generation`, as `properties_recorded` states.
    pub fn record_properties(&mut self, grant: &Grant, operation: &String, generation: i64,
        ps: &Vec<ValidatedProperty>, po: &mut Vec<ValidatedProperty>)
        ensures
            properties_recorded(*old(self), *final(self), *grant, operation@, generation, ps@, old(po)@, final(po)@),
            final(self).obligations@ == old(self).obligations@,
            final(self).clocks@ == old(self).clocks@,
            final(self).dependencies@ == old(self).dependencies@,
    {
        let ghost mut ts: Seq<ValidityTables> = seq![*self];
        let ghost mut pos: Seq<Seq<ValidatedProperty>> = seq![po@];
        let ghost t0 = *self;
        let ghost p0 = po@;
        let mut k: usize = 0;
        while k < ps.len()
            invariant
                0 <= k <= ps@.len(),
                property_run(ts, pos, *grant, operation@, generation, ps@.take(k as int)),
                ts[0] == t0,
                pos[0] == p0,
                ts.last() == *self,
                pos.last() == po@,
                self.obligations@ == t0.obligations@,
                self.clocks@ == t0.clocks@,
                self.dependencies@ == t0.dependencies@,
            decreases ps@.len() - k,
        {
            let ghost tm = *self;
            let ghost pm = po@;
            let p = &ps[k];
            if self.binding_allowed(grant, &p.obligation, &p.artifact.path) {
                self.record_property(&grant.scope, &p.artifact.path, &p.obligation, &p.artifact.version, operation, generation);
                if !property_listed(po, p) {
                    po.push(p.clone());
                }
            }
            proof {
                assert(property_step(tm, *self, *grant, operation@, generation, ps@[k as int], pm, po@));
                let ts2 = ts.push(*self);
                let pos2 = pos.push(po@);
                assert forall|j: int| 0 <= j < k + 1 implies #[trigger] property_step(ts2[j], ts2[j + 1], *grant, operation@,
                    generation, ps@.take(k as int + 1)[j], pos2[j], pos2[j + 1]) by {
                    if j < k {
                        assert(property_step(ts[j], ts[j + 1], *grant, operation@, generation, ps@.take(k as int)[j], pos[j], pos[j + 1]));
                    }
                }
                ts = ts2;
                pos = pos2;
            }
            k = k + 1;
        }
        proof {
            assert(ps@.take(ps@.len() as int) =~= ps@);
            assert(property_run(ts, pos, *grant, operation@, generation, ps@));
        }
    }
}

impl Runtime {
    /// Finalizes `operation` at time `now`, as `Store::finalize_post` states, given the
    /// owner's checker policy serialized as `policy`, the current version of the
    /// intervention the grant reads and what the workspace adapter reports. The final
    /// receipt is then read with `finalized_receipt`.
    #[verifier::rlimit(60)]
    pub fn finalize_effect_at(&mut self, operation: &String, policy: &[u8], intervention: &Option<String>,
        host: &HostReport, now: u64) -> (r: Result<()>)
        requires
            old(self).store.wf(),
        ensures
            final(self).store.wf(),
            Store::finalize_post(old(self).store, final(self).store, operation@, policy@, opt_text(*intervention), *host,
                now as nat, r),
    {
        let i = match self.store.find_effect(operation) {
            Some(i) => i,
            None => return Err(Error::internal("effect not found")),
        };
        if self.store.effects[i].phase == EffectPhase::Finalized {
            if self.store.effects[i].finalized.is_some() {
                return Ok(());
            }
            return Err(Error::internal("finalized effect lacks its receipt"));
        }
        if self.store.effects[i].phase != EffectPhase::Observed {
            return Err(Error::conflict("effect has no captured outcome to finalize"));
        }
        if self.store.effects[i].observation.is_none() {
            return Err(Error::internal("observed effect lacks its adapter outcome"));
        }
        let gi = match self.store.find_grant(&self.store.effects[i].grant_id) {
            Some(g) => g,
            None => return Err(Error::internal("effect authority is missing")),
        };
        let v = {
            let obs = match &self.store.effects[i].observation {
                Some(o) => o,
                None => return Err(Error::internal("observed effect lacks its adapter outcome")),
            };
            let grant = &self.store.grants[gi];
            match self.transferable_validation_at(grant, &obs.receipt, &obs.preflight, policy, intervention, host, now) {
                Ok(v) => v,
                Err(e) => return Err(e),
            }
        };
        let ghost e0 = self.store.effects@[i as int];
        let ghost obs0 = e0.observation->0;
        let ghost grant0 = self.store.grants@[gi as int];
        let ghost gate = self.store.transfer_gate(grant0, obs0.receipt, obs0.preflight, policy@, opt_text(*intervention),
            *host, now as nat);
        assert(validated_by_gate(gate, v@, obs0.receipt));
        if too_many_obligations(&self.store.validity, &self.store.grants[gi].scope, &v) {
            return Err(Error::exhausted("artifact has more than 1000 declared obligations; narrow its property set"));
        }
        let writes_len = match &self.store.effects[i].observation {
            Some(o) => o.writes.len(),
            None => 0,
        };
        let clock = self.store.validity.generation(&self.store.grants[gi].scope);
        if (clock as i128) + (writes_len as i128) > 9223372036854775807i128 {
            return Err(Error::exhausted("validity clock is exhausted"));
        }
        let ghost old_store = self.store;
        let row = self.store.effects.remove(i);
        let ghost after_remove = self.store.effects@;
        assert(after_remove == old_store.effects@.remove(i as int));
        let EffectEntry { id, grant_id, run_id, allocation_id, action, phase: _, status, settled, writes, observation, finalized: _ } = row;
        let obs = match observation {
            Some(o) => o,
            None => return Err(Error::internal("observed effect lacks its adapter outcome")),
        };
        let EffectObservation { receipt, writes: written, validation_generation: _, branch: _, preflight: _ } = obs;
        let mut rc = receipt;
        // Invalidate the dependents of each written path.
        let ghost t_start = self.store.validity;
        let ghost mut ts: Seq<ValidityTables> = seq![self.store.validity];
        let ghost mut ds: Seq<Vec<String>> = Seq::empty();
        let mut affected: Vec<String> = Vec::new();
        let mut w: usize = 0;
        while w < written.len()
            invariant
                0 <= w <= written@.len(),
                gi < self.store.grants@.len(),
                self.store.grants@ == old_store.grants@,
                grant0 == old_store.grants@[gi as int],
                invalidation_run(ts, ds, grant0.scope, written@.take(w as int)),
                self.store.effects@ == after_remove,
                Store::same_but_finalization(self.store, old_store),
                ts[0] == t_start,
                ts.last() == self.store.validity,
                affected@ == joined(ds),
                clock_of(self.store.validity.clocks@, grant0.scope) == clock_of(t_start.clocks@, grant0.scope) + w,
                clock_of(t_start.clocks@, grant0.scope) + written@.len() <= i64::MAX,
                self.store.validity.obligations@ == t_start.obligations@,
            decreases written@.len() - w,
        {
            let ghost tm = self.store.validity;
            let d = match self.store.validity.invalidate_dependents(&self.store.grants[gi].scope, &written[w]) {
                Ok(d) => d,
                Err(e) => return Err(e),
            };
            proof {
                let ts2 = ts.push(self.store.validity);
                let ds2 = ds.push(d);
                let pre = written@.take(w as int + 1);
                assert forall|j: int| 0 <= j < w + 1 implies #[trigger] invalidate_post(ts2[j], ts2[j + 1], grant0.scope, pre[j]@, Ok(ds2[j])) by {
                    if j < w {
                        assert(invalidate_post(ts[j], ts[j + 1], grant0.scope, written@.take(w as int)[j]@, Ok(ds[j])));
                    }
                }
                assert(ds2.drop_last() =~= ds);
                ts = ts2;
                ds = ds2;
            }
            let mut q: usize = 0;
            let ghost base = affected@;
            while q < d.len()
                invariant
                    0 <= q <= d@.len(),
                    affected@ == base + d@.take(q as int),
                decreases d@.len() - q,
            {
                affected.push(d[q].clone());
                proof {
                    assert(affected@ =~= base + d@.take(q as int + 1));
                }
                q = q + 1;
            }
            proof {
                assert(d@.take(d@.len() as int) =~= d@);
            }
            w = w + 1;
        }
        proof {
            assert(written@.take(written@.len() as int) =~= written@);
        }
        // Restore validity from the transferable checks.
        let ghost t1 = self.store.validity;
        let empty: Vec<ValidationEvidence> = Vec::new();
        let checks: &Vec<ValidationEvidence> = match &rc.validations {
            Some(c) => c,
            None => &empty,
        };
        assert(checks@ == checks_of(obs0.receipt));
        let mut vo: Vec<ArtifactRef> = Vec::new();
        let mut po: Vec<ValidatedProperty> = Vec::new();
        let ghost mut rts: Seq<ValidityTables> = seq![self.store.validity];
        let ghost mut vos: Seq<Seq<ArtifactRef>> = seq![vo@];
        let ghost mut pos: Seq<Seq<ValidatedProperty>> = seq![po@];
        let mut j: usize = 0;
        while j < v.len()
            invariant
                0 <= j <= v@.len(),
                gi < self.store.grants@.len(),
                self.store.grants@ == old_store.grants@,
                grant0 == old_store.grants@[gi as int],
                restore_run(rts, vos, pos, grant0, operation@, checks@, v@.take(j as int)),
                self.store.effects@ == after_remove,
                Store::same_but_finalization(self.store, old_store),
                rts[0] == t1,
                rts.last() == self.store.validity,
                vos[0].len() == 0,
                pos[0].len() == 0,
                vos.last() == vo@,
                pos.last() == po@,
                self.store.validity.obligations@ == t_start.obligations@,
                forall|m: int| 0 <= m < v@.len() ==> #[trigger] declared(t_start.obligations@, grant0.scope, v@[m].0.path@).len() <= 1000,
            decreases v@.len() - j,
        {
            let ghost tm = self.store.validity;
            let ghost vm = vo@;
            let ghost pm = po@;
            let a = &v[j].0;
            let g = v[j].1;
            let latest = self.store.validity.path_generation(&self.store.grants[gi].scope, &a.path);
            if latest <= g {
                let ps = properties_on(checks, a);
                self.store.validity.record_properties(&self.store.grants[gi], operation, g, &ps, &mut po);
                let ghost tp = self.store.validity;
                let covered = match self.store.validity.covers(&self.store.grants[gi].scope, a) {
                    Ok(b) => b,
                    Err(e) => {
                        proof {
                            assert(declared(t_start.obligations@, grant0.scope, v@[j as int].0.path@).len() <= 1000);
                        }
                        return Err(e);
                    },
                };
                if covered {
                    self.store.validity.clear_invalidation(&self.store.grants[gi].scope, &a.path, g);
                    vo.push(a.clone());
                }
                proof {
                    assert(properties_recorded(tm, tp, grant0, operation@, g, properties_for(checks@, *a), pm, po@));
                }
            }
            proof {
                assert(restore_step(tm, self.store.validity, grant0, operation@, checks@, v@[j as int], vm, vo@, pm, po@));
                let rts2 = rts.push(self.store.validity);
                let vos2 = vos.push(vo@);
                let pos2 = pos.push(po@);
                let pre = v@.take(j as int + 1);
                assert forall|m: int| 0 <= m < j + 1 implies #[trigger] restore_step(rts2[m], rts2[m + 1], grant0, operation@,
                    checks@, pre[m], vos2[m], vos2[m + 1], pos2[m], pos2[m + 1]) by {
                    if m < j {
                        assert(restore_step(rts[m], rts[m + 1], grant0, operation@, checks@, v@.take(j as int)[m],
                            vos[m], vos[m + 1], pos[m], pos[m + 1]));
                    }
                }
                rts = rts2;
                vos = vos2;
                pos = pos2;
            }
            j = j + 1;
        }
        proof {
            assert(v@.take(v@.len() as int) =~= v@);
        }
        // The final receipt.
        let mut se: Vec<String> = Vec::new();
        let mut q: usize = 0;
        while q < rc.side_effects.len()
            invariant
                0 <= q <= rc.side_effects@.len(),
                ordered_texts(se@),
                forall|y: Seq<char>| #[trigger] listed(se@, y) <==> listed(rc.side_effects@.take(q as int), y),
            decreases rc.side_effects@.len() - q,
        {
            insert_ordered(&mut se, rc.side_effects[q].clone());
            proof {
                assert forall|y: Seq<char>| #[trigger] listed(se@, y) <==> listed(rc.side_effects@.take(q as int + 1), y) by {
                    lemma_listed_take(rc.side_effects@, q as int, y);
                }
            }
            q = q + 1;
        }
        proof {
            assert(rc.side_effects@.take(rc.side_effects@.len() as int) =~= rc.side_effects@);
        }
        let ghost own = se@;
        let mut q: usize = 0;
        while q < affected.len()
            invariant
                0 <= q <= affected@.len(),
                ordered_texts(se@),
                forall|y: Seq<char>| #[trigger] listed(se@, y) <==> (listed(own, y) || listed(affected@.take(q as int), y)),
            decreases affected@.len() - q,
        {
            insert_ordered(&mut se, affected[q].clone());
            proof {
                assert forall|y: Seq<char>| #[trigger] listed(se@, y) <==> (listed(own, y) || listed(affected@.take(q as int + 1), y)) by {
                    lemma_listed_take(affected@, q as int, y);
                }
            }
            q = q + 1;
        }
        proof {
            assert(affected@.take(affected@.len() as int) =~= affected@);
        }
        let mut evidence = "receipt:".to_owned();
        let digest = hash(operation.as_str().as_bytes());
        evidence.append(digest.as_str());
        assert(evidence@ == "receipt:"@ + hash_text(encode_utf8(operation@)));
        let applied = rc.action.kind == ActionKind::Apply && rc.status == EffectStatus::Succeeded && vo.len() == 0;
        if applied {
            if po.len() > 0 {
                rc.output.append(" Only the listed properties were restored; other declared properties remain unproven.");
            } else {
                rc.output.append(" Current validity was not restored; fresh authorized checks are required.");
            }
        }
        let ghost vo_v = vo@;
        let ghost po_v = po@;
        rc.side_effects = se;
        rc.restored_validity = Some(vo);
        rc.restored_properties = Some(po);
        rc.evidence_ref = Some(evidence);
        let entry = EffectEntry {
            id,
            grant_id,
            run_id,
            allocation_id,
            action,
            phase: EffectPhase::Finalized,
            status,
            settled,
            writes,
            observation: None,
            finalized: Some(rc),
        };
        let ghost removed = self.store.effects@;
        self.store.effects.insert(i, entry);
        proof {
            assert(self.store.effects@ =~= old_store.effects@.update(i as int, self.store.effects@[i as int]));
            lemma_finalization_wf(old_store, self.store);
            let n = self.store.effects@[i as int];
            assert(invalidation_run(ts, ds, grant0.scope, written@));
            assert(invalidations(old_store.validity, t1, grant0.scope, written@, affected@));
            assert(restore_run(rts, vos, pos, grant0, operation@, checks_of(obs0.receipt), v@));
            assert(restorations(t1, self.store.validity, grant0, operation@, checks_of(obs0.receipt), v@, vo_v, po_v));
            assert(n.finalized matches Some(x) && final_receipt(obs0.receipt, x, operation@, affected@, vo_v, po_v));
            assert(validated_by_gate(gate, v@, obs0.receipt));
        }
        Ok(())
    }
}

impl Store {
    /// The outcome of capturing the adapter's outcome of an effect: only an effect that
    /// is prepared or being dispatched takes it, and becomes observed; capturing again,
    /// or for an unknown operation, is a conflict.
    pub open spec fn capture_post(old: Store, new: Store, observation: EffectObservation, r: Result<()>) -> bool {
        match first_effect(old.effects@, observation.receipt.operation_id@) {
            Some(i) if old.effects@[i].phase == EffectPhase::Prepared || old.effects@[i].phase == EffectPhase::Dispatching => {
                let e = old.effects@[i];
                &&& r is Ok
                &&& new.effects@ == old.effects@.update(i, EffectEntry { phase: EffectPhase::Observed,
                    observation: Some(observation), ..e })
                &&& Store::same_but_effects(new, old)
            },
            _ => r matches Err(x) && x.code == CONFLICT && Store::same(new, old),
        }
    }

    /// Captures the adapter's outcome of an effect, as `capture_post` states.
    pub fn capture_effect(&mut self, observation: EffectObservation) -> (r: Result<()>)
        requires
            old(self).wf(),
        ensures
            final(self).wf(),
            Store::capture_post(*old(self), *final(self), observation, r),
    {
        let i = match self.find_effect(&observation.receipt.operation_id) {
            Some(i) => i,
            None => return Err(Error::conflict("effect observation was already captured")),
        };
        if self.effects[i].phase != EffectPhase::Prepared && self.effects[i].phase != EffectPhase::Dispatching {
            return Err(Error::conflict("effect observation was already captured"));
        }
        let ghost before = *self;
        let ghost obs = observation;
        let row = self.effects.remove(i);
        let EffectEntry { id, grant_id, run_id, allocation_id, action, phase: _, status, settled, writes, observation: _, finalized } = row;
        self.effects.insert(i, EffectEntry {
            id, grant_id, run_id, allocation_id, action, phase: EffectPhase::Observed, status, settled, writes,
            observation: Some(observation), finalized,
        });
        proof {
            assert(self.effects@ =~= before.effects@.update(i as int, EffectEntry { phase: EffectPhase::Observed,
                observation: Some(obs), ..before.effects@[i as int] }));
            assert(self.keys_unique());
        }
        Ok(())
    }

    /// The final receipt of `operation`, once it is finalized.
    pub fn finalized_receipt(&self, operation: &String) -> (r: Option<&ActionReceipt>)
        ensures
            match first_effect(self.effects@, operation@) {
                Some(i) => match self.effects@[i].finalized {
                    Some(rc) => r matches Some(x) && *x == rc,
                    None => r is None,
                },
                None => r is None,
            },
    {
        match self.find_effect(operation) {
            Some(i) => match &self.effects[i].finalized {
                Some(rc) => Some(rc),
                None => None,
            },
            None => None,
        }
    }
}

impl Runtime {
    /// Finalizes `operation` now, as `finalize_effect_at` does at some time.
    pub fn finalize_effect(&mut self, operation: &String, policy: &[u8], intervention: &Option<String>,
        host: &HostReport) -> (r: Result<()>)
        requires
            old(self).store.wf(),
        ensures
            final(self).store.wf(),
            exists|now: nat| #[trigger] Store::finalize_post(old(self).store, final(self).store, operation@, policy@,
                opt_text(*intervention), *host, now, r),
    {
        let now = crate::clock::now_ms();
        let r = self.finalize_effect_at(operation, policy, intervention, host, now);
        assert(Store::finalize_post(old(self).store, self.store, operation@, policy@, opt_text(*intervention), *host,
            now as nat, r));
        r
    }
}

/// The kind of the event completing a receipt: a reconciliation, a check's
/// completion, or an action's.
pub open spec fn completion_kind(rc: ActionReceipt) -> Seq<char> {
    if rc.reconciled {
        "action_reconciliation"@
    } else if rc.action.kind == ActionKind::Check {
        "check_completion"@
    } else {
        "action_completion"@
    }
}

/// `e` is the event completing the final receipt `rc` of the effect logged `position`-th,
/// for grant `grant`, in `split`, serialized as `body`: the host reports it under the
/// receipt's evidence reference, for the receipt's run, listing what the effect left.
pub open spec fn is_completion(e: EventRecord, grant: Grant, position: int, rc: ActionReceipt, body: Seq<char>, split: Split) -> bool {
    &&& rc.evidence_ref matches Some(x) && e.id@ == x@
    &&& same_scope(e.scope, grant.scope)
    &&& e.run_id@ == rc.run_id@
    &&& e.producer@ == "ribosome-host"@
    &&& e.sequence@ == decimal_repr((position + 1) as nat)
    &&& e.kind@ == completion_kind(rc)
    &&& e.split == split
    &&& e.parents@.len() == 0
    &&& e.artifacts@ == rc.after@
    &&& e.body@ == body
}

impl Store {
    /// The outcome of logging the completion of a finalized effect, serialized as
    /// `body`, in `split`: an effect that is not finalized is a conflict; otherwise its
    /// completion event is logged as `ingest_post` states.
    pub open spec fn completion_post(old: Store, new: Store, operation: Seq<char>, body: Seq<char>, split: Split,
        r: Result<bool>) -> bool {
        match first_effect(old.effects@, operation) {
            None => r matches Err(x) && x.code == INTERNAL && Store::same(new, old),
            Some(i) => {
                let e = old.effects@[i];
                match e.finalized {
                    None => r matches Err(x) && x.code == CONFLICT && Store::same(new, old),
                    Some(rc) => if !old.has_grant(e.grant_id@) || rc.evidence_ref is None {
                        r matches Err(x) && x.code == INTERNAL && Store::same(new, old)
                    } else {
                        exists|ev: EventRecord| #[trigger] is_completion(ev, old.grant_at(e.grant_id@), i, rc, body, split)
                            && Store::ingest_post(old, new, ev, r)
                    },
                }
            },
        }
    }

    /// Logs the completion event of a finalized effect, serialized as `body`, in
    /// `split`, as `completion_post` states.
    pub fn record_completion(&mut self, operation: &String, body: String, split: Split) -> (r: Result<bool>)
        requires
            old(self).wf(),
        ensures
            final(self).wf(),
            Store::completion_post(*old(self), *final(self), operation@, body@, split, r),
    {
        let i = match self.find_effect(operation) {
            Some(i) => i,
            None => return Err(Error::internal("effect not found")),
        };
        let gi = match self.find_grant(&self.effects[i].grant_id) {
            Some(g) => g,
            None => match &self.effects[i].finalized {
                Some(_) => return Err(Error::internal("effect authority is missing")),
                None => return Err(Error::conflict("effect is not finalized")),
            },
        };
        let count = self.effects.len();
        assert(i < count);
        assert(count as u64 <= u64::MAX);
        let position: u64 = i as u64 + 1;
        let event = match &self.effects[i].finalized {
            None => return Err(Error::conflict("effect is not finalized")),
            Some(rc) => {
                let id = match &rc.evidence_ref {
                    Some(x) => x.clone(),
                    None => return Err(Error::internal("finalized receipt lacks its evidence reference")),
                };
                let kind = if rc.reconciled {
                    "action_reconciliation".to_owned()
                } else if rc.action.kind == ActionKind::Check {
                    "check_completion".to_owned()
                } else {
                    "action_completion".to_owned()
                };
                EventRecord {
                    id,
                    scope: self.grants[gi].scope.clone(),
                    run_id: rc.run_id.clone(),
                    producer: "ribosome-host".to_owned(),
                    sequence: decimal_string(position),
                    kind,
                    split,
                    parents: Vec::new(),
                    artifacts: crate::evidence::copy_artifacts(&rc.after),
                    body,
                }
            },
        };
        let ghost ev = event;
        let r = self.ingest(event);
        proof {
            let rc = self.effects@[i as int].finalized->0;
            assert(is_completion(ev, old(self).grant_at(old(self).effects@[i as int].grant_id@), i as int, rc, body@, split));
        }
        r
    }
}

fn too_many_obligations(t: &ValidityTables, scope: &crate::contracts::Scope, v: &Vec<(ArtifactRef, i64)>) -> (r: bool)
    ensures
        r == exists|k: int| 0 <= k < v@.len() && #[trigger] declared(t.obligations@, *scope, v@[k].0.path@).len() > 1000,
{
    let mut k: usize = 0;
    while k < v.len()
        invariant
            0 <= k <= v@.len(),
            forall|j: int| 0 <= j < k ==> #[trigger] declared(t.obligations@, *scope, v@[j].0.path@).len() <= 1000,
        decreases v@.len() - k,
    {
        if t.covers(scope, &v[k].0).is_err() {
            proof {
                assert(declared(t.obligations@, *scope, v@[k as int].0.path@).len() > 1000);
            }
            return true;
        }
        k = k + 1;
    }
    false
}

/// Finalizing keeps the ledger well formed: it changes only effects and validity.
proof fn lemma_finalization_wf(old: Store, new: Store)
    requires
        old.wf(),
        Store::same_but_finalization(new, old),
    ensures
        new.wf(),
{
    assert(new.keys_unique());
}

proof fn lemma_listed_take(s: Seq<String>, q: int, y: Seq<char>)
    requires
        0 <= q < s.len(),
    ensures
        listed(s.take(q + 1), y) <==> (listed(s.take(q), y) || s[q]@ == y),
{
    if listed(s.take(q + 1), y) {
        let k = choose|k: int| 0 <= k < s.take(q + 1).len() && (#[trigger] s.take(q + 1)[k])@ == y;
        if k < q {
            assert(s.take(q)[k] == s[k]);
        }
    }
    if listed(s.take(q), y) {
        let k = choose|k: int| 0 <= k < s.take(q).len() && (#[trigger] s.take(q)[k])@ == y;
        assert(s.take(q + 1)[k] == s[k]);
    }
    if s[q]@ == y {
        assert(s.take(q + 1)[q] == s[q]);
    }
}

} // verus!
