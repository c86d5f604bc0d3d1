//! Whether a past effect still vouches for the properties it validated.

use vstd::prelude::*;
use crate::contracts::{ActionReceipt, ArtifactRef, EffectOutcomeBasis, EffectStatus, Grant, ValidationEvidenceOutcome};
use crate::digest::{hash, hash_text};
use crate::effect_validation::{check_transferable, first_at, law_stale_check_closes_transfer, transferable_check, TransferGate};
use crate::effects::{EffectPreflight, Runtime};
use crate::store::Store;
use crate::error::Result;
use crate::host::{reported_checker, HostReport};
use crate::parking::{is_listed, listed};

verus! {

/// A receipt still vouches for the properties it restored: the effect succeeded with
/// established execution, its evidence is readable, and every one of its (at least one)
/// checks passed under the owner's checker policy `policy`, has a readable receipt, and
/// still sees its checker and every input and target at the versions it ran with.
pub open spec fn receipt_vouches(receipt: ActionReceipt, policy: Seq<char>, readable: Seq<String>, host: HostReport) -> bool {
    &&& receipt.status == EffectStatus::Succeeded
    &&& receipt.outcome_basis == Some(EffectOutcomeBasis::ExecutionEstablished)
    &&& receipt.evidence_ref matches Some(source) && listed(readable, source@)
    &&& receipt.validations matches Some(checks) && checks@.len() > 0 && forall|i: int| 0 <= i < checks@.len()
        ==> check_transferable(#[trigger] checks@[i], policy, host) && listed(readable, checks@[i].receipt_ref@)
}

/// A receipt stops vouching for its properties as soon as one of its checks failed or
/// went stale, ran under another checker policy or checker version than the adapter now
/// reports, or saw an input or a target at another version than the adapter reports
/// (or one the adapter no longer reports); and such a receipt transfers no validity.
pub proof fn law_stale_check_stops_vouching(store: Store, grant: Grant, receipt: ActionReceipt,
    preflight: EffectPreflight, policy: Seq<u8>, intervention: Option<Seq<char>>, readable: Seq<String>,
    host: HostReport, now: nat, i: int, a: ArtifactRef)
    requires
        receipt.validations matches Some(checks) && 0 <= i < checks@.len() && (
            checks@[i].outcome != ValidationEvidenceOutcome::Passed
            || checks@[i].policy_version@ != hash_text(policy)
            || reported_checker(host.checkers@, checks@[i].check_ref@) != Some(checks@[i].checker_version@)
            || ((checks@[i].inputs@.contains(a) || checks@[i].targets@.contains(a))
                && !(first_at(host.artifacts@, a.path@) matches Some(c) && c.version@ == a.version@))),
    ensures
        !receipt_vouches(receipt, hash_text(policy), readable, host),
        store.transfer_gate(grant, receipt, preflight, policy, intervention, host, now) != TransferGate::Open,
{
    let checks = receipt.validations->0@;
    law_stale_check_closes_transfer(checks, hash_text(policy), host, i, a);
}

/// A receipt vouches for its properties only when the effect succeeded with its
/// execution established, its evidence and the receipt of each of its checks are still
/// readable, it carries at least one check, and each check passed under the owner's
/// checker policy and still sees its checker and every input and target at the versions
/// it ran with.
pub proof fn law_vouching_receipt_needs(receipt: ActionReceipt, policy: Seq<u8>, readable: Seq<String>, host: HostReport)
    requires
        receipt_vouches(receipt, hash_text(policy), readable, host),
    ensures
        receipt.status == EffectStatus::Succeeded,
        receipt.outcome_basis == Some(EffectOutcomeBasis::ExecutionEstablished),
        receipt.evidence_ref matches Some(source) && exists|k: int| 0 <= k < readable.len() && (#[trigger] readable[k])@ == source@,
        receipt.validations matches Some(checks) && checks@.len() > 0 && forall|i: int| 0 <= i < checks@.len() ==> {
            let c = #[trigger] checks@[i];
            &&& exists|k: int| 0 <= k < readable.len() && (#[trigger] readable[k])@ == c.receipt_ref@
            &&& c.outcome == ValidationEvidenceOutcome::Passed
            &&& c.policy_version@ == hash_text(policy)
            &&& reported_checker(host.checkers@, c.check_ref@) == Some(c.checker_version@)
            &&& forall|a: ArtifactRef| c.inputs@.contains(a) || c.targets@.contains(a)
                ==> (first_at(host.artifacts@, a.path@) matches Some(x) && x.version@ == a.version@)
        },
{
    let checks = receipt.validations->0@;
    assert forall|i: int| 0 <= i < checks.len() implies ({
        let c = #[trigger] checks[i];
        &&& exists|k: int| 0 <= k < readable.len() && (#[trigger] readable[k])@ == c.receipt_ref@
        &&& forall|a: ArtifactRef| c.inputs@.contains(a) || c.targets@.contains(a)
            ==> (first_at(host.artifacts@, a.path@) matches Some(x) && x.version@ == a.version@)
    }) by {
        let c = checks[i];
        assert(check_transferable(c, hash_text(policy), host) && listed(readable, c.receipt_ref@));
        assert forall|a: ArtifactRef| c.inputs@.contains(a) || c.targets@.contains(a)
            implies (first_at(host.artifacts@, a.path@) matches Some(x) && x.version@ == a.version@) by {
            if c.inputs@.contains(a) {
                let j = choose|j: int| 0 <= j < c.inputs@.len() && c.inputs@[j] == a;
                assert(host.reports_current(c.inputs@[j]));
            } else {
                let j = choose|j: int| 0 <= j < c.targets@.len() && c.targets@[j] == a;
                assert(host.reports_current(c.targets@[j]));
            }
        }
    }
}

impl Runtime {
    /// Whether the receipt still vouches for its restored properties, under the owner's
    /// checker policy serialized as `policy`, with `readable` the event sources the grant
    /// can currently read and `host` what the workspace adapter reports.
    pub fn property_receipt_current(
        &self,
        receipt: &ActionReceipt,
        policy: &[u8],
        readable: &Vec<String>,
        host: &HostReport,
    ) -> (r: Result<bool>)
        ensures
            r matches Ok(b) && b == receipt_vouches(*receipt, hash_text(policy@), readable@, *host),
    {
        if receipt.status != EffectStatus::Succeeded {
            return Ok(false);
        }
        match receipt.outcome_basis {
            Some(EffectOutcomeBasis::ExecutionEstablished) => {},
            _ => return Ok(false),
        }
        match &receipt.evidence_ref {
            Some(source) => if !is_listed(readable, source) {
                return Ok(false);
            },
            None => return Ok(false),
        }
        let checks = match &receipt.validations {
            Some(v) => v,
            None => return Ok(false),
        };
        if checks.len() == 0 {
            return Ok(false);
        }
        let policy_version = hash(policy);
        let mut i: usize = 0;
        while i < checks.len()
            invariant
                0 <= i <= checks@.len(),
                policy_version@ == hash_text(policy@),
                receipt.validations matches Some(v) && v@ == checks@,
                receipt.status == EffectStatus::Succeeded,
                receipt.outcome_basis == Some(EffectOutcomeBasis::ExecutionEstablished),
                receipt.evidence_ref matches Some(source) && listed(readable@, source@),
                checks@.len() > 0,
                forall|k: int| 0 <= k < i ==> check_transferable(#[trigger] checks@[k], policy_version@, *host)
                    && listed(readable@, checks@[k].receipt_ref@),
            decreases checks@.len() - i,
        {
            if !transferable_check(&checks[i], &policy_version, host) || !is_listed(readable, &checks[i].receipt_ref) {
                assert(!(check_transferable(checks@[i as int], policy_version@, *host)
                    && listed(readable@, checks@[i as int].receipt_ref@)));
                return Ok(false);
            }
            i = i + 1;
        }
        Ok(true)
    }
}

} // verus!
