//! Validation evidence that the host records for a completed check.

use vstd::prelude::*;
use crate::clock::now_ms;
use crate::compare::{grant_eq, opt_text, same_grant};
use crate::contracts::{
    Action, ActionKind, ActionReceipt, ArtifactRef, EffectOutcomeBasis, EffectStatus, Grant,
    PropertyBinding, ValidatedProperty, ValidationEvidence, ValidationEvidenceOutcome,
};
use crate::decimal::{counter, decimal_value, is_counter, signed_decimal_string, signed_repr};
use crate::digest::{hash, hash_text};
use crate::effects::{EffectPreflight, Runtime};
use crate::error::{Result, INVALID, MISSING};
use crate::host::{reported_checker, CheckOutput, HostReport};
use crate::parking::listed;
use crate::store::Store;
use crate::text::{insert_ordered, ordered_texts, text_less};

verus! {

/// The path is listed.
pub open spec fn lists_path(paths: Seq<String>, path: Seq<char>) -> bool {
    exists|k: int| 0 <= k < paths.len() && (#[trigger] paths[k])@ == path
}

/// The first artifact at `path`, if any.
pub open spec fn first_at(artifacts: Seq<ArtifactRef>, path: Seq<char>) -> Option<ArtifactRef>
    decreases artifacts.len(),
{
    if artifacts.len() == 0 {
        None
    } else if artifacts[0].path@ == path {
        Some(artifacts[0])
    } else {
        first_at(artifacts.drop_first(), path)
    }
}

/// The property a binding validates, when the check produced an artifact at its path.
pub open spec fn validated_by(after: Seq<ArtifactRef>) -> spec_fn(PropertyBinding) -> Option<ValidatedProperty> {
    |b: PropertyBinding| match first_at(after, b.path@) {
        Some(a) => Some(ValidatedProperty { obligation: b.obligation, artifact: a }),
        None => None,
    }
}

/// The artifacts a check validated: those it produced at a path it validates.
pub open spec fn validated_targets(after: Seq<ArtifactRef>, validates: Seq<String>) -> Seq<ArtifactRef> {
    after.filter(|a: ArtifactRef| lists_path(validates, a.path@))
}

fn is_listed_path(paths: &Vec<String>, path: &String) -> (r: bool)
    ensures
        r == lists_path(paths@, path@),
{
    let mut i: usize = 0;
    while i < paths.len()
        invariant
            0 <= i <= paths@.len(),
            forall|k: int| 0 <= k < i ==> (#[trigger] paths@[k])@ != path@,
        decreases paths@.len() - i,
    {
        if paths[i] == *path {
            return true;
        }
        i = i + 1;
    }
    false
}

/// The first artifact at `path`, if any.
pub(crate) fn find_at(artifacts: &Vec<ArtifactRef>, path: &String) -> (r: Option<ArtifactRef>)
    ensures
        r == first_at(artifacts@, path@),
{
    let mut i: usize = 0;
    assert(artifacts@.subrange(0, artifacts@.len() as int) =~= artifacts@);
    while i < artifacts.len()
        invariant
            0 <= i <= artifacts@.len(),
            first_at(artifacts@, path@) == first_at(artifacts@.subrange(i as int, artifacts@.len() as int), path@),
        decreases artifacts@.len() - i,
    {
        let ghost rest = artifacts@.subrange(i as int, artifacts@.len() as int);
        assert(rest.drop_first() =~= artifacts@.subrange(i + 1, artifacts@.len() as int));
        if artifacts[i].path == *path {
            return Some(artifacts[i].clone());
        }
        i = i + 1;
    }
    None
}

fn copy_artifacts(v: &Vec<ArtifactRef>) -> (r: Vec<ArtifactRef>)
    ensures
        r@ == v@,
{
    let mut out: Vec<ArtifactRef> = Vec::new();
    let mut i: usize = 0;
    while i < v.len()
        invariant
            0 <= i <= v@.len(),
            out@ == v@.subrange(0, i as int),
        decreases v@.len() - i,
    {
        out.push(v[i].clone());
        assert(out@ =~= v@.subrange(0, i + 1));
        i = i + 1;
    }
    assert(v@.subrange(0, v@.len() as int) =~= v@);
    out
}

/// The evidence a completed check of `receipt` provides at validation generation
/// `generation`, under the owner's checker policy serialized as `policy`. The check's
/// targets are the artifacts it produced at paths it validates; each property binding
/// is validated by the first artifact produced at its path.
pub fn check_evidence(policy: &[u8], receipt: &ActionReceipt, result: &CheckOutput, generation: i64) -> (r: ValidationEvidence)
    requires
        receipt.action.tool is Some,
    ensures
        r.check_ref == receipt.action.tool->0,
        r.checker_version == result.checker_version,
        r.policy_version@ == hash_text(policy@),
        r.authority@ == "ribosome-host"@,
        r.receipt_ref@ == "receipt:"@ + hash_text(vstd::utf8::encode_utf8(receipt.operation_id@)),
        r.inputs@ == result.before@,
        r.targets@ == validated_targets(result.after@, result.validates@),
        r.outcome == result.validation_outcome,
        r.branch_id == receipt.action.branch_id,
        r.generation@ == signed_repr(generation as int),
        r.properties matches Some(p) && p@ == result.properties@.filter_map(validated_by(result.after@)),
{
    let check_ref = match &receipt.action.tool {
        Some(t) => t.clone(),
        None => String::new(),
    };
    proof {
        reveal_strlit("receipt:");
    }
    let mut receipt_ref = "receipt:".to_owned();
    receipt_ref.append(hash(receipt.operation_id.as_str().as_bytes()).as_str());
    let after = &result.after;
    let mut targets: Vec<ArtifactRef> = Vec::new();
    let mut i: usize = 0;
    while i < after.len()
        invariant
            0 <= i <= after@.len(),
            targets@ == after@.subrange(0, i as int).filter(|a: ArtifactRef| lists_path(result.validates@, a.path@)),
        decreases after@.len() - i,
    {
        proof {
            reveal(Seq::filter);
            assert(after@.subrange(0, i + 1).drop_last() =~= after@.subrange(0, i as int));
        }
        if is_listed_path(&result.validates, &after[i].path) {
            targets.push(after[i].clone());
        }
        i = i + 1;
    }
    assert(after@.subrange(0, after@.len() as int) =~= after@);
    let bindings = &result.properties;
    let ghost f = validated_by(after@);
    let mut properties: Vec<ValidatedProperty> = Vec::new();
    let mut k: usize = 0;
    while k < bindings.len()
        invariant
            0 <= k <= bindings@.len(),
            f == validated_by(after@),
            properties@ == bindings@.subrange(0, k as int).filter_map(f),
        decreases bindings@.len() - k,
    {
        let b = &bindings[k];
        proof {
            assert(bindings@.subrange(0, k + 1).drop_last() =~= bindings@.subrange(0, k as int));
            assert(bindings@.subrange(0, k + 1).last() == *b);
        }
        match find_at(after, &b.path) {
            Some(a) => {
                properties.push(ValidatedProperty { obligation: b.obligation.clone(), artifact: a });
                assert(properties@ =~= bindings@.subrange(0, k + 1).filter_map(f));
            },
            None => {},
        }
        k = k + 1;
    }
    assert(bindings@.subrange(0, bindings@.len() as int) =~= bindings@);
    proof {
        reveal_strlit("ribosome-host");
    }
    ValidationEvidence {
        check_ref,
        checker_version: result.checker_version.clone(),
        policy_version: hash(policy),
        authority: "ribosome-host".to_owned(),
        receipt_ref,
        inputs: copy_artifacts(&result.before),
        targets,
        outcome: result.validation_outcome,
        branch_id: receipt.action.branch_id.clone(),
        generation: signed_decimal_string(generation),
        properties: Some(properties),
    }
}

/// Whether a completed effect's checks transfer validity to what it produced.
pub enum TransferGate {
    /// The checks transfer to their targets.
    Open,
    /// Nothing transfers; no error.
    Closed,
    /// The decision failed with this error code.
    Failed(i32),
}

/// Some artifact in the sequence is at `path`.
pub open spec fn has_path(artifacts: Seq<ArtifactRef>, path: Seq<char>) -> bool {
    exists|k: int| 0 <= k < artifacts.len() && (#[trigger] artifacts[k]).path@ == path
}

/// A target of a check transfers for the action: any target, except that an application
/// transfers only what it applied.
pub open spec fn transfers_to(action: Action, t: ArtifactRef) -> bool {
    action.kind != ActionKind::Apply || opt_text(action.path) == Some(t.path@)
}

/// The targets that transfer, check after check, in the order the checks list them.
pub open spec fn transfer_targets(checks: Seq<ValidationEvidence>, action: Action) -> Seq<ArtifactRef>
    decreases checks.len(),
{
    if checks.len() == 0 {
        Seq::empty()
    } else {
        transfer_targets(checks.drop_last(), action) + checks.last().targets@.filter(
            |t: ArtifactRef| transfers_to(action, t),
        )
    }
}

/// A generation counter clamped to the signed 64-bit range.
pub open spec fn clamped(n: nat) -> int {
    if n > i64::MAX { i64::MAX as int } else { n as int }
}

/// The oldest generation among the checks, clamped to the signed 64-bit range.
pub open spec fn oldest_generation(checks: Seq<ValidationEvidence>) -> int
    decreases checks.len(),
{
    if checks.len() == 0 {
        i64::MAX as int
    } else {
        let rest = oldest_generation(checks.drop_last());
        let g = clamped(decimal_value(checks.last().generation@));
        if g < rest { g } else { rest }
    }
}

/// A check still vouches for its targets: it passed under the owner's checker policy,
/// its checker is still installed at the version it ran, and every input and target is
/// still at the version it saw.
pub open spec fn check_transferable(check: ValidationEvidence, policy: Seq<char>, host: HostReport) -> bool {
    &&& check.outcome == ValidationEvidenceOutcome::Passed
    &&& check.policy_version@ == policy
    &&& reported_checker(host.checkers@, check.check_ref@) == Some(check.checker_version@)
    &&& forall|i: int| 0 <= i < check.inputs@.len() ==> host.reports_current(#[trigger] check.inputs@[i])
    &&& forall|i: int| 0 <= i < check.targets@.len() ==> host.reports_current(#[trigger] check.targets@[i])
}

/// The checks in order: the first that no longer vouches closes the transfer, and the
/// first whose generation is not a counter fails it.
pub open spec fn checks_gate(checks: Seq<ValidationEvidence>, policy: Seq<char>, host: HostReport) -> TransferGate
    decreases checks.len(),
{
    if checks.len() == 0 {
        TransferGate::Open
    } else if !check_transferable(checks[0], policy, host) {
        TransferGate::Closed
    } else if !is_counter(checks[0].generation@) {
        TransferGate::Failed(INVALID)
    } else {
        checks_gate(checks.drop_first(), policy, host)
    }
}

/// Some check was performed by checker `name` at `version`.
pub open spec fn performed(checks: Seq<ValidationEvidence>, name: Seq<char>, version: Seq<char>) -> bool {
    exists|j: int| 0 <= j < checks.len() && (#[trigger] checks[j]).check_ref@ == name && checks[j].checker_version@ == version
}

/// Each check pinned before the effect ran was performed at its pinned version, and as
/// many checks were performed as were pinned.
pub open spec fn pinned_checks_met(pinned: Seq<(String, String)>, checks: Seq<ValidationEvidence>) -> bool {
    &&& pinned.len() == checks.len()
    &&& forall|k: int| 0 <= k < pinned.len() ==> #[trigger] performed(checks, pinned[k].0@, pinned[k].1@)
}

/// The transferred targets: one per path that some transferring target is at, ordered by
/// path, each the first target at its path, all at generation `oldest`.
pub open spec fn transfers(v: Seq<(ArtifactRef, i64)>, targets: Seq<ArtifactRef>, oldest: int) -> bool {
    &&& forall|i: int, j: int| 0 <= i < j < v.len() ==> text_less(#[trigger] v[i].0.path@, #[trigger] v[j].0.path@)
    &&& forall|i: int| 0 <= i < v.len() ==> first_at(targets, (#[trigger] v[i]).0.path@) == Some(v[i].0)
        && v[i].1 == oldest
    &&& forall|p: Seq<char>| #[trigger] has_path(targets, p) <==> exists|i: int| 0 <= i < v.len() && (#[trigger] v[i]).0.path@ == p
}

impl Store {
    /// Whether the checks of a completed effect transfer validity at time `now`, given
    /// the owner's grant, the checks pinned before dispatch, the owner's checker policy
    /// serialized as `policy`, the current version of the intervention record the grant
    /// reads (if any) and what the workspace adapter reports.
    ///
    /// Only a successful effect whose execution was established transfers, and only from
    /// the live workspace unless it applied a branch. The run's grant must still be the
    /// owner's and unexpired; an application additionally needs its pinned intervention
    /// unchanged and its attachment write still allowed.
    pub open spec fn transfer_gate(
        self,
        grant: Grant,
        receipt: ActionReceipt,
        preflight: EffectPreflight,
        policy: Seq<u8>,
        intervention: Option<Seq<char>>,
        host: HostReport,
        now: nat,
    ) -> TransferGate {
        let action = receipt.action;
        let run = receipt.run_id@;
        if receipt.status != EffectStatus::Succeeded
            || receipt.outcome_basis != Some(EffectOutcomeBasis::ExecutionEstablished)
            || (action.kind != ActionKind::Apply && action.branch_id is Some) {
            TransferGate::Closed
        } else if receipt.validations is None || receipt.validations->0@.len() == 0 {
            TransferGate::Closed
        } else if !self.run_grant_known(run) {
            TransferGate::Failed(MISSING)
        } else if !same_grant(self.grant_at(self.run_at(run).grant_id@), grant) {
            TransferGate::Closed
        } else if !is_counter(grant.budget.deadline_ms@) {
            TransferGate::Failed(INVALID)
        } else if decimal_value(grant.budget.deadline_ms@) <= now {
            TransferGate::Closed
        } else if action.kind == ActionKind::Apply && (preflight.intervention is None
            || intervention != Some(preflight.intervention->0.version@)
            || self.attachment_write_failure(run, action, now) is Some) {
            TransferGate::Closed
        } else {
            let checks = receipt.validations->0@;
            match checks_gate(checks, hash_text(policy), host) {
                TransferGate::Open => if pinned_checks_met(preflight.checks@, checks) {
                    TransferGate::Open
                } else {
                    TransferGate::Closed
                },
                g => g,
            }
        }
    }
}

/// The checks open the transfer only when every one of them passed under the policy and
/// still sees its checker, and each of its inputs and targets, at the versions it ran
/// with: a check that failed or went stale, that ran under another checker policy or
/// checker version than the adapter now reports, or whose input or target the adapter
/// reports at another version or not at all, keeps the transfer from opening.
pub proof fn law_stale_check_closes_transfer(checks: Seq<ValidationEvidence>, policy: Seq<char>, host: HostReport,
    i: int, a: ArtifactRef)
    requires
        0 <= i < checks.len(),
        checks[i].outcome != ValidationEvidenceOutcome::Passed
            || checks[i].policy_version@ != policy
            || reported_checker(host.checkers@, checks[i].check_ref@) != Some(checks[i].checker_version@)
            || ((checks[i].inputs@.contains(a) || checks[i].targets@.contains(a))
                && !(first_at(host.artifacts@, a.path@) matches Some(c) && c.version@ == a.version@)),
    ensures
        !check_transferable(checks[i], policy, host),
        checks_gate(checks, policy, host) != TransferGate::Open,
    decreases checks.len(),
{
    if checks[i].inputs@.contains(a) && !host.reports_current(a) {
        let j = choose|j: int| 0 <= j < checks[i].inputs@.len() && checks[i].inputs@[j] == a;
        assert(!host.reports_current(checks[i].inputs@[j]));
    } else if checks[i].targets@.contains(a) && !host.reports_current(a) {
        let j = choose|j: int| 0 <= j < checks[i].targets@.len() && checks[i].targets@[j] == a;
        assert(!host.reports_current(checks[i].targets@[j]));
    }
    if i > 0 && check_transferable(checks[0], policy, host) && is_counter(checks[0].generation@) {
        assert(checks.drop_first()[i - 1] == checks[i]);
        law_stale_check_closes_transfer(checks.drop_first(), policy, host, i - 1, a);
    }
}

proof fn lemma_open_gate_checks(checks: Seq<ValidationEvidence>, policy: Seq<char>, host: HostReport)
    requires
        checks_gate(checks, policy, host) == TransferGate::Open,
    ensures
        forall|i: int| 0 <= i < checks.len() ==> check_transferable(#[trigger] checks[i], policy, host)
            && is_counter(checks[i].generation@),
    decreases checks.len(),
{
    if checks.len() > 0 {
        lemma_open_gate_checks(checks.drop_first(), policy, host);
        assert forall|i: int| 0 < i < checks.len() implies #[trigger] checks[i] == checks.drop_first()[i - 1] by {}
    }
}

/// Validity transfers from a completed effect only when the effect succeeded with its
/// execution established, acted on the live workspace unless it applied a branch,
/// carries checks, ran under the run's current and unexpired grant, performed every
/// check pinned before it ran, and each of its checks passed under the owner's checker
/// policy and still sees its checker and every input and target at the versions it ran
/// with.
pub proof fn law_open_transfer_needs(store: Store, grant: Grant, receipt: ActionReceipt, preflight: EffectPreflight,
    policy: Seq<u8>, intervention: Option<Seq<char>>, host: HostReport, now: nat)
    requires
        store.transfer_gate(grant, receipt, preflight, policy, intervention, host, now) == TransferGate::Open,
    ensures
        receipt.status == EffectStatus::Succeeded,
        receipt.outcome_basis == Some(EffectOutcomeBasis::ExecutionEstablished),
        receipt.action.kind == ActionKind::Apply || receipt.action.branch_id is None,
        receipt.validations matches Some(checks) && checks@.len() > 0 && pinned_checks_met(preflight.checks@, checks@),
        store.run_grant_known(receipt.run_id@),
        same_grant(store.grant_at(store.run_at(receipt.run_id@).grant_id@), grant),
        is_counter(grant.budget.deadline_ms@) && decimal_value(grant.budget.deadline_ms@) > now,
        receipt.action.kind == ActionKind::Apply ==> (preflight.intervention matches Some(p)
            && intervention == Some(p.version@) && store.attachment_write_failure(receipt.run_id@, receipt.action, now) is None),
        receipt.validations matches Some(checks) && forall|i: int| 0 <= i < checks@.len() ==> {
            let c = #[trigger] checks@[i];
            &&& c.outcome == ValidationEvidenceOutcome::Passed
            &&& c.policy_version@ == hash_text(policy)
            &&& reported_checker(host.checkers@, c.check_ref@) == Some(c.checker_version@)
            &&& forall|a: ArtifactRef| c.inputs@.contains(a) || c.targets@.contains(a)
                ==> (first_at(host.artifacts@, a.path@) matches Some(x) && x.version@ == a.version@)
        },
{
    let checks = receipt.validations->0@;
    lemma_open_gate_checks(checks, hash_text(policy), host);
    assert forall|i: int| 0 <= i < checks.len() implies ({
        let c = #[trigger] checks[i];
        forall|a: ArtifactRef| c.inputs@.contains(a) || c.targets@.contains(a)
            ==> (first_at(host.artifacts@, a.path@) matches Some(x) && x.version@ == a.version@)
    }) by {
        let c = checks[i];
        assert(check_transferable(c, hash_text(policy), host));
        assert forall|a: ArtifactRef| c.inputs@.contains(a) || c.targets@.contains(a)
            implies (first_at(host.artifacts@, a.path@) matches Some(x) && x.version@ == a.version@) by {
            if c.inputs@.contains(a) {
                let j = choose|j: int| 0 <= j < c.inputs@.len() && c.inputs@[j] == a;
                assert(host.reports_current(c.inputs@[j]));
            } else {
                let j = choose|j: int| 0 <= j < c.targets@.len() && c.targets@[j] == a;
                assert(host.reports_current(c.targets@[j]));
            }
        }
    }
}

proof fn lemma_first_at_member(s: Seq<ArtifactRef>, p: Seq<char>)
    ensures
        first_at(s, p) matches Some(x) ==> s.contains(x) && x.path@ == p,
    decreases s.len(),
{
    if s.len() > 0 && s[0].path@ != p {
        lemma_first_at_member(s.drop_first(), p);
        if first_at(s, p) is Some {
            let x = first_at(s, p)->0;
            let k = choose|k: int| 0 <= k < s.drop_first().len() && s.drop_first()[k] == x;
            assert(s[k + 1] == x);
        }
    } else if s.len() > 0 {
        assert(s[0] == s[0]);
    }
}

proof fn lemma_transfer_targets_member(checks: Seq<ValidationEvidence>, action: Action, t: ArtifactRef)
    ensures
        transfer_targets(checks, action).contains(t) <==> transfers_to(action, t) && exists|c: int, j: int|
            0 <= c < checks.len() && 0 <= j < checks[c].targets@.len() && #[trigger] checks[c].targets@[j] == t,
    decreases checks.len(),
{
    broadcast use vstd::seq_lib::group_filter_ensures;
    if checks.len() > 0 {
        let d = checks.drop_last();
        let n = checks.len() - 1;
        let pred = |x: ArtifactRef| transfers_to(action, x);
        let last = checks.last().targets@;
        lemma_transfer_targets_member(d, action, t);
        let all = transfer_targets(checks, action);
        assert(all == transfer_targets(d, action) + last.filter(pred));
        if all.contains(t) {
            let k = choose|k: int| 0 <= k < all.len() && all[k] == t;
            if k >= transfer_targets(d, action).len() {
                let k2 = k - transfer_targets(d, action).len();
                assert(last.filter(pred)[k2] == t);
                assert(last.filter(pred).contains(t));
                last.lemma_filter_contains_rev(pred, t);
                let j = choose|j: int| 0 <= j < last.len() && last[j] == t;
                assert(checks[n].targets@[j] == t);
            } else {
                assert(transfer_targets(d, action)[k] == t);
                assert(transfer_targets(d, action).contains(t));
                let (c, j) = choose|c: int, j: int| 0 <= c < d.len() && 0 <= j < d[c].targets@.len() && #[trigger] d[c].targets@[j] == t;
                assert(checks[c] == d[c]);
            }
        }
        if transfers_to(action, t) && exists|c: int, j: int|
            0 <= c < checks.len() && 0 <= j < checks[c].targets@.len() && #[trigger] checks[c].targets@[j] == t {
            let (c, j) = choose|c: int, j: int| 0 <= c < checks.len() && 0 <= j < checks[c].targets@.len() && #[trigger] checks[c].targets@[j] == t;
            if c == n {
                last.lemma_filter_contains(pred, j);
                let k = choose|k: int| 0 <= k < last.filter(pred).len() && last.filter(pred)[k] == t;
                assert(all[transfer_targets(d, action).len() + k] == t);
            } else {
                assert(d[c] == checks[c]);
                assert(d[c].targets@[j] == t);
                assert(transfer_targets(d, action).contains(t));
                let k = choose|k: int| 0 <= k < transfer_targets(d, action).len() && transfer_targets(d, action)[k] == t;
                assert(all[k] == t);
            }
        }
    }
}

/// Some check targets the artifact.
pub open spec fn targeted(checks: Seq<ValidationEvidence>, t: ArtifactRef) -> bool {
    exists|c: int, j: int| 0 <= c < checks.len() && 0 <= j < checks[c].targets@.len() && #[trigger] checks[c].targets@[j] == t
}

/// Some transferred artifact is at `path`.
pub open spec fn transferred_path(v: Seq<(ArtifactRef, i64)>, path: Seq<char>) -> bool {
    exists|i: int| 0 <= i < v.len() && (#[trigger] v[i]).0.path@ == path
}

proof fn lemma_oldest_at_most(checks: Seq<ValidationEvidence>, c: int)
    requires
        0 <= c < checks.len(),
    ensures
        oldest_generation(checks) <= clamped(decimal_value(checks[c].generation@)),
    decreases checks.len(),
{
    if c < checks.len() - 1 {
        assert(checks.drop_last()[c] == checks[c]);
        lemma_oldest_at_most(checks.drop_last(), c);
    }
}

/// What transfers from a completed effect's checks: each transferred artifact is a
/// target of one of the checks, an application transfers only the path it applied,
/// every target that may transfer has its path transferred, and the generation given to
/// each is no newer than that of any check.
pub proof fn law_transfer_shape(checks: Seq<ValidationEvidence>, action: Action, v: Seq<(ArtifactRef, i64)>)
    requires
        transfers(v, transfer_targets(checks, action), oldest_generation(checks)),
    ensures
        forall|i: int| 0 <= i < v.len() ==> targeted(checks, (#[trigger] v[i]).0),
        forall|i: int| 0 <= i < v.len() && action.kind == ActionKind::Apply
            ==> opt_text(action.path) == Some((#[trigger] v[i]).0.path@),
        forall|i: int, c: int| 0 <= i < v.len() && 0 <= c < checks.len()
            ==> (#[trigger] v[i]).1 <= clamped(decimal_value((#[trigger] checks[c]).generation@)),
        forall|c: int, j: int| #![trigger checks[c].targets@[j]] 0 <= c < checks.len() && 0 <= j < checks[c].targets@.len()
            && (action.kind != ActionKind::Apply || opt_text(action.path) == Some(checks[c].targets@[j].path@))
            ==> transferred_path(v, checks[c].targets@[j].path@),
{
    let targets = transfer_targets(checks, action);
    assert forall|i: int| 0 <= i < v.len() implies targeted(checks, (#[trigger] v[i]).0) by {
        lemma_first_at_member(targets, v[i].0.path@);
        lemma_transfer_targets_member(checks, action, v[i].0);
        let (c, j) = choose|c: int, j: int| 0 <= c < checks.len() && 0 <= j < checks[c].targets@.len()
            && #[trigger] checks[c].targets@[j] == v[i].0;
        assert(checks[c].targets@[j] == v[i].0);
    }
    assert forall|i: int| 0 <= i < v.len() && action.kind == ActionKind::Apply
        implies opt_text(action.path) == Some((#[trigger] v[i]).0.path@) by {
        lemma_first_at_member(targets, v[i].0.path@);
        lemma_transfer_targets_member(checks, action, v[i].0);
    }
    assert forall|i: int, c: int| 0 <= i < v.len() && 0 <= c < checks.len()
        implies (#[trigger] v[i]).1 <= clamped(decimal_value((#[trigger] checks[c]).generation@)) by {
        lemma_oldest_at_most(checks, c);
    }
    assert forall|c: int, j: int| #![trigger checks[c].targets@[j]] 0 <= c < checks.len() && 0 <= j < checks[c].targets@.len()
        && (action.kind != ActionKind::Apply || opt_text(action.path) == Some(checks[c].targets@[j].path@))
        implies transferred_path(v, checks[c].targets@[j].path@) by {
        let t = checks[c].targets@[j];
        lemma_transfer_targets_member(checks, action, t);
        assert(targets.contains(t));
        let k = choose|k: int| 0 <= k < targets.len() && targets[k] == t;
        assert(targets[k].path@ == t.path@);
        assert(has_path(targets, t.path@));
        let i = choose|i: int| 0 <= i < v.len() && (#[trigger] v[i]).0.path@ == t.path@;
        assert(v[i].0.path@ == checks[c].targets@[j].path@);
    }
}

proof fn lemma_first_at_found(s: Seq<ArtifactRef>, p: Seq<char>)
    requires
        has_path(s, p),
    ensures
        first_at(s, p) matches Some(a) && a.path@ == p,
    decreases s.len(),
{
    if s[0].path@ != p {
        let k = choose|k: int| 0 <= k < s.len() && (#[trigger] s[k]).path@ == p;
        assert(s.drop_first()[k - 1] == s[k]);
        lemma_first_at_found(s.drop_first(), p);
    }
}

pub(crate) fn transferable_check(check: &ValidationEvidence, policy: &String, host: &HostReport) -> (r: bool)
    ensures
        r == check_transferable(*check, policy@, *host),
{
    if check.outcome != ValidationEvidenceOutcome::Passed || check.policy_version != *policy {
        return false;
    }
    if !host.reports_checker(&check.check_ref, &check.checker_version) {
        return false;
    }
    host.all_current(&check.inputs) && host.all_current(&check.targets)
}

fn pinned_checks_match(pinned: &Vec<(String, String)>, checks: &Vec<ValidationEvidence>) -> (r: bool)
    ensures
        r == pinned_checks_met(pinned@, checks@),
{
    if pinned.len() != checks.len() {
        return false;
    }
    let mut k: usize = 0;
    while k < pinned.len()
        invariant
            0 <= k <= pinned@.len(),
            pinned@.len() == checks@.len(),
            forall|q: int| 0 <= q < k ==> #[trigger] performed(checks@, pinned@[q].0@, pinned@[q].1@),
        decreases pinned@.len() - k,
    {
        let mut j: usize = 0;
        let mut found = false;
        while j < checks.len()
            invariant
                0 <= k < pinned@.len(),
                0 <= j <= checks@.len(),
                !found ==> forall|q: int| 0 <= q < j ==> !((#[trigger] checks@[q]).check_ref@ == pinned@[k as int].0@
                    && checks@[q].checker_version@ == pinned@[k as int].1@),
                found ==> performed(checks@, pinned@[k as int].0@, pinned@[k as int].1@),
            decreases checks@.len() - j,
        {
            if !found && checks[j].check_ref == pinned[k].0 && checks[j].checker_version == pinned[k].1 {
                found = true;
                assert(checks@[j as int].check_ref@ == pinned@[k as int].0@);
            }
            j = j + 1;
        }
        if !found {
            assert(!performed(checks@, pinned@[k as int].0@, pinned@[k as int].1@));
            return false;
        }
        k = k + 1;
    }
    true
}

fn is_some_path(path: &Option<String>, target: &String) -> (r: bool)
    ensures
        r == (opt_text(*path) == Some(target@)),
{
    match path {
        Some(p) => *p == *target,
        None => false,
    }
}

impl Runtime {
    /// The targets whose validity a completed effect's checks transfer at time `now`,
    /// each with the generation of the oldest check, as `Store::transfer_gate` decides.
    /// `policy` is the owner's checker policy as serialized for hashing, `intervention`
    /// the current version of the pinned intervention record as the grant reads it, and
    /// `host` what the workspace adapter reports about checkers and artifacts.
    pub fn transferable_validation_at(
        &self,
        grant: &Grant,
        receipt: &ActionReceipt,
        preflight: &EffectPreflight,
        policy: &[u8],
        intervention: &Option<String>,
        host: &HostReport,
        now: u64,
    ) -> (r: Result<Vec<(ArtifactRef, i64)>>)
        requires
            self.store.wf(),
        ensures
            match self.store.transfer_gate(*grant, *receipt, *preflight, policy@, opt_text(*intervention), *host, now as nat) {
                TransferGate::Failed(code) => r matches Err(e) && e.code == code,
                TransferGate::Closed => r matches Ok(v) && v@.len() == 0,
                TransferGate::Open => r matches Ok(v) && transfers(
                    v@,
                    transfer_targets(receipt.validations->0@, receipt.action),
                    oldest_generation(receipt.validations->0@),
                ),
            },
    {
        let action = &receipt.action;
        let established = match receipt.outcome_basis {
            Some(EffectOutcomeBasis::ExecutionEstablished) => true,
            _ => false,
        };
        if receipt.status != EffectStatus::Succeeded || !established
            || (action.kind != ActionKind::Apply && action.branch_id.is_some()) {
            return Ok(Vec::new());
        }
        let checks = match &receipt.validations {
            Some(v) => v,
            None => return Ok(Vec::new()),
        };
        if checks.len() == 0 {
            return Ok(Vec::new());
        }
        let current = self.store.run_grant(&receipt.run_id)?;
        if !grant_eq(current, grant) {
            return Ok(Vec::new());
        }
        let deadline = counter(grant.budget.deadline_ms.as_str())?;
        if deadline <= now {
            return Ok(Vec::new());
        }
        if action.kind == ActionKind::Apply {
            let reference = match &preflight.intervention {
                Some(r) => r,
                None => return Ok(Vec::new()),
            };
            let version = match intervention {
                Some(v) => v,
                None => return Ok(Vec::new()),
            };
            if *version != reference.version {
                return Ok(Vec::new());
            }
            if self.store.require_attachment_write_at(&receipt.run_id, action, now).is_err() {
                return Ok(Vec::new());
            }
        }
        let policy_version = hash(policy);
        let ghost all = checks@;
        let mut targets: Vec<ArtifactRef> = Vec::new();
        let mut oldest: i64 = i64::MAX;
        let mut i: usize = 0;
        assert(all.subrange(0, all.len() as int) =~= all);
        assert(all.subrange(0, 0) =~= Seq::<ValidationEvidence>::empty());
        while i < checks.len()
            invariant
                0 <= i <= all.len(),
                all == checks@,
                policy_version@ == hash_text(policy@),
                checks_gate(all, policy_version@, *host) == checks_gate(all.subrange(i as int, all.len() as int), policy_version@, *host),
                receipt.validations matches Some(v) && v@ == all,
                self.store.transfer_gate(*grant, *receipt, *preflight, policy@, opt_text(*intervention), *host, now as nat)
                    == (match checks_gate(all, hash_text(policy@), *host) {
                        TransferGate::Open => if pinned_checks_met(preflight.checks@, all) {
                            TransferGate::Open
                        } else {
                            TransferGate::Closed
                        },
                        g => g,
                    }),
                targets@ == transfer_targets(all.subrange(0, i as int), *action),
                oldest as int == oldest_generation(all.subrange(0, i as int)),
            decreases all.len() - i,
        {
            let check = &checks[i];
            let ghost rest = all.subrange(i as int, all.len() as int);
            assert(rest[0] == *check);
            assert(rest.drop_first() =~= all.subrange(i + 1, all.len() as int));
            if !transferable_check(check, &policy_version, host) {
                return Ok(Vec::new());
            }
            let g = counter(check.generation.as_str())?;
            let g: i64 = if g > i64::MAX as u64 { i64::MAX } else { g as i64 };
            let ghost done = all.subrange(0, i + 1);
            assert(done.drop_last() =~= all.subrange(0, i as int));
            assert(done.last() == *check);
            if g < oldest {
                oldest = g;
            }
            let ghost before = targets@;
            let produced = &check.targets;
            let mut j: usize = 0;
            while j < produced.len()
                invariant
                    0 <= j <= produced@.len(),
                    produced@ == check.targets@,
                    targets@ == before + produced@.subrange(0, j as int).filter(|t: ArtifactRef| transfers_to(*action, t)),
                decreases produced@.len() - j,
            {
                proof {
                    reveal(Seq::filter);
                    assert(produced@.subrange(0, j + 1).drop_last() =~= produced@.subrange(0, j as int));
                }
                let t = &produced[j];
                if action.kind != ActionKind::Apply || is_some_path(&action.path, &t.path) {
                    targets.push(t.clone());
                    assert(targets@ =~= before + produced@.subrange(0, j + 1).filter(|t: ArtifactRef| transfers_to(*action, t)));
                } else {
                    assert(targets@ =~= before + produced@.subrange(0, j + 1).filter(|t: ArtifactRef| transfers_to(*action, t)));
                }
                j = j + 1;
            }
            assert(produced@.subrange(0, produced@.len() as int) =~= produced@);
            assert(targets@ == transfer_targets(done, *action));
            i = i + 1;
        }
        if !pinned_checks_match(&preflight.checks, checks) {
            return Ok(Vec::new());
        }
        let mut paths: Vec<String> = Vec::new();
        let mut k: usize = 0;
        while k < targets.len()
            invariant
                0 <= k <= targets@.len(),
                ordered_texts(paths@),
                forall|p: Seq<char>| #[trigger] listed(paths@, p) <==> has_path(targets@.subrange(0, k as int), p),
            decreases targets@.len() - k,
        {
            let ghost prev = paths@;
            insert_ordered(&mut paths, targets[k].path.clone());
            assert forall|p: Seq<char>| #[trigger] listed(paths@, p) <==> has_path(targets@.subrange(0, k + 1), p) by {
                let s = targets@.subrange(0, k + 1);
                if has_path(s, p) {
                    let q = choose|q: int| 0 <= q < s.len() && (#[trigger] s[q]).path@ == p;
                    if q < k {
                        assert(targets@.subrange(0, k as int)[q] == s[q]);
                        assert(has_path(targets@.subrange(0, k as int), p));
                    }
                }
                if has_path(targets@.subrange(0, k as int), p) {
                    let q = choose|q: int| 0 <= q < k && (#[trigger] targets@.subrange(0, k as int)[q]).path@ == p;
                    assert(s[q] == targets@.subrange(0, k as int)[q]);
                }
                if p == targets@[k as int].path@ {
                    assert(s[k as int] == targets@[k as int]);
                }
            }
            k = k + 1;
        }
        assert(targets@.subrange(0, targets@.len() as int) =~= targets@);
        let mut out: Vec<(ArtifactRef, i64)> = Vec::new();
        let mut m: usize = 0;
        while m < paths.len()
            invariant
                0 <= m <= paths@.len(),
                out@.len() == m,
                ordered_texts(paths@),
                forall|p: Seq<char>| #[trigger] listed(paths@, p) <==> has_path(targets@, p),
                forall|q: int| 0 <= q < m ==> (#[trigger] out@[q]).0.path@ == paths@[q]@
                    && first_at(targets@, paths@[q]@) == Some(out@[q].0) && out@[q].1 == oldest,
            decreases paths@.len() - m,
        {
            assert(listed(paths@, paths@[m as int]@));
            proof {
                lemma_first_at_found(targets@, paths@[m as int]@);
            }
            match find_at(&targets, &paths[m]) {
                Some(a) => {
                    out.push((a, oldest));
                },
                None => {},
            }
            m = m + 1;
        }
        proof {
            assert forall|p: Seq<char>| #[trigger] has_path(targets@, p) implies
                exists|q: int| 0 <= q < out@.len() && (#[trigger] out@[q]).0.path@ == p by {
                assert(listed(paths@, p));
                let q = choose|q: int| 0 <= q < paths@.len() && (#[trigger] paths@[q])@ == p;
                assert(out@[q].0.path@ == p);
            }
            assert forall|p: Seq<char>| (exists|q: int| 0 <= q < out@.len() && (#[trigger] out@[q]).0.path@ == p)
                implies #[trigger] has_path(targets@, p) by {
                let q = choose|q: int| 0 <= q < out@.len() && (#[trigger] out@[q]).0.path@ == p;
                assert(paths@[q]@ == p);
                assert(listed(paths@, p));
            }
        }
        Ok(out)
    }

    /// `transferable_validation_at` at the current time.
    pub fn transferable_validation(
        &self,
        grant: &Grant,
        receipt: &ActionReceipt,
        preflight: &EffectPreflight,
        policy: &[u8],
        intervention: &Option<String>,
        host: &HostReport,
    ) -> (r: Result<Vec<(ArtifactRef, i64)>>)
        requires
            self.store.wf(),
        ensures
            exists|now: nat| match #[trigger] self.store.transfer_gate(*grant, *receipt, *preflight, policy@, opt_text(*intervention), *host, now) {
                TransferGate::Failed(code) => r matches Err(e) && e.code == code,
                TransferGate::Closed => r matches Ok(v) && v@.len() == 0,
                TransferGate::Open => r matches Ok(v) && transfers(
                    v@,
                    transfer_targets(receipt.validations->0@, receipt.action),
                    oldest_generation(receipt.validations->0@),
                ),
            },
    {
        let now = now_ms();
        let r = self.transferable_validation_at(grant, receipt, preflight, policy, intervention, host, now);
        assert(match self.store.transfer_gate(*grant, *receipt, *preflight, policy@, opt_text(*intervention), *host, now as nat) {
            TransferGate::Failed(code) => r matches Err(e) && e.code == code,
            TransferGate::Closed => r matches Ok(v) && v@.len() == 0,
            TransferGate::Open => r matches Ok(v) && transfers(
                v@,
                transfer_targets(receipt.validations->0@, receipt.action),
                oldest_generation(receipt.validations->0@),
            ),
        });
        r
    }
}

} // verus!
