use ribosome::contracts::{
    Action, ActionKind, ActionReceipt, ArtifactRef, Budget, EffectOutcomeBasis, EffectStatus, Grant,
    Mode, Profile, Scope, Split, ValidationEvidence, ValidationEvidenceOutcome, VersionRef,
};
use ribosome::digest::hash;
use ribosome::effects::{EffectPreflight, Runtime};
use ribosome::error::{INVALID, MISSING};
use ribosome::host::HostReport;
use ribosome::store::Store;

const POLICY: &[u8] = b"{\"id\":\"g1\"}";

fn artifact(path: &str, version: &str) -> ArtifactRef {
    ArtifactRef { path: path.into(), version: version.into() }
}

fn grant() -> Grant {
    Grant {
        id: "g1".into(),
        scope: Scope { client: "test".into(), project: "transfer".into() },
        mode: Mode::Apply,
        paths: vec![],
        tools: vec![],
        profiles: vec![Profile::Caretaker],
        budget: Budget {
            max_calls: 5,
            max_tokens: "100".into(),
            max_cost_microusd: "100".into(),
            max_actions: 5,
            max_work_items: 2,
            max_depth: 2,
            deadline_ms: "10000".into(),
        },
        context: "transfer".into(),
        visible_splits: vec![Split::Development],
        allow_export: false,
        required_checks: None,
        writable_paths: None,
        discovery_corpus: None,
        prepared_run: None,
    }
}

fn check(name: &str, version: &str, targets: Vec<ArtifactRef>, generation: &str) -> ValidationEvidence {
    ValidationEvidence {
        check_ref: name.into(),
        checker_version: version.into(),
        policy_version: hash(POLICY),
        authority: "ribosome-host".into(),
        receipt_ref: "receipt:x".into(),
        inputs: vec![artifact("src.rs", "v5")],
        targets,
        outcome: ValidationEvidenceOutcome::Passed,
        branch_id: None,
        generation: generation.into(),
        properties: None,
    }
}

fn receipt(kind: ActionKind, checks: Vec<ValidationEvidence>) -> ActionReceipt {
    ActionReceipt {
        operation_id: "op-1".into(),
        run_id: "run-1".into(),
        status: EffectStatus::Succeeded,
        action: Action {
            operation_id: "op-1".into(),
            kind,
            path: Some("a.txt".into()),
            expected_version: None,
            content: None,
            tool: Some("lint".into()),
            branch_id: None,
            intervention_ref: None,
            implementation: None,
        },
        before: vec![],
        after: vec![],
        output: String::new(),
        side_effects: vec![],
        started_ms: "1".into(),
        finished_ms: None,
        elapsed_ms: None,
        reconciled: false,
        evidence_ref: None,
        outcome_basis: Some(EffectOutcomeBasis::ExecutionEstablished),
        validations: Some(checks),
        restored_validity: None,
        restored_properties: None,
        settlement: None,
        content_available: Some(true),
    }
}

fn checks() -> Vec<ValidationEvidence> {
    vec![
        check("lint", "lint@2", vec![artifact("b.txt", "v2"), artifact("a.txt", "v1")], "7"),
        check("fmt", "fmt@1", vec![artifact("c.txt", "v3"), artifact("a.txt", "v1")], "4"),
    ]
}

fn preflight() -> EffectPreflight {
    let mut p = EffectPreflight::default();
    p.checks = vec![("lint".into(), "lint@2".into()), ("fmt".into(), "fmt@1".into())];
    p
}

fn host() -> HostReport {
    HostReport {
        checkers: vec![("lint".into(), "lint@2".into()), ("fmt".into(), "fmt@1".into())],
        artifacts: vec![
            artifact("src.rs", "v5"),
            artifact("a.txt", "v1"),
            artifact("b.txt", "v2"),
            artifact("c.txt", "v3"),
        ],
    }
}

fn runtime() -> Runtime {
    let mut store = Store::new();
    let g = grant();
    store.register_grant(g.clone()).unwrap();
    store.start_run("run-1".into(), &g.id).unwrap();
    Runtime { store }
}

#[test]
fn passed_checks_transfer_each_target_once_in_path_order_at_the_oldest_generation() {
    let rt = runtime();
    let r = rt
        .transferable_validation_at(&grant(), &receipt(ActionKind::Check, checks()), &preflight(), POLICY, &None, &host(), 100)
        .unwrap();
    assert_eq!(
        r,
        vec![(artifact("a.txt", "v1"), 4), (artifact("b.txt", "v2"), 4), (artifact("c.txt", "v3"), 4)]
    );
}

#[test]
fn a_stale_checker_an_expired_grant_or_an_unpinned_check_transfers_nothing() {
    let rt = runtime();
    let r = receipt(ActionKind::Check, checks());
    let mut stale = host();
    stale.checkers[1].1 = "fmt@0".into();
    assert!(rt.transferable_validation_at(&grant(), &r, &preflight(), POLICY, &None, &stale, 100).unwrap().is_empty());
    let mut moved = host();
    moved.artifacts[0].version = "v6".into();
    assert!(rt.transferable_validation_at(&grant(), &r, &preflight(), POLICY, &None, &moved, 100).unwrap().is_empty());
    assert!(rt.transferable_validation_at(&grant(), &r, &preflight(), POLICY, &None, &host(), 10000).unwrap().is_empty());
    let mut fewer = preflight();
    fewer.checks.pop();
    assert!(rt.transferable_validation_at(&grant(), &r, &fewer, POLICY, &None, &host(), 100).unwrap().is_empty());
    assert!(rt.transferable_validation_at(&grant(), &r, &preflight(), b"other", &None, &host(), 100).unwrap().is_empty());
    let mut other = grant();
    other.budget.max_calls = 4;
    assert!(rt.transferable_validation_at(&other, &r, &preflight(), POLICY, &None, &host(), 100).unwrap().is_empty());
    let mut failed = receipt(ActionKind::Check, checks());
    failed.status = EffectStatus::Failed;
    assert!(rt.transferable_validation_at(&grant(), &failed, &preflight(), POLICY, &None, &host(), 100).unwrap().is_empty());
}

#[test]
fn an_unreadable_generation_or_an_unknown_run_is_an_error() {
    let rt = runtime();
    let mut bad = checks();
    bad[1].generation = "soon".into();
    let r = rt.transferable_validation_at(&grant(), &receipt(ActionKind::Check, bad), &preflight(), POLICY, &None, &host(), 100);
    assert_eq!(r.unwrap_err().code, INVALID);
    let mut lost = receipt(ActionKind::Check, checks());
    lost.run_id = "nobody".into();
    let r = rt.transferable_validation_at(&grant(), &lost, &preflight(), POLICY, &None, &host(), 100);
    assert_eq!(r.unwrap_err().code, MISSING);
}

#[test]
fn an_application_transfers_only_its_path_with_its_intervention_unchanged() {
    let rt = runtime();
    let r = receipt(ActionKind::Apply, checks());
    let mut pinned = preflight();
    pinned.intervention = Some(VersionRef { id: "rec-1".into(), version: "3".into() });
    let out = rt
        .transferable_validation_at(&grant(), &r, &pinned, POLICY, &Some("3".into()), &host(), 100)
        .unwrap();
    assert_eq!(out, vec![(artifact("a.txt", "v1"), 4)]);
    assert!(rt.transferable_validation_at(&grant(), &r, &pinned, POLICY, &Some("4".into()), &host(), 100).unwrap().is_empty());
    assert!(rt.transferable_validation_at(&grant(), &r, &preflight(), POLICY, &Some("3".into()), &host(), 100).unwrap().is_empty());
}

#[test]
fn a_receipt_vouches_for_properties_only_while_its_checks_and_evidence_hold() {
    let rt = runtime();
    let mut r = receipt(ActionKind::Check, checks());
    r.evidence_ref = Some("ev-1".into());
    let readable: Vec<String> = vec!["ev-1".into(), "receipt:x".into()];
    assert!(rt.property_receipt_current(&r, POLICY, &readable, &host()).unwrap());
    let hidden: Vec<String> = vec!["receipt:x".into()];
    assert!(!rt.property_receipt_current(&r, POLICY, &hidden, &host()).unwrap());
    let unreceipted: Vec<String> = vec!["ev-1".into()];
    assert!(!rt.property_receipt_current(&r, POLICY, &unreceipted, &host()).unwrap());
    let mut stale = host();
    stale.checkers[0].1 = "lint@3".into();
    assert!(!rt.property_receipt_current(&r, POLICY, &readable, &stale).unwrap());
    assert!(!rt.property_receipt_current(&r, b"other", &readable, &host()).unwrap());
    let mut none = r.clone();
    none.validations = Some(vec![]);
    assert!(!rt.property_receipt_current(&none, POLICY, &readable, &host()).unwrap());
}
