use ribosome::contracts::{
    Action, ActionKind, ActionReceipt, ArtifactRef, Budget, EffectOutcomeBasis, EffectStatus, Grant, Mode, Profile,
    Scope, Split, ValidatedProperty, ValidationEvidence, ValidationEvidenceOutcome, VersionRef,
};
use ribosome::digest::hash;
use ribosome::effects::{EffectObservation, EffectPreflight, Runtime};
use ribosome::error::{CONFLICT, INTERNAL};
use ribosome::host::HostReport;
use ribosome::store::Store;
use ribosome::validity::{DependencyEdge, InvalidationMark, ObligationEntry, ScopeClock};

const POLICY: &[u8] = b"{\"id\":\"g1\"}";

fn scope() -> Scope {
    Scope { client: "test".into(), project: "finalize".into() }
}

fn artifact(path: &str, version: &str) -> ArtifactRef {
    ArtifactRef { path: path.into(), version: version.into() }
}

fn grant() -> Grant {
    Grant {
        id: "g1".into(),
        scope: scope(),
        mode: Mode::Apply,
        paths: vec!["a.txt".into(), "b.txt".into(), "c.txt".into(), "d.txt".into()],
        tools: vec![],
        profiles: vec![Profile::Caretaker],
        budget: Budget {
            max_calls: 5,
            max_tokens: "100".into(),
            max_cost_microusd: "100".into(),
            max_actions: 5,
            max_work_items: 2,
            max_depth: 2,
            deadline_ms: "10000".into(),
        },
        context: "finalize".into(),
        visible_splits: vec![Split::Development],
        allow_export: false,
        required_checks: None,
        writable_paths: None,
        discovery_corpus: None,
        prepared_run: None,
    }
}

fn property(id: &str, version: &str, path: &str, artifact_version: &str) -> ValidatedProperty {
    ValidatedProperty {
        obligation: VersionRef { id: id.into(), version: version.into() },
        artifact: artifact(path, artifact_version),
    }
}

fn check(name: &str, version: &str, targets: Vec<ArtifactRef>, generation: &str, properties: Vec<ValidatedProperty>) -> ValidationEvidence {
    ValidationEvidence {
        check_ref: name.into(),
        checker_version: version.into(),
        policy_version: hash(POLICY),
        authority: "ribosome-host".into(),
        receipt_ref: "receipt:x".into(),
        inputs: vec![artifact("src.rs", "v5")],
        targets,
        outcome: ValidationEvidenceOutcome::Passed,
        branch_id: None,
        generation: generation.into(),
        properties: Some(properties),
    }
}

fn edit(operation: &str) -> Action {
    Action {
        operation_id: operation.into(),
        kind: ActionKind::Edit,
        path: Some("a.txt".into()),
        expected_version: None,
        content: Some("new".into()),
        tool: None,
        branch_id: None,
        intervention_ref: None,
        implementation: None,
    }
}

fn receipt(operation: &str, checks: Vec<ValidationEvidence>) -> ActionReceipt {
    ActionReceipt {
        operation_id: operation.into(),
        run_id: "run-1".into(),
        status: EffectStatus::Succeeded,
        action: edit(operation),
        before: vec![],
        after: vec![],
        output: "done".into(),
        side_effects: vec!["z.txt".into()],
        started_ms: "1".into(),
        finished_ms: None,
        elapsed_ms: None,
        reconciled: false,
        evidence_ref: None,
        outcome_basis: Some(EffectOutcomeBasis::ExecutionEstablished),
        validations: Some(checks),
        restored_validity: None,
        restored_properties: None,
        settlement: None,
        content_available: Some(true),
    }
}

fn host() -> HostReport {
    HostReport {
        checkers: vec![("lint".into(), "lint@2".into()), ("fmt".into(), "fmt@1".into())],
        artifacts: vec![artifact("src.rs", "v5"), artifact("a.txt", "v1"), artifact("b.txt", "v2"), artifact("c.txt", "v3")],
    }
}

fn observation(operation: &str, checks: Vec<ValidationEvidence>) -> EffectObservation {
    let mut preflight = EffectPreflight::default();
    preflight.checks = checks.iter().map(|c| (c.check_ref.clone(), c.checker_version.clone())).collect();
    EffectObservation {
        receipt: receipt(operation, checks),
        writes: vec!["a.txt".into()],
        validation_generation: 0,
        branch: None,
        preflight,
    }
}

fn runtime() -> Runtime {
    let mut store = Store::new();
    let g = grant();
    store.register_grant(g.clone()).unwrap();
    store.start_run("run-1".into(), &g.id).unwrap();
    store.validity.clocks.push(ScopeClock { scope: scope(), generation: 3 });
    store.validity.marks.push(InvalidationMark { scope: scope(), path: "a.txt".into(), generation: 3, invalidated: true });
    store.validity.dependencies.push(DependencyEdge { scope: scope(), source: "a.txt".into(), dependent: "d.txt".into() });
    store.validity.dependencies.push(DependencyEdge { scope: scope(), source: "d.txt".into(), dependent: "e.txt".into() });
    store.validity.obligations.push(ObligationEntry {
        scope: scope(),
        id: "ob-1".into(),
        version: "1".into(),
        affected_outputs: vec!["a.txt".into()],
    });
    Runtime { store }
}

fn mark(runtime: &Runtime, path: &str) -> Option<(i64, bool)> {
    runtime.store.validity.marks.iter().find(|m| m.path == path).map(|m| (m.generation, m.invalidated))
}

#[test]
fn finalizing_invalidates_dependents_and_restores_only_covered_validity() {
    let mut runtime = runtime();
    let run = "run-1".to_string();
    runtime.begin_effect_at(&run, &edit("op-1"), "src-1".into(), 1).unwrap();
    let checks = vec![
        check("lint", "lint@2", vec![artifact("b.txt", "v2"), artifact("a.txt", "v1")], "7", vec![property("ob-1", "1", "a.txt", "v1")]),
        check("fmt", "fmt@1", vec![artifact("c.txt", "v3"), artifact("a.txt", "v1")], "4", vec![]),
    ];
    runtime.store.capture_effect(observation("op-1", checks)).unwrap();
    runtime.finalize_effect_at(&"op-1".to_string(), POLICY, &None, &host(), 100).unwrap();
    let rc = runtime.store.finalized_receipt(&"op-1".to_string()).unwrap();
    assert_eq!(rc.side_effects, vec!["d.txt", "e.txt", "z.txt"]);
    assert_eq!(rc.restored_validity, Some(vec![artifact("a.txt", "v1")]));
    assert_eq!(rc.restored_properties, Some(vec![property("ob-1", "1", "a.txt", "v1")]));
    assert_eq!(rc.evidence_ref, Some(format!("receipt:{}", hash(b"op-1"))));
    assert_eq!(rc.output, "done");
    assert_eq!(mark(&runtime, "a.txt"), Some((3, false)));
    assert_eq!(mark(&runtime, "d.txt"), Some((4, true)));
    assert_eq!(mark(&runtime, "e.txt"), Some((4, true)));
    assert_eq!(runtime.store.validity.clocks[0].generation, 4);
    let record = &runtime.store.validity.properties[0];
    assert_eq!(record.operation_id, "op-1");
    assert_eq!(record.generation, 4);
    let before = runtime.store.validity.marks.len();
    assert!(runtime.finalize_effect_at(&"op-1".to_string(), POLICY, &None, &host(), 200).is_ok());
    assert_eq!(runtime.store.validity.marks.len(), before);
    assert_eq!(runtime.store.validity.clocks[0].generation, 4);
}

#[test]
fn a_later_invalidation_or_an_uncaptured_outcome_blocks_restoration() {
    let mut runtime = runtime();
    let run = "run-1".to_string();
    runtime.begin_effect_at(&run, &edit("op-2"), "src-2".into(), 1).unwrap();
    assert_eq!(runtime.finalize_effect_at(&"op-2".to_string(), POLICY, &None, &host(), 100).unwrap_err().code, CONFLICT);
    assert_eq!(runtime.finalize_effect_at(&"op-9".to_string(), POLICY, &None, &host(), 100).unwrap_err().code, INTERNAL);
    runtime.store.validity.marks[0].generation = 9;
    let checks = vec![check("lint", "lint@2", vec![artifact("a.txt", "v1")], "7", vec![property("ob-1", "1", "a.txt", "v1")])];
    runtime.store.capture_effect(observation("op-2", checks)).unwrap();
    assert_eq!(runtime.store.capture_effect(observation("op-2", vec![])).unwrap_err().code, CONFLICT);
    runtime.finalize_effect_at(&"op-2".to_string(), POLICY, &None, &host(), 100).unwrap();
    let rc = runtime.store.finalized_receipt(&"op-2".to_string()).unwrap();
    assert_eq!(rc.restored_validity, Some(vec![]));
    assert_eq!(rc.restored_properties, Some(vec![]));
    assert_eq!(mark(&runtime, "a.txt"), Some((9, true)));
}

#[test]
fn independent_checks_accumulate_property_coverage() {
    let mut runtime = runtime();
    runtime.store.validity.obligations.push(ObligationEntry {
        scope: scope(),
        id: "ob-2".into(),
        version: "1".into(),
        affected_outputs: vec!["a.txt".into()],
    });
    let run = "run-1".to_string();
    runtime.begin_effect_at(&run, &edit("op-3"), "src-3".into(), 1).unwrap();
    let first = vec![check("lint", "lint@2", vec![artifact("a.txt", "v1")], "7", vec![property("ob-1", "1", "a.txt", "v1")])];
    runtime.store.capture_effect(observation("op-3", first)).unwrap();
    runtime.finalize_effect_at(&"op-3".to_string(), POLICY, &None, &host(), 100).unwrap();
    let rc = runtime.store.finalized_receipt(&"op-3".to_string()).unwrap();
    assert_eq!(rc.restored_validity, Some(vec![]));
    assert_eq!(mark(&runtime, "a.txt"), Some((3, true)));
    let mut second_edit = edit("op-4");
    second_edit.content = Some("again".into());
    runtime.begin_effect_at(&run, &second_edit, "src-4".into(), 2).unwrap();
    let second = vec![check("lint", "lint@2", vec![artifact("a.txt", "v1")], "8", vec![property("ob-2", "1", "a.txt", "v1")])];
    let mut obs = observation("op-4", second);
    obs.receipt.action = second_edit;
    runtime.store.capture_effect(obs).unwrap();
    runtime.finalize_effect_at(&"op-4".to_string(), POLICY, &None, &host(), 100).unwrap();
    let rc = runtime.store.finalized_receipt(&"op-4".to_string()).unwrap();
    assert_eq!(rc.restored_validity, Some(vec![artifact("a.txt", "v1")]));
    assert_eq!(mark(&runtime, "a.txt"), Some((3, false)));
}

#[test]
fn a_finalized_effect_logs_its_completion_once() {
    let mut runtime = runtime();
    let run = "run-1".to_string();
    runtime.begin_effect_at(&run, &edit("op-5"), "src-5".into(), 1).unwrap();
    assert_eq!(runtime.store.record_completion(&"op-5".to_string(), "{}".into(), Split::Development).unwrap_err().code, CONFLICT);
    runtime.store.capture_effect(observation("op-5", vec![])).unwrap();
    runtime.finalize_effect_at(&"op-5".to_string(), POLICY, &None, &host(), 100).unwrap();
    assert!(runtime.store.record_completion(&"op-5".to_string(), "{\"done\":1}".into(), Split::Development).unwrap());
    assert_eq!(runtime.store.events.len(), 1);
    let event = &runtime.store.events[0].event;
    assert_eq!(event.id, format!("receipt:{}", hash(b"op-5")));
    assert_eq!(event.kind, "action_completion");
    assert_eq!(event.producer, "ribosome-host");
    assert_eq!(event.sequence, "1");
    assert!(!runtime.store.record_completion(&"op-5".to_string(), "{\"done\":1}".into(), Split::Development).unwrap());
    assert_eq!(runtime.store.events.len(), 1);
}

#[test]
fn finalizing_again_answers_and_changes_nothing() {
    let mut runtime = runtime();
    let run = "run-1".to_string();
    let op = "op-6".to_string();
    runtime.begin_effect_at(&run, &edit("op-6"), "src-6".into(), 1).unwrap();
    runtime.store.capture_effect(observation("op-6", vec![])).unwrap();
    runtime.finalize_effect_at(&op, POLICY, &None, &host(), 100).unwrap();
    let first = runtime.store.finalized_receipt(&op).unwrap().clone();
    let marks = runtime.store.validity.marks.len();
    let clocks = runtime.store.validity.clocks.len();
    runtime.finalize_effect_at(&op, POLICY, &None, &host(), 200).unwrap();
    assert_eq!(runtime.store.finalized_receipt(&op).unwrap(), &first);
    assert_eq!(runtime.store.validity.marks.len(), marks);
    assert_eq!(runtime.store.validity.clocks.len(), clocks);
    assert_eq!(runtime.finalize_effect_at(&"op-missing".to_string(), POLICY, &None, &host(), 300).unwrap_err().code, INTERNAL);
}
