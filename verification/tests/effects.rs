use ribosome::contracts::{
    Action, ActionKind, ActionReceipt, ArtifactRef, Budget, EffectSettlement,
    EffectSettlementRequest, EffectStatus, Grant, Mode, Profile, PropertyBinding, Scope, Split,
    ValidationEvidenceOutcome, VersionRef,
};
use ribosome::digest::{allocation_id, hash};
use ribosome::effect_validation::check_evidence;
use ribosome::contracts::EffectOutcomeBasis;
use ribosome::effects::{reconciled_observation, EffectObservation, Runtime};
use ribosome::host::HostReport;
use ribosome::error::{CONFLICT, DENIED, EXHAUSTED, MISSING};
use ribosome::host::CheckOutput;
use ribosome::store::{EffectEntry, EffectPhase, RunStatus, Store};

fn action(kind: ActionKind) -> Action {
    Action {
        operation_id: "op-1".into(),
        kind,
        path: Some("report.md".into()),
        expected_version: None,
        content: Some("new text".into()),
        tool: Some("lint".into()),
        branch_id: Some("b1".into()),
        intervention_ref: None,
        implementation: None,
    }
}

fn receipt(status: EffectStatus) -> ActionReceipt {
    ActionReceipt {
        operation_id: "op-1".into(),
        run_id: "run-1".into(),
        status,
        action: action(ActionKind::Check),
        before: vec![],
        after: vec![],
        output: "checked".into(),
        side_effects: vec!["wrote cache".into()],
        started_ms: "1".into(),
        finished_ms: None,
        elapsed_ms: None,
        reconciled: false,
        evidence_ref: Some("event-1".into()),
        outcome_basis: None,
        validations: None,
        restored_validity: Some(vec![]),
        restored_properties: None,
        settlement: None,
        content_available: Some(true),
    }
}

fn settlement() -> EffectSettlement {
    EffectSettlement {
        request: EffectSettlementRequest {
            operation_id: "op-1".into(),
            expected_receipt_version: "v".into(),
            executor_stopped: true,
            workspace_versions: vec![],
            reason: "owner stopped it".into(),
            source_refs: vec!["event-2".into()],
        },
        evidence_ref: "event-3".into(),
        recorded_ms: "5".into(),
    }
}

fn artifact(path: &str, version: &str) -> ArtifactRef {
    ArtifactRef { path: path.into(), version: version.into() }
}

#[test]
fn started_or_unsettled_unknown_effects_need_reconciliation() {
    assert!(receipt(EffectStatus::Started).requires_reconciliation());
    assert!(receipt(EffectStatus::Unknown).requires_reconciliation());
    let mut settled = receipt(EffectStatus::Unknown);
    settled.settlement = Some(settlement());
    assert!(!settled.requires_reconciliation());
    assert!(!receipt(EffectStatus::Succeeded).requires_reconciliation());
    assert!(!receipt(EffectStatus::Denied).requires_reconciliation());
}

#[test]
fn withholding_content_keeps_only_the_outcome() {
    let mut r = receipt(EffectStatus::Succeeded);
    r.settlement = Some(settlement());
    r.withhold_content();
    assert_eq!(r.content_available, Some(false));
    assert_eq!(r.action.content, None);
    assert_eq!(r.action.path.as_deref(), Some("report.md"));
    assert_eq!(r.output, "Receipt content withheld because its sources are unavailable or unverified.");
    assert!(r.side_effects.is_empty());
    assert_eq!(r.restored_validity, None);
    assert_eq!(r.status, EffectStatus::Succeeded);
    let st = r.settlement.unwrap();
    assert_eq!(st.request.reason, "Source content withheld.");
    assert!(st.request.source_refs.is_empty());
    assert_eq!(st.evidence_ref, "event-3");
}

#[test]
fn receipts_are_delivered_whole_only_with_available_sources() {
    let store = Store::new();
    let whole = store.receipt_for_delivery(receipt(EffectStatus::Succeeded), true, false);
    assert_eq!(whole.output, "checked");
    let unavailable = store.receipt_for_delivery(receipt(EffectStatus::Succeeded), false, true);
    assert_eq!(unavailable.content_available, Some(false));
    let mut settled = receipt(EffectStatus::Succeeded);
    settled.settlement = Some(settlement());
    let withheld = store.receipt_for_delivery(settled, true, false);
    assert_eq!(withheld.content_available, Some(false));
    let mut uncaptured = receipt(EffectStatus::Succeeded);
    uncaptured.content_available = None;
    assert_eq!(store.receipt_for_delivery(uncaptured, true, true).content_available, Some(false));
}

#[test]
fn a_new_observation_holds_only_its_receipt() {
    let observation = EffectObservation::new(receipt(EffectStatus::Started));
    assert_eq!(observation.receipt.operation_id, "op-1");
    assert!(observation.writes.is_empty());
    assert_eq!(observation.validation_generation, 0);
    assert!(observation.branch.is_none());
    assert!(observation.preflight.checks.is_empty());
}

#[test]
fn check_evidence_targets_validated_outputs_and_bound_properties() {
    let result = CheckOutput {
        success: true,
        output: String::new(),
        before: vec![artifact("a.txt", "v0")],
        after: vec![artifact("a.txt", "v1"), artifact("b.txt", "v2"), artifact("a.txt", "v3")],
        validates: vec!["a.txt".into()],
        writes: vec![],
        checker_version: "lint@2".into(),
        validation_outcome: ValidationEvidenceOutcome::Passed,
        properties: vec![
            PropertyBinding { obligation: VersionRef { id: "ob-1".into(), version: "1".into() }, path: "a.txt".into() },
            PropertyBinding { obligation: VersionRef { id: "ob-2".into(), version: "1".into() }, path: "c.txt".into() },
        ],
    };
    let evidence = check_evidence(b"{\"id\":\"g1\"}", &receipt(EffectStatus::Succeeded), &result, -3);
    assert_eq!(evidence.check_ref, "lint");
    assert_eq!(evidence.checker_version, "lint@2");
    assert_eq!(evidence.policy_version, hash(b"{\"id\":\"g1\"}"));
    assert_eq!(evidence.authority, "ribosome-host");
    assert_eq!(evidence.receipt_ref, format!("receipt:{}", hash(b"op-1")));
    assert_eq!(evidence.inputs, vec![artifact("a.txt", "v0")]);
    assert_eq!(evidence.targets, vec![artifact("a.txt", "v1"), artifact("a.txt", "v3")]);
    assert_eq!(evidence.branch_id.as_deref(), Some("b1"));
    assert_eq!(evidence.generation, "-3");
    let properties = evidence.properties.unwrap();
    assert_eq!(properties.len(), 1);
    assert_eq!(properties[0].obligation.id, "ob-1");
    assert_eq!(properties[0].artifact, artifact("a.txt", "v1"));
}

fn grant(mode: Mode, actions: u32, deadline: &str) -> Grant {
    Grant {
        id: "g1".into(),
        scope: Scope { client: "test".into(), project: "effects".into() },
        mode,
        paths: vec![],
        tools: vec![],
        profiles: vec![Profile::Caretaker],
        budget: Budget {
            max_calls: 5,
            max_tokens: "100".into(),
            max_cost_microusd: "100".into(),
            max_actions: actions,
            max_work_items: 2,
            max_depth: 2,
            deadline_ms: deadline.into(),
        },
        context: "effects".into(),
        visible_splits: vec![Split::Development],
        allow_export: false,
        required_checks: None,
        writable_paths: None,
        discovery_corpus: None,
        prepared_run: None,
    }
}

fn effect(id: &str) -> EffectEntry {
    let mut check = action(ActionKind::Check);
    check.operation_id = id.into();
    EffectEntry {
        id: id.into(),
        grant_id: "g1".into(),
        run_id: "run-1".into(),
        allocation_id: Some(allocation_id("root", "g1")),
        action: check,
        phase: EffectPhase::Finalized,
        status: EffectStatus::Succeeded,
        settled: false,
        writes: vec![],
        observation: None,
        finalized: None,
    }
}

#[test]
fn beginning_an_effect_records_it_before_dispatch_and_refuses_reused_operations() {
    let mut store = Store::new();
    let g = grant(Mode::Apply, 3, "10000");
    store.register_grant(g.clone()).unwrap();
    store.start_run("run-1".into(), &g.id).unwrap();
    let mut runtime = Runtime { store };
    let run = "run-1".to_string();
    let edit = action(ActionKind::Edit);
    let receipt = runtime.begin_effect_at(&run, &edit, "src-1".into(), 42).unwrap().unwrap();
    assert_eq!(receipt.status, EffectStatus::Started);
    assert_eq!(receipt.operation_id, "op-1");
    assert_eq!(receipt.run_id, "run-1");
    assert_eq!(receipt.started_ms, "42");
    assert_eq!(receipt.evidence_ref, Some("src-1".to_string()));
    assert!(receipt.finished_ms.is_none());
    assert_eq!(runtime.store.effects.len(), 1);
    let stored = &runtime.store.effects[0];
    assert_eq!(stored.id, "op-1");
    assert_eq!(stored.grant_id, "g1");
    assert_eq!(stored.phase, EffectPhase::Prepared);
    assert_eq!(stored.allocation_id, Some(allocation_id("root", "g1")));
    assert!(runtime.begin_effect_at(&run, &edit, "src-2".into(), 43).unwrap().is_none());
    assert_eq!(runtime.store.effects.len(), 1);
    let mut other = edit.clone();
    other.content = Some("other text".into());
    assert_eq!(runtime.begin_effect_at(&run, &other, "src-3".into(), 44).unwrap_err().code, CONFLICT);
    assert_eq!(runtime.begin_effect_at(&"nobody".to_string(), &edit, "src-4".into(), 45).unwrap_err().code, MISSING);
    assert_eq!(runtime.store.effects.len(), 1);
}

#[test]
fn unsettled_writers_fence_new_live_writes() {
    let mut store = Store::new();
    let mut live = effect("e1");
    live.action = action(ActionKind::Apply);
    live.phase = EffectPhase::Dispatching;
    live.status = EffectStatus::Started;
    store.effects.push(live);
    let writes = vec!["report.md".to_string()];
    assert_eq!(store.require_write_fence(&"e2".to_string(), &writes).unwrap_err().code, DENIED);
    assert!(store.require_write_fence(&"e1".to_string(), &writes).is_ok());
    assert!(store.require_write_fence(&"e2".to_string(), &vec![]).is_ok());
    store.effects[0].phase = EffectPhase::Finalized;
    store.effects[0].status = EffectStatus::Unknown;
    assert_eq!(store.require_write_fence(&"e2".to_string(), &writes).unwrap_err().code, DENIED);
    store.effects[0].settled = true;
    assert!(store.require_write_fence(&"e2".to_string(), &writes).is_ok());
    let mut checker = effect("e3");
    checker.phase = EffectPhase::Dispatching;
    store.effects.push(checker);
    assert!(store.require_write_fence(&"e2".to_string(), &writes).is_ok());
}

#[test]
fn effects_need_an_active_uncancelled_run_with_actions_left() {
    let mut store = Store::new();
    let g = grant(Mode::Apply, 1, "10000");
    store.register_grant(g.clone()).unwrap();
    store.start_run("run-1".into(), &g.id).unwrap();
    let run = "run-1".to_string();
    let check = action(ActionKind::Check);
    assert!(store.effect_admission(&run, &g, false, &check, 100).is_ok());
    assert_eq!(store.effect_admission(&run, &g, true, &check, 100).unwrap_err().code, DENIED);
    assert_eq!(store.effect_admission(&run, &g, false, &check, 10000).unwrap_err().code, EXHAUSTED);
    let observer = grant(Mode::Observe, 1, "10000");
    assert_eq!(store.effect_admission(&run, &observer, false, &check, 100).unwrap_err().code, DENIED);
    assert_eq!(store.effect_admission(&"nobody".to_string(), &g, false, &check, 100).unwrap_err().code, MISSING);
    store.effects.push(effect("e1"));
    assert!(store.effect_admission(&run, &g, false, &check, 100).is_ok());
    store.effects.push(effect("e2"));
    assert_eq!(store.effect_admission(&run, &g, false, &check, 100).unwrap_err().code, EXHAUSTED);
    store.set_run_status(&run, RunStatus::Waiting).unwrap();
    assert_eq!(store.effect_admission(&run, &g, false, &check, 100).unwrap_err().code, DENIED);
}

#[test]
fn only_the_owner_with_the_stored_grant_finds_an_effect() {
    let mut store = Store::new();
    let g = grant(Mode::Apply, 1, "10000");
    store.register_grant(g.clone()).unwrap();
    store.effects.push(effect("e1"));
    let runtime = Runtime { store };
    assert_eq!(runtime.require_effect_owner(&g, &"e1".to_string()).unwrap(), "run-1");
    assert_eq!(runtime.require_effect_owner(&g, &"e2".to_string()).unwrap_err().code, MISSING);
    let changed = grant(Mode::Observe, 1, "10000");
    assert_eq!(runtime.require_effect_owner(&changed, &"e1".to_string()).unwrap_err().code, DENIED);
    let mut stranger = g.clone();
    stranger.id = "g9".into();
    assert_eq!(runtime.require_effect_owner(&stranger, &"e1".to_string()).unwrap_err().code, MISSING);
}

#[test]
fn reconciliation_leaves_the_outcome_unknown_unless_the_desired_content_is_in_place() {
    let g = grant(Mode::Apply, 1, "10000");
    let desired = hash(b"new text");
    let report = HostReport { checkers: vec![], artifacts: vec![artifact("report.md", &desired)] };
    let mut started = receipt(EffectStatus::Started);
    started.action = action(ActionKind::Apply);
    let r = reconciled_observation(&g, started.clone(), vec![], 4, &None, &report, 77);
    assert!(r.receipt.reconciled);
    assert_eq!(r.receipt.status, EffectStatus::Unknown);
    assert_eq!(r.receipt.finished_ms.as_deref(), Some("77"));
    assert_eq!(r.receipt.outcome_basis, Some(EffectOutcomeBasis::CurrentPostconditionObserved));
    assert_eq!(r.receipt.after, vec![artifact("report.md", &desired)]);
    assert!(r.receipt.output.starts_with("Desired current content observed."));
    assert_eq!(r.writes, vec!["report.md".to_string()]);
    assert_eq!(r.validation_generation, 4);
    let stale = HostReport { checkers: vec![], artifacts: vec![artifact("report.md", "sha256:old")] };
    let r = reconciled_observation(&g, started.clone(), vec!["x".into()], 4, &None, &stale, 77);
    assert_eq!(r.receipt.outcome_basis, Some(EffectOutcomeBasis::Unresolved));
    assert!(r.receipt.output.starts_with("Host has no captured adapter outcome."));
    assert_eq!(r.writes, vec!["x".to_string(), "report.md".to_string()]);
    let mut branched = receipt(EffectStatus::Started);
    branched.action = action(ActionKind::Edit);
    let r = reconciled_observation(&g, branched.clone(), vec![], 0, &Some("/tmp/b1".into()), &report, 1);
    assert_eq!(r.receipt.outcome_basis, Some(EffectOutcomeBasis::CurrentPostconditionObserved));
    assert!(r.writes.is_empty());
    let r = reconciled_observation(&g, branched, vec![], 0, &None, &report, 1);
    assert_eq!(r.receipt.outcome_basis, Some(EffectOutcomeBasis::Unresolved));
    let mut executed = receipt(EffectStatus::Started);
    let mut run = action(ActionKind::Execute);
    run.branch_id = None;
    executed.action = run;
    let mut writer = g.clone();
    writer.paths = vec!["a".into(), "b".into()];
    let r = reconciled_observation(&writer, executed.clone(), vec![], 0, &None, &report, 1);
    assert_eq!(r.writes, vec!["a".to_string(), "b".to_string()]);
    writer.writable_paths = Some(vec!["b".into()]);
    let r = reconciled_observation(&writer, executed, vec![], 0, &None, &report, 1);
    assert_eq!(r.writes, vec!["b".to_string()]);
}
