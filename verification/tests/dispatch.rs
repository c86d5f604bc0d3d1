use ribosome::contracts::{
    Action, ActionKind, ArtifactRef, Budget, EffectOutcomeBasis, EffectStatus, Grant, Mode, Profile,
    Scope, Split, ValidationEvidence, ValidationEvidenceOutcome, VersionRef,
};
use ribosome::dispatch::{
    acceptance_checks, apply_parts, check_tool, edit_parts, mark_stale_checker, refused_dispatch,
    require_certificate_current, require_validated_artifact,
};
use ribosome::error::{CONFLICT, DENIED, EXHAUSTED, INVALID};
use ribosome::host::CheckOutput;

fn grant(mode: Mode, required: Option<Vec<&str>>) -> Grant {
    Grant {
        id: "g1".into(),
        scope: Scope { client: "test".into(), project: "dispatch".into() },
        mode,
        paths: vec![],
        tools: vec![],
        profiles: vec![Profile::Caretaker],
        budget: Budget {
            max_calls: 1,
            max_tokens: "1".into(),
            max_cost_microusd: "1".into(),
            max_actions: 1,
            max_work_items: 1,
            max_depth: 1,
            deadline_ms: "1".into(),
        },
        context: "dispatch".into(),
        visible_splits: vec![Split::Development],
        allow_export: false,
        required_checks: required.map(|v| v.into_iter().map(String::from).collect()),
        writable_paths: None,
        discovery_corpus: None,
        prepared_run: None,
    }
}

fn action(kind: ActionKind) -> Action {
    Action {
        operation_id: "op".into(),
        kind,
        path: Some("report.md".into()),
        expected_version: Some("v1".into()),
        content: Some("text".into()),
        tool: Some("lint".into()),
        branch_id: Some("b1".into()),
        intervention_ref: Some("iv-1".into()),
        implementation: None,
    }
}

fn evidence(check: &str, branch: Option<&str>, outcome: ValidationEvidenceOutcome, targets: Vec<ArtifactRef>) -> ValidationEvidence {
    ValidationEvidence {
        check_ref: check.into(),
        checker_version: "lint@2".into(),
        policy_version: "policy".into(),
        authority: "ribosome-host".into(),
        receipt_ref: "receipt:x".into(),
        inputs: vec![],
        targets,
        outcome,
        branch_id: branch.map(String::from),
        generation: "0".into(),
        properties: None,
    }
}

fn artifact(path: &str, version: &str) -> ArtifactRef {
    ArtifactRef { path: path.into(), version: version.into() }
}

#[test]
fn edits_name_their_target_and_respect_required_checks() {
    let (p, v, c) = edit_parts(&grant(Mode::Apply, None), &action(ActionKind::Edit), false).unwrap();
    assert_eq!((p.as_str(), v.as_str(), c.as_str()), ("report.md", "v1", "text"));
    let checked = grant(Mode::Apply, Some(vec!["lint"]));
    assert_eq!(edit_parts(&checked, &action(ActionKind::Edit), false).unwrap_err().code, DENIED);
    assert!(edit_parts(&checked, &action(ActionKind::Edit), true).is_ok());
    assert!(edit_parts(&grant(Mode::Apply, Some(vec![])), &action(ActionKind::Edit), false).is_ok());
    let mut blank = action(ActionKind::Edit);
    blank.content = None;
    assert_eq!(edit_parts(&checked, &blank, true).unwrap_err().code, INVALID);
}

#[test]
fn checks_and_executions_name_their_tool() {
    assert_eq!(check_tool(&action(ActionKind::Check)).unwrap(), "lint");
    let mut untooled = action(ActionKind::Check);
    untooled.tool = None;
    assert_eq!(check_tool(&untooled).unwrap_err().code, INVALID);
    assert_eq!(check_tool(&action(ActionKind::Execute)).unwrap_err().code, INVALID);
    let mut admitted = action(ActionKind::Execute);
    admitted.implementation = Some(VersionRef { id: "impl".into(), version: "1".into() });
    assert_eq!(check_tool(&admitted).unwrap(), "lint");
}

#[test]
fn a_changed_checker_makes_validation_stale() {
    let mut result = CheckOutput {
        success: true,
        output: "ok".into(),
        before: vec![],
        after: vec![],
        validates: vec![],
        writes: vec![],
        checker_version: "lint@3".into(),
        validation_outcome: ValidationEvidenceOutcome::Passed,
        properties: vec![],
    };
    mark_stale_checker(&mut result, &"lint@3".to_string());
    assert!(result.success);
    mark_stale_checker(&mut result, &"lint@2".to_string());
    assert!(!result.success);
    assert_eq!(result.validation_outcome, ValidationEvidenceOutcome::Stale);
    assert_eq!(result.output, "ok\nChecker identity changed after preflight; validation is stale.");
}

#[test]
fn applications_need_an_apply_grant_and_a_checked_branch() {
    let (p, v, i) = apply_parts(&grant(Mode::Apply, None), &action(ActionKind::Apply), true).unwrap();
    assert_eq!((p.as_str(), v.as_str(), i.as_str()), ("report.md", "v1", "iv-1"));
    assert_eq!(apply_parts(&grant(Mode::Sandbox, None), &action(ActionKind::Apply), true).unwrap_err().code, DENIED);
    assert_eq!(apply_parts(&grant(Mode::Apply, None), &action(ActionKind::Apply), false).unwrap_err().code, INVALID);
    let mut unreferenced = action(ActionKind::Apply);
    unreferenced.intervention_ref = None;
    assert_eq!(apply_parts(&grant(Mode::Apply, None), &unreferenced, true).unwrap_err().code, INVALID);
}

#[test]
fn acceptance_checks_merge_intervention_and_grant_names_in_order() {
    let checks = acceptance_checks(&vec!["tests".into(), "lint".into()], &grant(Mode::Apply, Some(vec!["lint", "audit"]))).unwrap();
    assert_eq!(checks, vec!["audit", "lint", "tests"]);
    let none = acceptance_checks(&vec![], &grant(Mode::Apply, Some(vec![])));
    assert_eq!(none.unwrap_err().code, DENIED);
    assert_eq!(acceptance_checks(&vec!["b".into(), "a".into(), "b".into()], &grant(Mode::Apply, None)).unwrap(), vec!["a", "b"]);
}

#[test]
fn acceptance_evidence_must_match_what_was_pinned() {
    let cert = evidence("lint", Some("b1"), ValidationEvidenceOutcome::Passed, vec![]);
    let pinned = "lint@2".to_string();
    let policy = "policy".to_string();
    let branch = Some("b1".to_string());
    assert!(require_certificate_current(&cert, &"lint".to_string(), &branch, &policy, &pinned).is_ok());
    assert_eq!(require_certificate_current(&cert, &"tests".to_string(), &branch, &policy, &pinned).unwrap_err().code, CONFLICT);
    assert_eq!(require_certificate_current(&cert, &"lint".to_string(), &None, &policy, &pinned).unwrap_err().code, CONFLICT);
    assert_eq!(require_certificate_current(&cert, &"lint".to_string(), &branch, &policy, &"lint@3".to_string()).unwrap_err().code, CONFLICT);
    let failed = evidence("lint", Some("b1"), ValidationEvidenceOutcome::Failed, vec![]);
    assert_eq!(require_certificate_current(&failed, &"lint".to_string(), &branch, &policy, &pinned).unwrap_err().code, CONFLICT);
}

#[test]
fn applied_artifacts_must_be_validated_explicitly() {
    let checks = vec![
        evidence("lint", None, ValidationEvidenceOutcome::Passed, vec![artifact("a.md", "v1")]),
        evidence("tests", None, ValidationEvidenceOutcome::Passed, vec![artifact("report.md", "v2")]),
    ];
    assert!(require_validated_artifact(&checks, &artifact("report.md", "v2")).is_ok());
    assert_eq!(require_validated_artifact(&checks, &artifact("report.md", "v1")).unwrap_err().code, DENIED);
    assert_eq!(require_validated_artifact(&vec![], &artifact("report.md", "v2")).unwrap_err().code, DENIED);
}

#[test]
fn refused_dispatch_records_what_is_known() {
    assert_eq!(refused_dispatch(DENIED, true), (EffectStatus::Denied, EffectOutcomeBasis::NotDispatched));
    assert_eq!(refused_dispatch(CONFLICT, true), (EffectStatus::Stale, EffectOutcomeBasis::NotDispatched));
    assert_eq!(refused_dispatch(EXHAUSTED, true), (EffectStatus::Failed, EffectOutcomeBasis::NotDispatched));
    assert_eq!(refused_dispatch(DENIED, false), (EffectStatus::Unknown, EffectOutcomeBasis::Unresolved));
}
