use ribosome::admission::{admission_evidence, same_ref_lists, StudyRecord};
use ribosome::contracts::{AdmissionDecision, Budget, Grant, Mode, Profile, Recommendation, Scope, Split, VersionRef};
use ribosome::error::DENIED;

fn grant() -> Grant {
    Grant {
        id: "g1".into(),
        scope: Scope { client: "test".into(), project: "admission".into() },
        mode: Mode::Observe,
        paths: vec![],
        tools: vec![],
        profiles: vec![Profile::Curator],
        budget: Budget {
            max_calls: 1,
            max_tokens: "10".into(),
            max_cost_microusd: "10".into(),
            max_actions: 1,
            max_work_items: 1,
            max_depth: 1,
            deadline_ms: "1000".into(),
        },
        context: "ctx".into(),
        visible_splits: vec![Split::Development],
        allow_export: false,
        required_checks: None,
        writable_paths: None,
        discovery_corpus: None,
        prepared_run: None,
    }
}

fn candidate() -> VersionRef {
    VersionRef { id: "impl-1".into(), version: "2".into() }
}

fn recommendation(refs: Vec<&str>) -> Recommendation {
    Recommendation {
        implementation: candidate(),
        context: "ctx".into(),
        decision: AdmissionDecision::Accepted,
        evaluation_refs: refs.into_iter().map(String::from).collect(),
        rationale: "better".into(),
        restrictions: vec![],
    }
}

fn study(refs: Vec<&str>) -> Option<StudyRecord> {
    Some(StudyRecord { evaluation_refs: refs.into_iter().map(String::from).collect(), candidate: candidate() })
}

fn names(v: Vec<&str>) -> Vec<String> {
    v.into_iter().map(String::from).collect()
}

#[test]
fn reference_lists_compare_as_multisets() {
    assert!(same_ref_lists(&names(vec!["a", "b", "a"]), &names(vec!["a", "a", "b"])));
    assert!(!same_ref_lists(&names(vec!["a", "b"]), &names(vec!["a", "b", "b"])));
    assert!(!same_ref_lists(&names(vec!["a", "a"]), &names(vec!["a", "b"])));
    assert!(same_ref_lists(&names(vec![]), &names(vec![])));
}

#[test]
fn admission_needs_the_complete_evidence_of_one_tested_experiment() {
    let g = grant();
    let experiments = names(vec!["exp-1", "exp-1"]);
    let ok = admission_evidence(&g, &recommendation(vec!["ev-2", "ev-1"]), &experiments, &study(vec!["ev-1", "ev-2"]), Some(false));
    assert_eq!(ok.unwrap(), "exp-1");
    let mut other_context = recommendation(vec!["ev-1", "ev-2"]);
    other_context.context = "elsewhere".into();
    let denied = |r: Result<String, ribosome::error::Error>| r.unwrap_err().code;
    assert_eq!(denied(admission_evidence(&g, &other_context, &experiments, &study(vec!["ev-1", "ev-2"]), Some(false))), DENIED);
    assert_eq!(denied(admission_evidence(&g, &recommendation(vec![]), &names(vec![]), &study(vec![]), Some(false))), DENIED);
    assert_eq!(denied(admission_evidence(&g, &recommendation(vec!["ev-1", "ev-2"]), &names(vec!["exp-1", "exp-2"]), &study(vec!["ev-1", "ev-2"]), Some(false))), DENIED);
    assert_eq!(denied(admission_evidence(&g, &recommendation(vec!["ev-1", "ev-2"]), &experiments, &None, Some(false))), DENIED);
    assert_eq!(denied(admission_evidence(&g, &recommendation(vec!["ev-1"]), &names(vec!["exp-1"]), &study(vec!["ev-1", "ev-2"]), Some(false))), DENIED);
    let mut other_candidate = study(vec!["ev-1", "ev-2"]);
    other_candidate.as_mut().unwrap().candidate.version = "3".into();
    assert_eq!(denied(admission_evidence(&g, &recommendation(vec!["ev-1", "ev-2"]), &experiments, &other_candidate, Some(false))), DENIED);
    assert_eq!(denied(admission_evidence(&g, &recommendation(vec!["ev-1", "ev-2"]), &experiments, &study(vec!["ev-1", "ev-2"]), None)), DENIED);
    assert_eq!(denied(admission_evidence(&g, &recommendation(vec!["ev-1", "ev-2"]), &experiments, &study(vec!["ev-1", "ev-2"]), Some(true))), DENIED);
}
