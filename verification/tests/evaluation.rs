use ribosome::agent_evaluator::{policy_grant, sandbox_grant, stage_budget};
use ribosome::contracts::{Budget, ExperimentStudyObjective, Grant, Mode, Profile, Scope, Split, Variant, VersionRef};
use ribosome::error::{DENIED, EXHAUSTED, INVALID, MISSING};
use ribosome::experiments::{ExperimentDesign, PolicyTerms};
use ribosome::store::Store;

fn budget(tokens: &str, cost: &str) -> Budget {
    Budget {
        max_calls: 7,
        max_tokens: tokens.into(),
        max_cost_microusd: cost.into(),
        max_actions: 5,
        max_work_items: 3,
        max_depth: 2,
        deadline_ms: "9000".into(),
    }
}

fn owner() -> Grant {
    Grant {
        id: "g1".into(),
        scope: Scope { client: "c".into(), project: "p".into() },
        mode: Mode::Apply,
        paths: vec!["a".into()],
        tools: vec!["t".into()],
        profiles: vec![Profile::Caretaker],
        budget: budget("100", "100"),
        context: "ctx".into(),
        visible_splits: vec![Split::Development, Split::Holdout, Split::Evaluation],
        allow_export: true,
        required_checks: Some(vec!["lint".into()]),
        writable_paths: None,
        discovery_corpus: None,
        prepared_run: Some("run-9".into()),
    }
}

#[test]
fn each_stage_draws_an_even_share_rounded_down() {
    let b = stage_budget(&budget("100", "31"), 3).unwrap();
    assert_eq!(b.max_calls, 2);
    assert_eq!(b.max_actions, 1);
    assert_eq!(b.max_tokens, "33");
    assert_eq!(b.max_cost_microusd, "10");
    assert_eq!(b.max_work_items, 3);
    assert_eq!(b.max_depth, 2);
    assert_eq!(b.deadline_ms, "9000");
    assert_eq!(stage_budget(&budget("many", "31"), 3).unwrap_err().code, INVALID);
    assert_eq!(stage_budget(&budget("100", "-"), 3).unwrap_err().code, INVALID);
}

#[test]
fn the_subject_runs_in_a_sandbox_without_the_holdout() {
    let g = sandbox_grant(&owner(), "g2".into(), "ns".into(), &vec!["x".into()], &vec!["x".into()], &vec!["run".into()], &budget("10", "10"));
    assert_eq!(g.id, "g2");
    assert_eq!(g.scope.project, "ns");
    assert_eq!(g.scope.client, "c");
    assert_eq!(g.mode, Mode::Sandbox);
    assert_eq!(g.paths, vec!["x".to_string()]);
    assert_eq!(g.writable_paths, Some(vec!["x".to_string()]));
    assert_eq!(g.tools, vec!["run".to_string()]);
    assert_eq!(g.visible_splits, vec![Split::Development, Split::Evaluation]);
    assert!(!g.allow_export);
    assert_eq!(g.prepared_run, None);
    assert_eq!(g.budget, budget("10", "10"));
}

#[test]
fn the_policy_grant_drops_only_the_prepared_run() {
    let p = policy_grant(&owner());
    assert_eq!(p.prepared_run, None);
    let mut expected = owner();
    expected.prepared_run = None;
    assert_eq!(p, expected);
}

fn version(id: &str) -> VersionRef {
    VersionRef { id: id.into(), version: "1".into() }
}

fn design(variants: Vec<Variant>) -> ExperimentDesign {
    ExperimentDesign {
        candidate: version("cand"),
        baseline: version("base"),
        variants,
        repetitions: 2,
        budget: budget("50", "50"),
        selection_frozen: true,
        study_objective: Some(ExperimentStudyObjective::Function),
        learning_cost: None,
    }
}

fn terms(max: u32) -> PolicyTerms {
    PolicyTerms {
        context: "ctx".into(),
        repetitions: 2,
        max_evaluations: max,
        study_objective: Some(ExperimentStudyObjective::Function),
        learning_cost: None,
    }
}

fn lab() -> Store {
    let mut store = Store::new();
    store.register_grant(owner()).unwrap();
    store.start_run("run-1".into(), &"g1".to_string()).unwrap();
    store
}

#[test]
fn an_experiment_runs_its_distinct_arms_within_the_policy_and_the_grant() {
    let store = lab();
    let run = "run-1".to_string();
    let retry = Variant { arm: "retry".into(), implementation: version("retry") };
    let arms = store.experiment_preflight(&run, &design(vec![retry]), Some(&terms(100)), 4).unwrap();
    let names: Vec<&str> = arms.iter().map(|v| v.arm.as_str()).collect();
    assert_eq!(names, vec!["baseline", "candidate", "retry"]);
    assert_eq!(arms[0].implementation, version("base"));
    assert_eq!(store.experiment_preflight(&run, &design(vec![]), Some(&terms(15)), 4).unwrap_err().code, EXHAUSTED);
    assert!(store.experiment_preflight(&run, &design(vec![]), Some(&terms(16)), 4).is_ok());
    let twin = Variant { arm: "candidate".into(), implementation: version("x") };
    assert_eq!(store.experiment_preflight(&run, &design(vec![twin]), Some(&terms(100)), 4).unwrap_err().code, INVALID);
    assert_eq!(store.experiment_preflight(&run, &design(vec![]), None, 4).unwrap_err().code, DENIED);
    let mut thawed = design(vec![]);
    thawed.selection_frozen = false;
    assert_eq!(store.experiment_preflight(&run, &thawed, Some(&terms(100)), 4).unwrap_err().code, DENIED);
    let mut greedy = design(vec![]);
    greedy.budget = budget("500", "50");
    assert_eq!(store.experiment_preflight(&run, &greedy, Some(&terms(100)), 4).unwrap_err().code, DENIED);
    let mut odd = design(vec![]);
    odd.budget = budget("lots", "50");
    assert_eq!(store.experiment_preflight(&run, &odd, Some(&terms(100)), 4).unwrap_err().code, INVALID);
    let mut other = terms(100);
    other.repetitions = 3;
    assert_eq!(store.experiment_preflight(&run, &design(vec![]), Some(&other), 4).unwrap_err().code, DENIED);
    assert_eq!(store.experiment_preflight(&"nobody".to_string(), &design(vec![]), Some(&terms(100)), 4).unwrap_err().code, MISSING);
}
