use ribosome::contracts::{
    Budget, DiscoveryDecision, DiscoveryHypothesis, DiscoveryHypothesisDecision, Grant, Mode, Profile, Scope,
    Split, VersionRef, WorkItem, WorkItemStatus,
};
use ribosome::discovery::{DiscoveryClaim, DiscoveryWindowRefs};
use ribosome::error::{DENIED, INVALID, MISSING};
use ribosome::store::{EventRecord, Store, WorkEntry};

fn scope() -> Scope {
    Scope { client: "test".into(), project: "discovery".into() }
}

fn grant(id: &str, corpus: Option<VersionRef>) -> Grant {
    Grant {
        id: id.into(),
        scope: scope(),
        mode: Mode::Observe,
        paths: vec![],
        tools: vec![],
        profiles: vec![Profile::Curator],
        budget: Budget {
            max_calls: 1,
            max_tokens: "10".into(),
            max_cost_microusd: "10".into(),
            max_actions: 1,
            max_work_items: 1,
            max_depth: 1,
            deadline_ms: "1000".into(),
        },
        context: "discovery".into(),
        visible_splits: vec![Split::Development],
        allow_export: false,
        required_checks: None,
        writable_paths: None,
        discovery_corpus: corpus,
        prepared_run: None,
    }
}

fn corpus(version: &str) -> VersionRef {
    VersionRef { id: "corpus-1".into(), version: version.into() }
}

fn hypothesis(decision: DiscoveryHypothesisDecision, support: Vec<&str>) -> DiscoveryHypothesis {
    DiscoveryHypothesis {
        claim: "retries follow timeouts".into(),
        entry_boundary: "timeout".into(),
        exit_boundary: "retry".into(),
        conditions: vec![],
        support_refs: support.into_iter().map(String::from).collect(),
        contradiction_refs: vec![],
        alternatives: vec![],
        decision,
        uncertainty: "small sample".into(),
    }
}

fn claim() -> DiscoveryClaim {
    DiscoveryClaim {
        work_ref: None,
        corpus: corpus("1"),
        source_windows: vec![DiscoveryWindowRefs { execution: "exec-1".into(), event_refs: vec!["e1".into()] }],
        hypotheses: vec![hypothesis(DiscoveryHypothesisDecision::ProposeDefinition, vec!["e1"])],
        definition_refs: vec![VersionRef { id: "def-1".into(), version: "1".into() }],
        decision: DiscoveryDecision::Supported,
        run_refs: vec!["run-1".into()],
    }
}

fn store() -> Store {
    let mut store = Store::new();
    store.register_grant(grant("g1", Some(corpus("1")))).unwrap();
    store.register_grant(grant("g2", None)).unwrap();
    store.start_run("run-1".into(), &"g1".to_string()).unwrap();
    store.start_run("run-2".into(), &"g2".to_string()).unwrap();
    let event = EventRecord {
        id: "e1".into(),
        scope: scope(),
        run_id: "exec-1".into(),
        producer: "tool".into(),
        sequence: "1".into(),
        kind: "note".into(),
        split: Split::Development,
        parents: vec![],
        artifacts: vec![],
        body: "{}".into(),
    };
    assert!(store.ingest(event).unwrap());
    store.work.push(WorkEntry {
        item: WorkItem {
            id: "run-1".into(),
            scope: scope(),
            subject: "discovery".into(),
            profile: Profile::Curator,
            operator: "discovery@1".into(),
            reason: "Find recurring motifs.".into(),
            evidence_refs: vec![],
            root_id: "run-1".into(),
            parent_id: "run-1".into(),
            depth: 1,
            status: WorkItemStatus::Running,
            attempts: 0,
            lease_until_ms: "0".into(),
            owner: String::new(),
        },
        grant_id: "g1".into(),
        allocation_id: None,
    });
    store
}

#[test]
fn a_consistent_discovery_is_accepted() {
    let store = store();
    let g = grant("g1", Some(corpus("1")));
    assert!(store.validate_discovery(&g, &claim(), &Some("run-1".into())).is_ok());
    let mut owned = claim();
    owned.work_ref = Some("run-1".into());
    assert!(store.validate_discovery(&g, &owned, &Some("run-1".into())).is_ok());
}

#[test]
fn discovery_verdicts_must_match_their_hypotheses_and_definitions() {
    let store = store();
    let g = grant("g1", Some(corpus("1")));
    let run = Some("run-1".to_string());
    let mut other_corpus = claim();
    other_corpus.corpus = corpus("2");
    assert_eq!(store.validate_discovery(&g, &other_corpus, &run).unwrap_err().code, DENIED);
    let mut bare = claim();
    bare.definition_refs = vec![];
    assert_eq!(store.validate_discovery(&g, &bare, &run).unwrap_err().code, INVALID);
    let mut no_motif = claim();
    no_motif.decision = DiscoveryDecision::NoMotif;
    assert_eq!(store.validate_discovery(&g, &no_motif, &run).unwrap_err().code, INVALID);
    no_motif.definition_refs = vec![];
    assert!(store.validate_discovery(&g, &no_motif, &run).is_ok());
    let mut unsupported = claim();
    unsupported.hypotheses = vec![hypothesis(DiscoveryHypothesisDecision::Compose, vec![])];
    assert_eq!(store.validate_discovery(&g, &unsupported, &run).unwrap_err().code, INVALID);
    unsupported.hypotheses = vec![hypothesis(DiscoveryHypothesisDecision::Reject, vec![])];
    assert!(store.validate_discovery(&g, &unsupported, &run).is_ok());
}

#[test]
fn discovery_windows_and_claims_must_be_grounded() {
    let store = store();
    let g = grant("g1", Some(corpus("1")));
    let run = Some("run-1".to_string());
    let mut unknown = claim();
    unknown.source_windows[0].event_refs.push("e9".into());
    assert_eq!(store.validate_discovery(&g, &unknown, &run).unwrap_err().code, INVALID);
    let mut elsewhere = claim();
    elsewhere.source_windows[0].execution = "exec-2".into();
    assert_eq!(store.validate_discovery(&g, &elsewhere, &run).unwrap_err().code, INVALID);
    let mut absent = claim();
    absent.run_refs = vec![];
    assert_eq!(store.validate_discovery(&g, &absent, &run).unwrap_err().code, INVALID);
    let mut unknown_run = claim();
    unknown_run.run_refs.push("run-9".into());
    assert_eq!(store.validate_discovery(&g, &unknown_run, &run).unwrap_err().code, MISSING);
    let mut foreign = claim();
    foreign.run_refs.push("run-2".into());
    assert_eq!(store.validate_discovery(&g, &foreign, &run).unwrap_err().code, DENIED);
    let mut stray = claim();
    stray.work_ref = Some("other".into());
    assert_eq!(store.validate_discovery(&g, &stray, &run).unwrap_err().code, DENIED);
}
