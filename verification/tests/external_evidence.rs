use ribosome::contracts::{
    ArtifactChunk, ArtifactRef, Budget, Freshness, Grant, Memory, MemoryKind, Mode, Origin, Profile, RecordKind, Scope,
    Split, VersionRef,
};
use ribosome::error::{CONFLICT, DENIED, INVALID};
use ribosome::external_evidence::{ExternalEpisode, ExternalEvent, ExternalSnapshot, SourceMemory};
use ribosome::store::{EventRecord, Store};

fn scope() -> Scope {
    Scope { client: "test".into(), project: "external".into() }
}

fn grant() -> Grant {
    Grant {
        id: "g1".into(),
        scope: scope(),
        mode: Mode::Apply,
        paths: vec!["notes.md".into()],
        tools: vec![],
        profiles: vec![Profile::Curator],
        budget: Budget {
            max_calls: 1,
            max_tokens: "10".into(),
            max_cost_microusd: "10".into(),
            max_actions: 1,
            max_work_items: 1,
            max_depth: 1,
            deadline_ms: "1000".into(),
        },
        context: "external".into(),
        visible_splits: vec![Split::Development],
        allow_export: false,
        required_checks: None,
        writable_paths: None,
        discovery_corpus: None,
        prepared_run: None,
    }
}

fn source() -> SourceMemory {
    SourceMemory {
        id: "mem-1".into(),
        scope: scope(),
        kind: RecordKind::Memory,
        version: "1".into(),
        retired: false,
        origin: Origin::Observed,
        source_refs: vec![],
        split: Split::Development,
        memory: Memory {
            kind: MemoryKind::Episodic,
            content: "an external session".into(),
            applicability: "test".into(),
            evidence_refs: vec![],
            counterexamples: vec![],
            responses: vec![],
            regression_cases: vec![],
            expires_ms: None,
            conflicts: vec![],
            supersedes: vec![],
        },
        body: "{\"id\":\"mem-1\"}".into(),
    }
}

fn snapshot(id: &str) -> ExternalSnapshot {
    ExternalSnapshot {
        chunk: ArtifactChunk {
            artifact: ArtifactRef { path: "notes.md".into(), version: "v1".into() },
            content: "hello".into(),
            offset: 0,
            total_bytes: "5".into(),
            eof: true,
            snapshot_id: Some(id.into()),
            required_freshness: Some(Freshness::Historical),
        },
        body: format!("{{\"snapshot\":\"{id}\"}}"),
    }
}

fn event(id: &str, sequence: &str) -> ExternalEvent {
    ExternalEvent {
        event: EventRecord {
            id: id.into(),
            scope: scope(),
            run_id: "ext-run".into(),
            producer: "external".into(),
            sequence: sequence.into(),
            kind: "external_message".into(),
            split: Split::Development,
            parents: vec![],
            artifacts: vec![ArtifactRef { path: "notes.md".into(), version: "v1".into() }],
            body: format!("{{\"event\":\"{id}\"}}"),
        },
        origin: Origin::Observed,
        source_refs: vec!["mem-1".into()],
        authority: Some("external_record".into()),
    }
}

fn episode() -> ExternalEpisode {
    ExternalEpisode { source: source(), snapshots: vec![snapshot("snap-1")], events: vec![event("x1", "1"), event("x2", "2")], bytes: 100 }
}

#[test]
fn an_episode_is_published_once_with_its_source_and_snapshots() {
    let mut store = Store::new();
    assert_eq!(store.import_external_episode(&grant(), episode()).unwrap(), 2);
    assert_eq!(store.events.len(), 2);
    assert_eq!(store.archive.records.len(), 1);
    assert_eq!(store.archive.snapshots.len(), 1);
    assert_eq!(store.archive.edges.len(), 2);
    assert_eq!(store.archive.edges[1].subject, "x2");
    assert_eq!(store.import_external_episode(&grant(), episode()).unwrap(), 0);
    assert_eq!(store.events.len(), 2);
    assert_eq!(store.archive.snapshots.len(), 1);
    let mut shorter = episode();
    shorter.events.pop();
    assert_eq!(store.import_external_episode(&grant(), shorter).unwrap_err().code, CONFLICT);
    let mut changed = episode();
    changed.source.body = "{\"id\":\"mem-1\",\"v\":2}".into();
    assert_eq!(store.import_external_episode(&grant(), changed).unwrap_err().code, CONFLICT);
}

#[test]
fn the_source_must_be_an_owned_independent_observation() {
    let mut store = Store::new();
    let mut foreign = episode();
    foreign.source.scope.project = "other".into();
    assert_eq!(store.import_external_episode(&grant(), foreign).unwrap_err().code, DENIED);
    let mut derived = episode();
    derived.source.memory.evidence_refs = vec!["e0".into()];
    assert_eq!(store.import_external_episode(&grant(), derived).unwrap_err().code, INVALID);
    let mut empty = episode();
    empty.events.clear();
    assert_eq!(store.import_external_episode(&grant(), empty).unwrap_err().code, INVALID);
    let mut corpus = grant();
    corpus.discovery_corpus = Some(VersionRef { id: "c".into(), version: "1".into() });
    assert_eq!(store.import_external_episode(&corpus, episode()).unwrap_err().code, DENIED);
    assert!(store.events.is_empty());
    assert!(store.archive.records.is_empty());
}

#[test]
fn snapshots_and_events_must_be_complete_and_cited_or_nothing_is_kept() {
    let mut store = Store::new();
    let mut partial = episode();
    partial.snapshots[0].chunk.eof = false;
    assert_eq!(store.import_external_episode(&grant(), partial).unwrap_err().code, INVALID);
    let mut twice = episode();
    twice.snapshots.push(snapshot("snap-1"));
    assert_eq!(store.import_external_episode(&grant(), twice).unwrap_err().code, INVALID);
    let mut uncited = episode();
    uncited.events[1].source_refs = vec![];
    assert_eq!(store.import_external_episode(&grant(), uncited).unwrap_err().code, INVALID);
    assert!(store.events.is_empty());
    let mut unprojected = episode();
    unprojected.events[0].event.artifacts[0].version = "v2".into();
    assert_eq!(store.import_external_episode(&grant(), unprojected).unwrap_err().code, INVALID);
    let mut clash = episode();
    clash.events[1].event.id = "x1".into();
    assert_eq!(store.import_external_episode(&grant(), clash).unwrap_err().code, CONFLICT);
    assert!(store.events.is_empty());
    assert!(store.archive.records.is_empty());
    assert!(store.archive.snapshots.is_empty());
}
