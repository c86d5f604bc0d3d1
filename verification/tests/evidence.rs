use ribosome::contracts::{ArtifactRef, Budget, EvidenceRequest, Grant, Mode, Profile, Scope, Split, VersionRef};
use ribosome::error::{CONFLICT, INVALID, MISSING};
use ribosome::evidence::MAX_FRAME;
use ribosome::store::{CorpusEntry, EventRecord, Store};

fn scope(project: &str) -> Scope {
    Scope { client: "test".into(), project: project.into() }
}

fn event(id: &str, run: &str, producer: &str, sequence: &str, kind: &str, split: Split, body: &str) -> EventRecord {
    EventRecord {
        id: id.into(),
        scope: scope("evidence"),
        run_id: run.into(),
        producer: producer.into(),
        sequence: sequence.into(),
        kind: kind.into(),
        split,
        parents: vec![],
        artifacts: vec![],
        body: body.into(),
    }
}

fn grant(splits: Vec<Split>) -> Grant {
    Grant {
        id: "g1".into(),
        scope: scope("evidence"),
        mode: Mode::Observe,
        paths: vec![],
        tools: vec![],
        profiles: vec![Profile::Caretaker],
        budget: Budget {
            max_calls: 1,
            max_tokens: "10".into(),
            max_cost_microusd: "10".into(),
            max_actions: 1,
            max_work_items: 1,
            max_depth: 1,
            deadline_ms: "1000".into(),
        },
        context: "evidence".into(),
        visible_splits: splits,
        allow_export: false,
        required_checks: None,
        writable_paths: None,
        discovery_corpus: None,
        prepared_run: None,
    }
}

fn request(cursor: &str, limit: u32) -> EvidenceRequest {
    EvidenceRequest {
        cursor: cursor.into(),
        limit,
        run_id: None,
        event_refs: None,
        neighbors: None,
        kind: None,
        artifact: None,
        query: None,
        through_cursor: None,
    }
}

fn logged() -> Store {
    let mut store = Store::new();
    assert!(store.ingest(event("e1", "r1", "tool", "1", "note", Split::Development, "{\"a\":1}")).unwrap());
    assert!(store.ingest(event("e2", "r1", "pi-agent", "1", "agent_message", Split::Development, "{\"b\":2}")).unwrap());
    assert!(store.ingest(event("e3", "r2", "tool", "1", "note", Split::Holdout, "{\"c\":3}")).unwrap());
    assert!(store.ingest(event("e4", "r2", "tool", "2", "check", Split::Development, "{\"d\":4}")).unwrap());
    store
}

#[test]
fn events_are_logged_once_under_increasing_cursors() {
    let mut store = logged();
    let cursors: Vec<u64> = store.events.iter().map(|row| row.cursor).collect();
    assert_eq!(cursors, vec![1, 2, 3, 4]);
    assert!(!store.ingest(event("e1", "r1", "tool", "1", "note", Split::Development, "{\"a\":1}")).unwrap());
    assert_eq!(store.events.len(), 4);
    let reused = store.ingest(event("e1", "r1", "tool", "1", "note", Split::Development, "{\"a\":9}"));
    assert_eq!(reused.unwrap_err().code, CONFLICT);
    let same_sequence = store.ingest(event("e9", "r1", "tool", "1", "note", Split::Development, "{\"z\":0}"));
    assert_eq!(same_sequence.unwrap_err().code, CONFLICT);
    let large = "x".repeat(MAX_FRAME / 4 + 1);
    let refused = store.ingest(event("e5", "r3", "tool", "1", "note", Split::Development, &large));
    assert_eq!(refused.unwrap_err().code, INVALID);
    assert_eq!(store.events.len(), 4);
}

#[test]
fn pages_follow_the_log_within_the_visible_splits() {
    let store = logged();
    let g = grant(vec![Split::Development]);
    let page = store.evidence_page(&g, &request("0", 10), &None).unwrap();
    let ids: Vec<&str> = page.events.iter().map(|e| e.id.as_str()).collect();
    assert_eq!(ids, vec!["e1", "e2", "e4"]);
    assert_eq!(page.cursor, "4");
    let first = store.evidence_page(&g, &request("0", 1), &None).unwrap();
    assert_eq!(first.events.len(), 1);
    assert_eq!(first.cursor, "1");
    let rest = store.evidence_page(&g, &request(&first.cursor, 10), &None).unwrap();
    let ids: Vec<&str> = rest.events.iter().map(|e| e.id.as_str()).collect();
    assert_eq!(ids, vec!["e2", "e4"]);
    let empty = store.evidence_page(&g, &request("9", 10), &None).unwrap();
    assert!(empty.events.is_empty());
    assert_eq!(empty.cursor, "9");
    let other = store.evidence_page(&grant(vec![Split::Evaluation]), &request("0", 10), &None).unwrap();
    assert!(other.events.is_empty());
}

#[test]
fn the_active_run_does_not_read_back_its_own_conversation() {
    let store = logged();
    let g = grant(vec![Split::Development]);
    let page = store.evidence_page(&g, &request("0", 10), &Some("r1".to_string())).unwrap();
    let ids: Vec<&str> = page.events.iter().map(|e| e.id.as_str()).collect();
    assert_eq!(ids, vec!["e1", "e4"]);
    let mut selected = request("0", 10);
    selected.event_refs = Some(vec!["e2".into()]);
    let hidden = store.evidence_page(&g, &selected, &Some("r1".to_string()));
    assert_eq!(hidden.unwrap_err().code, MISSING);
    let shown = store.evidence_page(&g, &selected, &None).unwrap();
    assert_eq!(shown.events.len(), 1);
    assert_eq!(shown.events[0].id, "e2");
}

#[test]
fn evidence_requests_are_checked_before_reading() {
    let store = logged();
    let g = grant(vec![Split::Development]);
    assert_eq!(store.evidence_page(&g, &request("x", 10), &None).unwrap_err().code, INVALID);
    let mut through = request("0", 10);
    through.through_cursor = Some("-1".into());
    assert_eq!(store.evidence_page(&g, &through, &None).unwrap_err().code, INVALID);
    let mut neighbors = request("0", 10);
    neighbors.neighbors = Some(true);
    assert_eq!(store.evidence_page(&g, &neighbors, &None).unwrap_err().code, INVALID);
    let mut run = request("0", 10);
    run.run_id = Some("r9".into());
    assert_eq!(store.evidence_page(&g, &run, &None).unwrap_err().code, MISSING);
    let mut holdout = request("0", 10);
    holdout.run_id = Some("r2".into());
    holdout.kind = Some("check".into());
    holdout.through_cursor = Some("4".into());
    let page = store.evidence_page(&g, &holdout, &None).unwrap();
    let ids: Vec<&str> = page.events.iter().map(|e| e.id.as_str()).collect();
    assert_eq!(ids, vec!["e4"]);
    let mut window = request("0", 10);
    window.through_cursor = Some("2".into());
    let page = store.evidence_page(&g, &window, &None).unwrap();
    assert_eq!(page.events.len(), 2);
    assert_eq!(page.cursor, "2");
}

#[test]
fn a_page_stops_before_it_would_overflow_half_a_frame() {
    let mut store = Store::new();
    let big = "y".repeat(MAX_FRAME / 4);
    for (i, id) in ["b1", "b2", "b3"].iter().enumerate() {
        let seq = (i + 1).to_string();
        assert!(store.ingest(event(id, "r1", "tool", &seq, "note", Split::Development, &big)).unwrap());
    }
    let page = store.evidence_page(&grant(vec![Split::Development]), &request("0", 10), &None).unwrap();
    assert_eq!(page.events.len(), 2);
    assert_eq!(page.cursor, "2");
}

#[test]
fn neighbor_selection_adds_parents_and_children_of_the_selected_events() {
    let mut store = Store::new();
    let mut root = event("p1", "r1", "tool", "1", "note", Split::Development, "{\"p\":1}");
    root.parents = vec![];
    let mut middle = event("m1", "r1", "tool", "2", "note", Split::Development, "{\"m\":1}");
    middle.parents = vec!["p1".into()];
    let mut leaf = event("c1", "r1", "tool", "3", "note", Split::Development, "{\"c\":1}");
    leaf.parents = vec!["m1".into()];
    let unrelated = event("u1", "r1", "tool", "4", "note", Split::Development, "{\"u\":1}");
    for e in [root, middle, leaf, unrelated] {
        assert!(store.ingest(e).unwrap());
    }
    let g = grant(vec![Split::Development]);
    let mut selected = request("0", 10);
    selected.event_refs = Some(vec!["m1".into()]);
    let only = store.evidence_page(&g, &selected, &None).unwrap();
    let ids: Vec<&str> = only.events.iter().map(|e| e.id.as_str()).collect();
    assert_eq!(ids, vec!["m1"]);
    selected.neighbors = Some(true);
    let around = store.evidence_page(&g, &selected, &None).unwrap();
    let ids: Vec<&str> = around.events.iter().map(|e| e.id.as_str()).collect();
    assert_eq!(ids, vec!["p1", "m1", "c1"]);
    assert_eq!(around.cursor, "3");
}

#[test]
fn an_artifact_filter_keeps_events_that_observed_that_version() {
    let mut store = Store::new();
    let mut seen = event("a1", "r1", "tool", "1", "note", Split::Development, "{\"a\":1}");
    seen.artifacts = vec![ArtifactRef { path: "src/lib.rs".into(), version: "v1".into() }];
    let mut other = event("a2", "r1", "tool", "2", "note", Split::Development, "{\"a\":2}");
    other.artifacts = vec![ArtifactRef { path: "src/lib.rs".into(), version: "v2".into() }];
    assert!(store.ingest(seen).unwrap());
    assert!(store.ingest(other).unwrap());
    let mut filtered = request("0", 10);
    filtered.artifact = Some(ArtifactRef { path: "src/lib.rs".into(), version: "v2".into() });
    let page = store.evidence_page(&grant(vec![Split::Development]), &filtered, &None).unwrap();
    let ids: Vec<&str> = page.events.iter().map(|e| e.id.as_str()).collect();
    assert_eq!(ids, vec!["a2"]);
}

#[test]
fn a_text_query_matches_bodies_ignoring_ascii_case() {
    let mut store = Store::new();
    assert!(store.ingest(event("q1", "r1", "tool", "1", "note", Split::Development, "{\"msg\":\"Timeout reached\"}")).unwrap());
    assert!(store.ingest(event("q2", "r1", "tool", "2", "note", Split::Development, "{\"msg\":\"all good\"}")).unwrap());
    let g = grant(vec![Split::Development]);
    let mut query = request("0", 10);
    query.query = Some("TIMEOUT".into());
    let page = store.evidence_page(&g, &query, &None).unwrap();
    let ids: Vec<&str> = page.events.iter().map(|e| e.id.as_str()).collect();
    assert_eq!(ids, vec!["q1"]);
    query.query = Some(String::new());
    assert_eq!(store.evidence_page(&g, &query, &None).unwrap().events.len(), 2);
    query.query = Some("missing words".into());
    assert!(store.evidence_page(&g, &query, &None).unwrap().events.is_empty());
}

#[test]
fn a_corpus_grant_reads_only_its_corpus_events() {
    let mut store = logged();
    let mut g = grant(vec![Split::Development]);
    g.discovery_corpus = Some(VersionRef { id: "corpus-1".into(), version: "1".into() });
    assert_eq!(store.evidence_page(&g, &request("0", 10), &None).unwrap_err().code, MISSING);
    store.corpora.push(CorpusEntry {
        scope: scope("evidence"),
        id: "corpus-1".into(),
        version: "1".into(),
        event_refs: vec!["e1".into(), "e4".into()],
    });
    let page = store.evidence_page(&g, &request("0", 10), &None).unwrap();
    let ids: Vec<&str> = page.events.iter().map(|e| e.id.as_str()).collect();
    assert_eq!(ids, vec!["e1", "e4"]);
    let mut outside = request("0", 10);
    outside.event_refs = Some(vec!["e2".into()]);
    assert_eq!(store.evidence_page(&g, &outside, &None).unwrap_err().code, MISSING);
    let mut run = request("0", 10);
    run.run_id = Some("r1".into());
    let page = store.evidence_page(&g, &run, &None).unwrap();
    assert_eq!(page.events.len(), 1);
    assert_eq!(page.events[0].id, "e1");
}
