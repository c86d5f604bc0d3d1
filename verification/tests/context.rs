use ribosome::context::{
    ArtifactSnapshot, ContextItem, ContextItemKind, ContextSegment, ContextSourceEntry,
    ContextSummary,
};
use ribosome::contracts::{ContextSourceKind, Freshness};
use ribosome::error::DENIED;
use ribosome::store::Store;

fn item(segment: &str, sequence: i64, kind: ContextItemKind, bytes: u64) -> ContextItem {
    ContextItem { segment_id: segment.into(), sequence, kind, charged_bytes: bytes }
}

fn summary(id: &str, segment: &str, through: i64, committed: bool) -> ContextSummary {
    ContextSummary { id: id.into(), segment_id: segment.into(), through_sequence: through, committed }
}

fn store() -> Store {
    let mut s = Store::new();
    s.contexts.segments.push(ContextSegment { id: "seg-1".into(), run_id: "run-1".into() });
    s.contexts.items.push(item("seg-1", 1, ContextItemKind::OwnerInstruction, 1616));
    s.contexts.items.push(item("seg-1", 2, ContextItemKind::Interpretation, 50_000));
    s.contexts.items.push(item("seg-2", 1, ContextItemKind::OwnerInstruction, 90_000));
    s.contexts.items.push(item("seg-1", 3, ContextItemKind::ObservedEvidence, 60_000));
    s.contexts.items.push(item("seg-1", 4, ContextItemKind::Interpretation, 40_000));
    s.contexts.items.push(item("seg-1", 5, ContextItemKind::ObservedEvidence, 30_000));
    s
}

#[test]
fn the_count_is_the_last_item_number_of_the_segment() {
    let s = store();
    assert_eq!(s.context_count(&"seg-1".to_string()).unwrap(), 5);
    assert_eq!(s.context_count(&"seg-2".to_string()).unwrap(), 1);
    assert_eq!(s.context_count(&"seg-3".to_string()).unwrap(), 0);
}

#[test]
fn the_tail_begins_after_the_last_non_evidence_item_that_still_fits() {
    // The owner's 1616 bytes leave 180000 - 20000 = 160000 bytes: items 5, 4 and 3 fit
    // (130000 bytes), item 2 does not, and the tail may start only after item 3.
    let s = store();
    assert_eq!(s.context_tail(&"seg-1".to_string()).unwrap(), 3);
    let mut small = Store::new();
    small.contexts.items.push(item("seg-1", 1, ContextItemKind::OwnerInstruction, 100));
    small.contexts.items.push(item("seg-1", 2, ContextItemKind::Interpretation, 100));
    assert_eq!(small.context_tail(&"seg-1".to_string()).unwrap(), 0);
    let mut evidence = Store::new();
    evidence.contexts.items.push(item("seg-1", 1, ContextItemKind::OwnerInstruction, 1000));
    evidence.contexts.items.push(item("seg-1", 2, ContextItemKind::ObservedEvidence, 200_000));
    assert_eq!(evidence.context_tail(&"seg-1".to_string()).unwrap(), 0);
}

#[test]
fn the_summary_head_is_the_committed_summary_that_reaches_furthest() {
    let mut s = store();
    assert_eq!(s.summary_head(&"seg-1".to_string()).unwrap(), None);
    s.contexts.summaries.push(summary("sum-1", "seg-1", 2, true));
    s.contexts.summaries.push(summary("sum-2", "seg-1", 4, false));
    s.contexts.summaries.push(summary("sum-3", "seg-2", 9, true));
    s.contexts.summaries.push(summary("sum-4", "seg-1", 3, true));
    s.contexts.summaries.push(summary("sum-5", "seg-1", 3, true));
    assert_eq!(s.summary_head(&"seg-1".to_string()).unwrap(), Some(("sum-4".to_string(), 3)));
}

#[test]
fn a_segment_pinning_a_moved_current_artifact_is_not_current() {
    let mut s = store();
    s.contexts.sources.push(ContextSourceEntry {
        segment_id: "seg-1".into(),
        kind: ContextSourceKind::Artifact,
        id: "snap-1".into(),
    });
    s.contexts.snapshots.push(ArtifactSnapshot {
        id: "snap-1".into(),
        freshness: Freshness::Current,
        version: "v1".into(),
        current_version: "v1".into(),
    });
    assert!(s.context_is_current(&"seg-1".to_string()).unwrap());
    s.contexts.snapshots[0].current_version = "v2".into();
    assert!(!s.context_is_current(&"seg-1".to_string()).unwrap());
    assert!(s.context_is_current(&"seg-2".to_string()).unwrap());
    s.contexts.snapshots[0].freshness = Freshness::Historical;
    assert!(s.context_is_current(&"seg-1".to_string()).unwrap());
}

#[test]
fn only_the_owning_run_reads_a_segment() {
    let s = store();
    assert!(s.require_context_owner(&"run-1".to_string(), &"seg-1".to_string()).is_ok());
    assert_eq!(s.require_context_owner(&"run-2".to_string(), &"seg-1".to_string()).unwrap_err().code, DENIED);
    assert_eq!(s.require_context_owner(&"run-1".to_string(), &"seg-2".to_string()).unwrap_err().code, DENIED);
}

#[test]
fn the_context_state_reports_frontier_tail_and_summary_head() {
    let mut s = store();
    let state = s.context_state("seg-1".to_string(), false, 7).unwrap();
    assert_eq!(state.segment_id, "seg-1");
    assert_eq!(state.count, "5");
    assert_eq!(state.tail_after, "3");
    assert_eq!(state.generation, "7");
    assert!(!state.rebuilt);
    assert_eq!(state.summary_ref, None);
    assert_eq!(state.summary_through.as_deref(), Some("0"));
    s.contexts.summaries.push(summary("sum-1", "seg-1", 2, true));
    let state = s.context_state("seg-1".to_string(), true, 0).unwrap();
    assert_eq!(state.summary_ref.as_deref(), Some("sum-1"));
    assert_eq!(state.summary_through.as_deref(), Some("2"));
    assert!(state.rebuilt);
}
