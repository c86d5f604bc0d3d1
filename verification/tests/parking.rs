use ribosome::contracts::{
    Budget, BudgetAllocationRequest, Disposition, Grant, Mode, Profile, Scope, Split, WorkItem,
    WorkItemStatus, WorkWaitRequest,
};
use ribosome::digest::allocation_id;
use ribosome::error::{CONFLICT, DENIED, INVALID, MISSING};
use ribosome::parking::terminal;
use ribosome::contracts::{PermitRequest, Usage};
use ribosome::store::{RunStatus, RunWait, Store, WorkEntry};

const FAR: &str = "99999999999999";

fn budget() -> Budget {
    Budget {
        max_calls: 10,
        max_tokens: "3000000".into(),
        max_cost_microusd: "1000000".into(),
        max_actions: 2,
        max_work_items: 3,
        max_depth: 3,
        deadline_ms: FAR.into(),
    }
}

fn parking_grant() -> Grant {
    Grant {
        id: "parking-grant".into(),
        scope: Scope { client: "test".into(), project: "parking".into() },
        mode: Mode::Apply,
        paths: vec!["child-result.txt".into()],
        tools: vec!["child-check".into()],
        profiles: vec![Profile::Caretaker, Profile::Curator],
        budget: budget(),
        context: "parking".into(),
        visible_splits: vec![Split::Development],
        allow_export: false,
        required_checks: None,
        writable_paths: None,
        discovery_corpus: None,
        prepared_run: None,
    }
}

fn child(id: &str, parent: &str, allocation: Option<&str>, status: WorkItemStatus) -> WorkEntry {
    WorkEntry {
        item: WorkItem {
            id: id.into(),
            scope: Scope { client: "test".into(), project: "parking".into() },
            subject: "child-check".into(),
            profile: Profile::Curator,
            operator: "proofreading@1".into(),
            reason: "Check the child result.".into(),
            evidence_refs: vec![],
            root_id: parent.into(),
            parent_id: parent.into(),
            depth: 1,
            status,
            attempts: 0,
            lease_until_ms: "0".into(),
            owner: String::new(),
        },
        grant_id: "parking-grant".into(),
        allocation_id: allocation.map(String::from),
    }
}

/// A parent run parked on one queued child that draws on an allocation of its own.
fn parked_parent(status: WorkItemStatus) -> (Store, Grant) {
    let mut store = Store::new();
    let grant = parking_grant();
    store.register_grant(grant.clone()).unwrap();
    store.start_run("parent".into(), &grant.id).unwrap();
    let root = allocation_id("root", "parking-grant");
    store
        .allocate_at(
            &grant,
            &BudgetAllocationRequest {
                id: "child-allocation".into(),
                parent_id: root,
                cause_id: "child".into(),
                purpose: "curator".into(),
                budget: budget(),
            },
            1000,
        )
        .unwrap();
    store.work.push(child("child", "parent", Some("child-allocation"), status));
    store.waits.push(RunWait { run_id: "parent".into(), work_ids: vec!["child".into()] });
    store.set_run_status(&"parent".to_string(), RunStatus::Waiting).unwrap();
    (store, grant)
}

#[test]
fn stopping_queued_children_preserves_cancellation_and_exhaustion_without_dispatch() {
    for disposition in [Disposition::Cancelled, Disposition::Exhausted] {
        let (mut store, grant) = parked_parent(WorkItemStatus::Queued);
        assert!(store.stop_waiting_children(&"parent".to_string(), &disposition).unwrap().is_empty());
        let expected = if disposition == Disposition::Cancelled {
            WorkItemStatus::Cancelled
        } else {
            WorkItemStatus::Exhausted
        };
        assert_eq!(store.work[0].item.status, expected);
        assert_eq!(
            store.allocation(&grant, &"child-allocation".to_string()).unwrap().disposition,
            Some(disposition)
        );
        let status = store.work_wait_status(&"parent".to_string(), &WorkWaitRequest { work_ids: vec!["child".into()] }).unwrap();
        assert!(!status.wait_required);
        assert_eq!(store.root_budget_status(&grant).unwrap().usage.model_calls, 0);
    }
}

#[test]
fn stopping_reports_running_children_for_their_owner() {
    let (mut store, grant) = parked_parent(WorkItemStatus::Running);
    let running = store.stop_waiting_children(&"parent".to_string(), &Disposition::Exhausted).unwrap();
    assert_eq!(running, vec!["child".to_string()]);
    assert_eq!(store.work[0].item.status, WorkItemStatus::Running);
    assert_eq!(
        store.allocation(&grant, &"child-allocation".to_string()).unwrap().disposition,
        Some(Disposition::Exhausted)
    );
}

#[test]
fn stopping_requires_cancellation_or_exhaustion() {
    let (mut store, _grant) = parked_parent(WorkItemStatus::Queued);
    let refused = store.stop_waiting_children(&"parent".to_string(), &Disposition::Completed);
    assert_eq!(refused.unwrap_err().code, INVALID);
    assert_eq!(store.work[0].item.status, WorkItemStatus::Queued);
    assert!(store.stop_waiting_children(&"other".to_string(), &Disposition::Cancelled).unwrap().is_empty());
}

#[test]
fn waiting_is_limited_to_direct_children() {
    let (mut store, grant) = parked_parent(WorkItemStatus::Queued);
    store.set_run_status(&"parent".to_string(), RunStatus::Running).unwrap();
    store.start_run("foreign".into(), &grant.id).unwrap();
    let wait = WorkWaitRequest { work_ids: vec!["child".into()] };
    assert_eq!(store.wait_for_work(&"foreign".to_string(), &wait).unwrap_err().code, DENIED);
    let own = WorkWaitRequest { work_ids: vec!["parent".into()] };
    assert_eq!(store.wait_for_work(&"parent".to_string(), &own).unwrap_err().code, DENIED);
    let status = store.wait_for_work(&"parent".to_string(), &wait).unwrap();
    assert_eq!(status.work_ids, vec!["child".to_string()]);
    assert!(status.wait_required);
    assert_eq!(store.wait_for_work(&"nobody".to_string(), &wait).unwrap_err().code, MISSING);
    store.set_run_status(&"foreign".to_string(), RunStatus::Finished).unwrap();
    assert_eq!(store.wait_for_work(&"foreign".to_string(), &wait).unwrap_err().code, DENIED);
}

#[test]
fn a_parked_run_resumes_once_its_children_settle() {
    let (mut store, _grant) = parked_parent(WorkItemStatus::Queued);
    let parent = "parent".to_string();
    assert_eq!(store.resume_waiting(&parent).unwrap_err().code, CONFLICT);
    store.work[0].item.status = WorkItemStatus::Completed;
    store.resume_waiting(&parent).unwrap();
    assert!(store.waits.is_empty());
    assert_eq!(store.runs[0].status, RunStatus::Running);
    assert_eq!(store.resume_waiting(&parent).unwrap_err().code, CONFLICT);
}

#[test]
fn terminal_statuses_are_those_that_cannot_change() {
    assert!(!terminal(&WorkItemStatus::Queued));
    assert!(!terminal(&WorkItemStatus::Running));
    assert!(!terminal(&WorkItemStatus::Interrupted));
    assert!(terminal(&WorkItemStatus::Completed));
    assert!(terminal(&WorkItemStatus::Failed));
    assert!(terminal(&WorkItemStatus::Cancelled));
    assert!(terminal(&WorkItemStatus::Exhausted));
}

#[test]
fn stopped_ancestors_deny_new_child_effects_and_work_but_allow_usage_settlement() {
    for disposition in [Disposition::Cancelled, Disposition::Exhausted, Disposition::Failed] {
        let mut store = Store::new();
        let grant = parking_grant();
        store.register_grant(grant.clone()).unwrap();
        store.start_run("parent".into(), &grant.id).unwrap();
        store.start_run("child".into(), &grant.id).unwrap();
        store.bind_run_allocation_in(&grant, &"parent".to_string(), Profile::Caretaker, &None, 1000).unwrap();
        let parent_allocation = allocation_id("run", "parent");
        store
            .bind_run_allocation_in(&grant, &"child".to_string(), Profile::Curator, &Some(parent_allocation.clone()), 1000)
            .unwrap();
        let issued = PermitRequest {
            max_output_tokens: 10,
            input_tokens_bound: "10".into(),
            cost_microusd_bound: "10".into(),
            compaction_id: None,
            call_id: Some("issued".into()),
        };
        let permit = store.permit_in_allocation_at(&"child".to_string(), &issued, None, 1000, "p1".into()).unwrap();
        store.dispatch_permit_at(&"child".to_string(), &permit.id, 1000).unwrap();
        store.finish_allocation(&grant, &parent_allocation, disposition).unwrap();
        let mut late = issued.clone();
        late.call_id = Some("late".into());
        let denied = store.permit_in_allocation_at(&"child".to_string(), &late, None, 1000, "p2".into());
        assert_eq!(denied.unwrap_err().code, DENIED);
        store
            .usage_at(
                &"child".to_string(),
                &Usage {
                    permit_id: permit.id.clone(),
                    input_tokens: "1".into(),
                    output_tokens: "1".into(),
                    cost_microusd: "1".into(),
                    complete: true,
                },
                1000,
            )
            .unwrap();
        assert_eq!(store.root_budget_status(&grant).unwrap().usage.unknown_calls, 0);
    }
}

#[test]
fn parking_is_atomic_and_rejects_foreign_work_incomplete_exchanges_and_pending_effects() {
    let (mut store, grant) = parked_parent(WorkItemStatus::Queued);
    store.start_run("foreign".into(), &grant.id).unwrap();
    store.set_run_status(&"parent".to_string(), RunStatus::Running).unwrap();
    let foreign = store.wait_for_work(&"foreign".to_string(), &WorkWaitRequest { work_ids: vec!["child".into()] });
    assert!(foreign.is_err());
    let itself = store.wait_for_work(&"parent".to_string(), &WorkWaitRequest { work_ids: vec!["parent".into()] });
    assert!(itself.is_err());
    let own = store.wait_for_work(&"parent".to_string(), &WorkWaitRequest { work_ids: vec!["child".into()] }).unwrap();
    assert!(own.wait_required);
}
