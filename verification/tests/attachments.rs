use ribosome::attachments::AttachmentPolicy;
use ribosome::contracts::{
    Action, ActionKind, ActionReceipt, Attachment, AttachmentCapability, AttachmentFeedback,
    AttachmentFeedbackKind, AttachmentOpen, AttachmentOpenStart, AttachmentRelease, AttachmentSourceStatus, AttachmentState, Budget,
    Disposition, EffectStatus, FeedbackAcknowledgement, FeedbackAcknowledgementOutcome,
    FeedbackRequest, FeedbackState, Grant, Mode, Profile, RepairHandoff, RepairHandoffState, Scope,
    Split, WorkItem, WorkItemStatus,
};
use ribosome::contracts::ArtifactRef;
use ribosome::effects::Runtime;
use ribosome::host::HostReport;
use ribosome::error::{CONFLICT, DENIED, EXHAUSTED, INVALID, MISSING};
use ribosome::contracts::{PermitRequest, Usage};
use ribosome::store::{AttachmentWork, PermitEntry, PermitState, RunStatus, Store, WorkEntry};

fn budget(deadline: &str) -> Budget {
    Budget {
        max_calls: 10,
        max_tokens: "1000".into(),
        max_cost_microusd: "1000".into(),
        max_actions: 5,
        max_work_items: 3,
        max_depth: 3,
        deadline_ms: deadline.into(),
    }
}

fn grant(id: &str, deadline: &str) -> Grant {
    Grant {
        id: id.into(),
        scope: Scope { client: "test".into(), project: "attached".into() },
        mode: Mode::Apply,
        paths: vec![],
        tools: vec![],
        profiles: vec![Profile::Caretaker],
        budget: budget(deadline),
        context: "attached".into(),
        visible_splits: vec![Split::Development],
        allow_export: false,
        required_checks: None,
        writable_paths: None,
        discovery_corpus: None,
        prepared_run: None,
    }
}

fn attachment(id: &str, grant: &str, capabilities: Vec<AttachmentCapability>) -> Attachment {
    Attachment {
        id: id.into(),
        grant_id: grant.into(),
        scope: Scope { client: "test".into(), project: "attached".into() },
        execution_id: format!("exec-{id}"),
        connector: "pi".into(),
        connector_version: "1".into(),
        capabilities,
        state: AttachmentState::Active,
        source_status: AttachmentSourceStatus::Running,
        start_cursor: "0".into(),
        cursor: "0".into(),
        frontier: String::new(),
        coverage: vec![],
        created_ms: "1".into(),
        updated_ms: "1".into(),
        last_error: String::new(),
        handoff: None,
    }
}

fn feedback(id: &str, attachment: &str, state: FeedbackState) -> AttachmentFeedback {
    AttachmentFeedback {
        id: id.into(),
        attachment_id: attachment.into(),
        run_id: id.into(),
        kind: AttachmentFeedbackKind::Finding,
        state,
        summary: "finding".into(),
        disposition: Disposition::Completed,
        record_refs: vec![],
        evidence_refs: vec![],
        artifact_versions: vec![],
        expires_ms: "99999999999999".into(),
        attempts: 1,
        detail: String::new(),
    }
}

fn work(id: &str, status: WorkItemStatus) -> WorkEntry {
    WorkEntry {
        item: WorkItem {
            id: id.into(),
            scope: Scope { client: "test".into(), project: "attached".into() },
            subject: "repair".into(),
            profile: Profile::Caretaker,
            operator: "excision-repair@1".into(),
            reason: "r".into(),
            evidence_refs: vec![],
            root_id: id.into(),
            parent_id: "a1".into(),
            depth: 0,
            status,
            attempts: 0,
            lease_until_ms: "0".into(),
            owner: String::new(),
        },
        grant_id: "g1".into(),
        allocation_id: None,
    }
}

fn attached(deadline: &str, capabilities: Vec<AttachmentCapability>) -> Store {
    let mut store = Store::new();
    store.register_grant(grant("g1", deadline)).unwrap();
    store.attachments.push(attachment("a1", "g1", capabilities));
    store
}

fn action(kind: ActionKind, branch: Option<&str>) -> Action {
    Action {
        operation_id: "op".into(),
        kind,
        path: None,
        expected_version: None,
        content: None,
        tool: None,
        branch_id: branch.map(String::from),
        intervention_ref: None,
        implementation: None,
    }
}

fn s(x: &str) -> String {
    x.to_string()
}

#[test]
fn the_default_policy_is_valid_and_only_observes() {
    let policy = AttachmentPolicy::default();
    assert_eq!(
        policy.event_kinds,
        vec!["tool.completed", "artifact.changed", "execution.completed", "execution.failed"]
    );
    assert_eq!((policy.batch_size, policy.max_delay_ms, policy.max_backlog, policy.feedback_ttl_ms), (8, 200, 1000, 300000));
    assert!(policy.validate().is_ok());
    assert_eq!(policy.capabilities(), vec![AttachmentCapability::Observe]);
}

#[test]
fn policies_out_of_range_are_invalid() {
    let mut policy = AttachmentPolicy::default();
    policy.batch_size = 0;
    assert_eq!(policy.validate().unwrap_err().code, INVALID);
    let mut policy = AttachmentPolicy::default();
    policy.max_backlog = 99;
    assert_eq!(policy.validate().unwrap_err().code, INVALID);
    let mut policy = AttachmentPolicy::default();
    policy.event_kinds = vec![];
    assert_eq!(policy.validate().unwrap_err().code, INVALID);
    let mut policy = AttachmentPolicy::default();
    policy.event_kinds.push("ribosome.feedback".into());
    assert_eq!(policy.validate().unwrap_err().code, INVALID);
    let mut policy = AttachmentPolicy::default();
    policy.event_kinds.push("x".repeat(201));
    assert_eq!(policy.validate().unwrap_err().code, INVALID);
    let mut policy = AttachmentPolicy::default();
    policy.event_kinds.push("ribosome".into());
    policy.event_kinds.push("é".repeat(100));
    assert!(policy.validate().is_ok());
}

#[test]
fn policies_offer_steering_and_writes_only_when_allowed() {
    let mut policy = AttachmentPolicy::default();
    policy.allow_steering = true;
    policy.allow_coordinated_writes = true;
    assert_eq!(
        policy.capabilities(),
        vec![AttachmentCapability::Observe, AttachmentCapability::Steer, AttachmentCapability::CoordinatedWrite]
    );
    policy.allow_steering = false;
    assert_eq!(policy.capabilities(), vec![AttachmentCapability::Observe, AttachmentCapability::CoordinatedWrite]);
}

#[test]
fn interruption_records_its_reason_once() {
    let mut store = attached("99999999999999", vec![AttachmentCapability::Observe]);
    store.attachments[0].handoff = Some(RepairHandoff {
        generation: "gen".into(),
        work_id: "w".into(),
        deadline_ms: "99999999999999".into(),
        state: RepairHandoffState::Held,
    });
    store.interrupt_attachment_at(&s("a1"), &s("connection lost"), 5000).unwrap();
    store.interrupt_attachment_at(&s("a1"), &s("connection lost"), 6000).unwrap();
    let a = &store.attachments[0];
    assert_eq!(a.state, AttachmentState::Interrupted);
    assert_eq!(a.source_status, AttachmentSourceStatus::Unknown);
    assert_eq!(a.last_error, "connection lost");
    assert_eq!(a.coverage, vec!["connection lost".to_string()]);
    assert_eq!(a.updated_ms, "6000");
    assert_eq!(a.handoff.as_ref().unwrap().state, RepairHandoffState::Unknown);
    let long = "x".repeat(2500);
    store.interrupt_attachment_at(&s("a1"), &long, 7000).unwrap();
    assert_eq!(store.attachments[0].last_error.len(), 2000);
    assert_eq!(store.interrupt_attachment(&s("zz"), &s("r")).unwrap_err().code, MISSING);
}

#[test]
fn detached_attachments_ignore_interruptions() {
    let mut store = attached("99999999999999", vec![AttachmentCapability::Observe]);
    store.attachments[0].state = AttachmentState::Detached;
    store.interrupt_attachment_at(&s("a1"), &s("late"), 5000).unwrap();
    assert_eq!(store.attachments[0].state, AttachmentState::Detached);
    assert_eq!(store.attachments[0].last_error, "");
}

#[test]
fn an_active_attachment_can_report_its_source_completed() {
    let mut store = attached("10000", vec![AttachmentCapability::Observe]);
    store.complete_attachment_source_at(&s("a1"), 5000).unwrap();
    assert_eq!(store.attachments[0].source_status, AttachmentSourceStatus::Completed);
    assert_eq!(store.attachments[0].updated_ms, "5000");
    assert_eq!(store.complete_attachment_source_at(&s("a1"), 10000).unwrap_err().code, EXHAUSTED);
    store.attachments[0].state = AttachmentState::Interrupted;
    assert_eq!(store.complete_attachment_source_at(&s("a1"), 5000).unwrap_err().code, DENIED);
    assert_eq!(store.complete_attachment_source(&s("zz")).unwrap_err().code, MISSING);
}

#[test]
fn detaching_completes_only_when_nothing_is_pending() {
    let mut store = attached("99999999999999", vec![AttachmentCapability::Observe]);
    store.work.push(work("w1", WorkItemStatus::Queued));
    store.attachment_work.push(AttachmentWork { work_id: "w1".into(), attachment_id: "a1".into() });
    store.attachments[0].source_status = AttachmentSourceStatus::Completed;
    store.detach_attachment_at(&s("a1"), 5000).unwrap();
    assert_eq!(store.attachments[0].state, AttachmentState::Detached);
    assert_eq!(store.work[0].item.status, WorkItemStatus::Cancelled);

    let mut store = attached("99999999999999", vec![AttachmentCapability::Observe]);
    store.attachments[0].source_status = AttachmentSourceStatus::Completed;
    store.detach_attachment(&s("a1")).unwrap();
    assert_eq!(store.attachments[0].state, AttachmentState::Completed);

    let mut store = attached("99999999999999", vec![AttachmentCapability::Observe]);
    store.attachments[0].source_status = AttachmentSourceStatus::Completed;
    store.feedback.push(feedback("f1", "a1", FeedbackState::Delivered));
    store.detach_attachment_at(&s("a1"), 5000).unwrap();
    assert_eq!(store.attachments[0].state, AttachmentState::Detached);
}

#[test]
fn an_unsettled_handoff_blocks_detaching() {
    let mut store = attached("99999999999999", vec![AttachmentCapability::CoordinatedWrite]);
    store.attachments[0].handoff = Some(RepairHandoff {
        generation: "gen".into(),
        work_id: "w1".into(),
        deadline_ms: "99999999999999".into(),
        state: RepairHandoffState::Held,
    });
    assert_eq!(store.detach_attachment_at(&s("a1"), 5000).unwrap_err().code, CONFLICT);
    assert_eq!(store.attachments[0].state, AttachmentState::Active);
    assert_eq!(store.detach_attachment_at(&s("zz"), 5000).unwrap_err().code, MISSING);
}

#[test]
fn live_writes_of_attachment_work_need_a_current_handoff() {
    let mut store = attached("99999999999999", vec![AttachmentCapability::Observe, AttachmentCapability::CoordinatedWrite]);
    store.attachment_work.push(AttachmentWork { work_id: "w1".into(), attachment_id: "a1".into() });
    let apply = action(ActionKind::Apply, None);
    assert_eq!(store.require_attachment_write_at(&s("w1"), &apply, 100).unwrap_err().code, DENIED);
    assert!(store.require_attachment_write_at(&s("w1"), &action(ActionKind::Edit, Some("b1")), 100).is_ok());
    assert!(store.require_attachment_write_at(&s("w1"), &action(ActionKind::Check, None), 100).is_ok());
    assert!(store.require_attachment_write_at(&s("other"), &apply, 100).is_ok());
    store.attachments[0].handoff = Some(RepairHandoff {
        generation: "gen".into(),
        work_id: "w1".into(),
        deadline_ms: "1000".into(),
        state: RepairHandoffState::Held,
    });
    assert!(store.require_attachment_write_at(&s("w1"), &apply, 100).is_ok());
    assert!(store.require_attachment_write_at(&s("w1"), &action(ActionKind::Execute, None), 999).is_ok());
    assert_eq!(store.require_attachment_write_at(&s("w1"), &apply, 1000).unwrap_err().code, DENIED);
    store.attachment_work.push(AttachmentWork { work_id: "w2".into(), attachment_id: "gone".into() });
    assert_eq!(store.require_attachment_write_at(&s("w2"), &apply, 100).unwrap_err().code, MISSING);
}

#[test]
fn acknowledgements_settle_delivered_feedback_once() {
    let mut store = attached("99999999999999", vec![AttachmentCapability::Observe]);
    store.feedback.push(feedback("f1", "a1", FeedbackState::Delivered));
    store.feedback.push(feedback("f2", "a1", FeedbackState::Pending));
    let ack = |id: &str, outcome| FeedbackAcknowledgement {
        attachment_id: "a1".into(),
        feedback_id: id.into(),
        outcome,
        detail: "seen".into(),
    };
    store.acknowledge_feedback(&ack("f1", FeedbackAcknowledgementOutcome::Acknowledged)).unwrap();
    assert_eq!(store.feedback[0].state, FeedbackState::Acknowledged);
    assert_eq!(store.feedback[0].detail, "seen");
    store.acknowledge_feedback(&ack("f1", FeedbackAcknowledgementOutcome::Acknowledged)).unwrap();
    assert_eq!(store.acknowledge_feedback(&ack("f1", FeedbackAcknowledgementOutcome::Rejected)).unwrap_err().code, CONFLICT);
    assert_eq!(store.acknowledge_feedback(&ack("f2", FeedbackAcknowledgementOutcome::Rejected)).unwrap_err().code, CONFLICT);
    assert_eq!(store.acknowledge_feedback(&ack("f3", FeedbackAcknowledgementOutcome::Rejected)).unwrap_err().code, MISSING);
}

#[test]
fn steering_persists_an_unacknowledged_control_intent() {
    let mut runtime = Runtime { store: attached("99999999999999", vec![AttachmentCapability::Observe, AttachmentCapability::Steer]) };
    runtime.store.feedback.push(feedback("f1", "a1", FeedbackState::Delivered));
    let request = FeedbackRequest { attachment_id: "a1".into(), feedback_id: "f1".into() };
    let none: Vec<String> = vec![];
    let host = HostReport { checkers: vec![], artifacts: vec![] };
    runtime.store.feedback[0].expires_ms = "50".into();
    assert_eq!(runtime.begin_attachment_steering_at(&request, &none, &none, &host, &s("intent"), 100).unwrap_err().code, CONFLICT);
    runtime.store.feedback[0].expires_ms = "soon".into();
    assert_eq!(runtime.begin_attachment_steering_at(&request, &none, &none, &host, &s("intent"), 100).unwrap_err().code, INVALID);
    runtime.store.feedback[0].expires_ms = "99999999999999".into();
    runtime.store.feedback[0].record_refs = vec![s("rec-1")];
    assert_eq!(runtime.begin_attachment_steering_at(&request, &none, &none, &host, &s("intent"), 100).unwrap_err().code, CONFLICT);
    runtime.begin_attachment_steering_at(&request, &vec![s("rec-1")], &none, &host, &s("intent-7"), 100).unwrap();
    assert_eq!(runtime.store.feedback[0].state, FeedbackState::Unknown);
    assert_eq!(
        runtime.store.feedback[0].detail,
        "Control intent intent-7 persisted; external acceptance has not been acknowledged."
    );
    assert_eq!(runtime.begin_attachment_steering(&request, &vec![s("rec-1")], &none, &host).unwrap_err().code, CONFLICT);
    let missing = FeedbackRequest { attachment_id: "a1".into(), feedback_id: "f9".into() };
    assert_eq!(runtime.begin_attachment_steering(&missing, &none, &none, &host).unwrap_err().code, MISSING);
    let mut observer = Runtime { store: attached("99999999999999", vec![AttachmentCapability::Observe]) };
    observer.store.feedback.push(feedback("f1", "a1", FeedbackState::Delivered));
    assert_eq!(observer.begin_attachment_steering(&request, &none, &none, &host).unwrap_err().code, DENIED);
}

fn receipt(status: EffectStatus) -> ActionReceipt {
    ActionReceipt {
        operation_id: "op".into(),
        run_id: "w1".into(),
        status,
        action: action(ActionKind::Apply, None),
        before: vec![],
        after: vec![],
        output: String::new(),
        side_effects: vec![],
        started_ms: "1".into(),
        finished_ms: None,
        elapsed_ms: None,
        reconciled: false,
        evidence_ref: None,
        outcome_basis: None,
        validations: None,
        restored_validity: None,
        restored_properties: None,
        settlement: None,
        content_available: None,
    }
}

fn repairing() -> Runtime {
    let mut store = attached("99999999999999", vec![AttachmentCapability::CoordinatedWrite]);
    store.attachments[0].handoff = Some(RepairHandoff {
        generation: "gen".into(),
        work_id: "w1".into(),
        deadline_ms: "99999999999999".into(),
        state: RepairHandoffState::Held,
    });
    store.work.push(work("w1", WorkItemStatus::Running));
    store.start_run("w1".into(), &s("g1")).unwrap();
    Runtime { store }
}

#[test]
fn releasing_a_handoff_waits_for_maintenance_and_reconciliation() {
    let mut runtime = repairing();
    let release = AttachmentRelease { attachment_id: "a1".into(), generation: "gen".into() };
    assert_eq!(runtime.release_attachment_repair_at(&release, &vec![], 100).unwrap_err().code, CONFLICT);
    runtime.store.set_run_status(&s("w1"), RunStatus::Interrupted).unwrap();
    let unsettled = vec![receipt(EffectStatus::Unknown)];
    assert_eq!(runtime.release_attachment_repair_at(&release, &unsettled, 100).unwrap_err().code, CONFLICT);
    let stale = AttachmentRelease { attachment_id: "a1".into(), generation: "old".into() };
    assert_eq!(runtime.release_attachment_repair_at(&stale, &vec![], 100).unwrap_err().code, CONFLICT);
    let settled = vec![receipt(EffectStatus::Succeeded)];
    runtime.release_attachment_repair_at(&release, &settled, 200).unwrap();
    assert_eq!(runtime.store.attachments[0].handoff.as_ref().unwrap().state, RepairHandoffState::Released);
    assert_eq!(runtime.store.attachments[0].updated_ms, "200");
    assert_eq!(runtime.store.work[0].item.status, WorkItemStatus::Cancelled);
    runtime.release_attachment_repair(&release, &unsettled).unwrap();
    let none = AttachmentRelease { attachment_id: "zz".into(), generation: "gen".into() };
    assert_eq!(runtime.release_attachment_repair(&none, &vec![]).unwrap_err().code, MISSING);
}

#[test]
fn recovery_interrupts_live_attachments_and_offers_feedback_again() {
    let mut store = attached("99999999999999", vec![AttachmentCapability::Observe]);
    store.register_grant(grant("g2", "99999999999999")).unwrap();
    store.attachments.push(attachment("b1", "g2", vec![AttachmentCapability::Observe]));
    store.attachments.push(attachment("a2", "g1", vec![AttachmentCapability::Observe]));
    store.attachments[2].state = AttachmentState::Completed;
    store.feedback.push(feedback("f1", "a1", FeedbackState::Delivered));
    store.feedback.push(feedback("f2", "b1", FeedbackState::Delivered));
    store.feedback.push(feedback("f3", "a1", FeedbackState::Acknowledged));
    store.recover_attachment_deliveries(&s("g1")).unwrap();
    assert_eq!(store.attachments[0].state, AttachmentState::Interrupted);
    assert_eq!(
        store.attachments[0].last_error,
        "Host connection lost; reconnect and report any missing source observations."
    );
    assert_eq!(store.attachments[1].state, AttachmentState::Active);
    assert_eq!(store.attachments[2].state, AttachmentState::Completed);
    assert_eq!(store.feedback[0].state, FeedbackState::Pending);
    assert_eq!(store.feedback[1].state, FeedbackState::Delivered);
    assert_eq!(store.feedback[2].state, FeedbackState::Acknowledged);
}

#[test]
fn attachment_identifiers_are_listed_in_order() {
    let mut store = attached("99999999999999", vec![AttachmentCapability::Observe]);
    store.register_grant(grant("g2", "99999999999999")).unwrap();
    for id in ["m", "b", "zeta", "alpha", "é"] {
        store.attachments.push(attachment(id, "g1", vec![AttachmentCapability::Observe]));
    }
    store.attachments.push(attachment("c", "g2", vec![AttachmentCapability::Observe]));
    assert_eq!(store.attachment_ids(&s("g1")), vec!["a1", "alpha", "b", "m", "zeta", "é"]);
    assert_eq!(store.attachment_ids(&s("g2")), vec!["c"]);
    assert!(store.attachment_ids(&s("g3")).is_empty());
}

fn open_request(id: &str, execution: &str, capabilities: Vec<AttachmentCapability>, start: AttachmentOpenStart) -> AttachmentOpen {
    AttachmentOpen {
        id: id.into(),
        execution_id: execution.into(),
        connector: "pi".into(),
        connector_version: "1".into(),
        start,
        capabilities,
    }
}

#[test]
fn opening_an_attachment_records_what_it_covers() {
    let mut store = Store::new();
    let g = grant("g1", "99999999999999");
    store.register_grant(g.clone()).unwrap();
    let policy = AttachmentPolicy::default();
    let now = open_request("n1", "exec-n", vec![AttachmentCapability::Observe], AttachmentOpenStart::Now);
    let opened = store.open_attachment_at(&g, &now, &policy, &s("42"), 700).unwrap();
    assert_eq!(opened.state, AttachmentState::Active);
    assert_eq!(opened.source_status, AttachmentSourceStatus::Unknown);
    assert_eq!(opened.cursor, "42");
    assert_eq!(opened.start_cursor, "42");
    assert_eq!(opened.coverage, vec!["Earlier execution history was not requested.".to_string()]);
    assert_eq!(opened.created_ms, "700");
    assert_eq!(opened.scope, g.scope);
    let history = open_request("h1", "exec-h", vec![AttachmentCapability::Observe], AttachmentOpenStart::History);
    let opened = store.open_attachment_at(&g, &history, &policy, &s("42"), 700).unwrap();
    assert_eq!(opened.cursor, "0");
    assert_eq!(
        opened.coverage,
        vec!["Includes only history already supplied by the host; missing history is unknown.".to_string()]
    );
    assert_eq!(store.attachments.len(), 2);
}

#[test]
fn reopening_needs_the_same_identity_and_a_live_attachment() {
    let mut store = Store::new();
    let g = grant("g1", "99999999999999");
    store.register_grant(g.clone()).unwrap();
    let policy = AttachmentPolicy::default();
    let request = open_request("n1", "exec-n", vec![AttachmentCapability::Observe], AttachmentOpenStart::Now);
    store.open_attachment_at(&g, &request, &policy, &s("1"), 700).unwrap();
    store.interrupt_attachment_at(&s("n1"), &s("lost"), 800).unwrap();
    let again = store.open_attachment_at(&g, &request, &policy, &s("9"), 900).unwrap();
    assert_eq!(again.state, AttachmentState::Active);
    assert_eq!(again.cursor, "1");
    assert_eq!(again.updated_ms, "900");
    assert_eq!(store.attachments.len(), 1);
    let mut changed = open_request("n1", "exec-n", vec![AttachmentCapability::Observe], AttachmentOpenStart::Now);
    changed.connector_version = "2".into();
    assert_eq!(store.open_attachment_at(&g, &changed, &policy, &s("1"), 900).unwrap_err().code, CONFLICT);
    store.attachments[0].state = AttachmentState::Completed;
    assert_eq!(store.open_attachment_at(&g, &request, &policy, &s("1"), 900).unwrap_err().code, CONFLICT);
}

#[test]
fn opening_is_limited_by_capabilities_capacity_and_handoffs() {
    let mut store = Store::new();
    let g = grant("g1", "5000");
    store.register_grant(g.clone()).unwrap();
    let policy = AttachmentPolicy::default();
    let steer = open_request("x", "exec-x", vec![AttachmentCapability::Observe, AttachmentCapability::Steer], AttachmentOpenStart::Now);
    assert_eq!(store.open_attachment_at(&g, &steer, &policy, &s("0"), 100).unwrap_err().code, DENIED);
    let blind = open_request("x", "exec-x", vec![], AttachmentOpenStart::Now);
    assert_eq!(store.open_attachment_at(&g, &blind, &policy, &s("0"), 100).unwrap_err().code, DENIED);
    let ok = open_request("x", "exec-x", vec![AttachmentCapability::Observe], AttachmentOpenStart::Now);
    assert_eq!(store.open_attachment_at(&g, &ok, &policy, &s("0"), 5000).unwrap_err().code, EXHAUSTED);
    let mut bad_policy = AttachmentPolicy::default();
    bad_policy.batch_size = 101;
    assert_eq!(store.open_attachment_at(&g, &ok, &bad_policy, &s("0"), 100).unwrap_err().code, INVALID);
    for i in 0..16 {
        let r = open_request(&format!("a{i}"), &format!("exec-{i}"), vec![AttachmentCapability::Observe], AttachmentOpenStart::Now);
        store.open_attachment_at(&g, &r, &policy, &s("0"), 100).unwrap();
    }
    assert_eq!(store.open_attachment_at(&g, &ok, &policy, &s("0"), 100).unwrap_err().code, EXHAUSTED);

    let mut store = Store::new();
    store.register_grant(g.clone()).unwrap();
    let mut sibling = grant("g2", "5000");
    sibling.scope = g.scope.clone();
    store.register_grant(sibling.clone()).unwrap();
    store.open_attachment_at(&g, &ok, &policy, &s("0"), 100).unwrap();
    let same_execution = open_request("y", "exec-x", vec![AttachmentCapability::Observe], AttachmentOpenStart::Now);
    assert_eq!(store.open_attachment_at(&sibling, &same_execution, &policy, &s("0"), 100).unwrap_err().code, CONFLICT);
    store.attachments[0].handoff = Some(RepairHandoff {
        generation: "gen".into(),
        work_id: "w".into(),
        deadline_ms: "5000".into(),
        state: RepairHandoffState::Unknown,
    });
    let other = open_request("z", "exec-z", vec![AttachmentCapability::Observe], AttachmentOpenStart::Now);
    assert_eq!(store.open_attachment_at(&g, &other, &policy, &s("0"), 100).unwrap_err().code, CONFLICT);
}

#[test]
fn wall_clock_operations_follow_the_same_rules() {
    let mut store = Store::new();
    let g = grant("g1", "99999999999999");
    store.register_grant(g.clone()).unwrap();
    let request = open_request("w1", "exec-w", vec![AttachmentCapability::Observe], AttachmentOpenStart::History);
    let opened = store.open_attachment(&g, &request, &AttachmentPolicy::default(), &s("5")).unwrap();
    assert_eq!(opened.cursor, "0");
    assert!(store.require_attachment_write(&s("unowned"), &action(ActionKind::Apply, None)).is_ok());
    store.attachment_work.push(AttachmentWork { work_id: "run-w".into(), attachment_id: "w1".into() });
    assert_eq!(store.require_attachment_write(&s("run-w"), &action(ActionKind::Apply, None)).unwrap_err().code, DENIED);
}

#[test]
fn attachment_lookups_follow_ownership() {
    let mut store = attached("99999999999999", vec![AttachmentCapability::Observe]);
    store.feedback.push(feedback("f1", "a1", FeedbackState::Pending));
    assert_eq!(store.feedback(&s("a1"), &s("f1")).unwrap().summary, "finding");
    assert_eq!(store.feedback(&s("b1"), &s("f1")).unwrap_err().code, MISSING);
    assert!(store.run_attachment(&s("w1")).unwrap().is_none());
    store.attachment_work.push(AttachmentWork { work_id: "w1".into(), attachment_id: "a1".into() });
    assert_eq!(store.run_attachment(&s("w1")).unwrap().unwrap().id, "a1");
    store.attachment_work.push(AttachmentWork { work_id: "w2".into(), attachment_id: "gone".into() });
    assert_eq!(store.run_attachment(&s("w2")).unwrap_err().code, MISSING);
    assert_eq!(store.attachment(&s("a1")).unwrap().execution_id, "exec-a1");
}

#[test]
fn feedback_steers_only_while_active_unexpired_and_resting_on_current_sources() {
    let runtime = Runtime { store: attached("99999999999999", vec![AttachmentCapability::Steer]) };
    let mut f = feedback("f1", "a1", FeedbackState::Delivered);
    f.expires_ms = "500".into();
    f.record_refs = vec![s("rec-1")];
    f.evidence_refs = vec![s("ev-1")];
    f.artifact_versions = vec![ArtifactRef { path: s("a.txt"), version: s("v1") }];
    let records = vec![s("rec-1")];
    let references = vec![s("ev-1"), s("ev-2")];
    let host = HostReport { checkers: vec![], artifacts: vec![ArtifactRef { path: s("a.txt"), version: s("v1") }] };
    assert!(runtime.valid_attachment_feedback_at(&f, &records, &references, &host, 100).unwrap());
    assert!(!runtime.valid_attachment_feedback_at(&f, &records, &references, &host, 500).unwrap());
    assert!(!runtime.valid_attachment_feedback_at(&f, &vec![], &references, &host, 100).unwrap());
    assert!(!runtime.valid_attachment_feedback_at(&f, &records, &vec![s("ev-2")], &host, 100).unwrap());
    let moved = HostReport { checkers: vec![], artifacts: vec![ArtifactRef { path: s("a.txt"), version: s("v2") }] };
    assert!(!runtime.valid_attachment_feedback_at(&f, &records, &references, &moved, 100).unwrap());
    let mut undated = f.clone();
    undated.expires_ms = "later".into();
    assert_eq!(runtime.valid_attachment_feedback_at(&undated, &records, &references, &host, 100).unwrap_err().code, INVALID);
    let mut stray = f.clone();
    stray.attachment_id = "a9".into();
    assert_eq!(runtime.valid_attachment_feedback_at(&stray, &records, &references, &host, 100).unwrap_err().code, MISSING);
    let mut detached = Runtime { store: attached("99999999999999", vec![AttachmentCapability::Steer]) };
    detached.store.attachments[0].state = AttachmentState::Detached;
    assert!(!detached.valid_attachment_feedback_at(&undated, &records, &references, &host, 100).unwrap());
}

fn call(id: &str, grant: &str, state: PermitState, usage: Option<(&str, bool)>) -> PermitEntry {
    PermitEntry {
        id: id.into(),
        grant_id: grant.into(),
        run_id: "run-1".into(),
        reserved_tokens: 1,
        reserved_cost: 1,
        compaction_id: None,
        allocation_id: "root".into(),
        call_id: None,
        request: PermitRequest {
            max_output_tokens: 1,
            input_tokens_bound: "1".into(),
            cost_microusd_bound: "1".into(),
            compaction_id: None,
            call_id: None,
        },
        state,
        usage: usage.map(|(cost, complete)| Usage {
            permit_id: id.into(),
            input_tokens: "1".into(),
            output_tokens: "1".into(),
            cost_microusd: cost.into(),
            complete,
        }),
        dispatched_ms: None,
        observed_ms: None,
    }
}

#[test]
fn the_status_counts_work_feedback_and_provider_usage_of_the_attachment() {
    let mut store = attached("99999999999999", vec![AttachmentCapability::Observe]);
    store.attachments.push(attachment("a2", "g1", vec![AttachmentCapability::Observe]));
    store.work.push(work("w1", WorkItemStatus::Queued));
    store.work.push(work("w2", WorkItemStatus::Interrupted));
    store.work.push(work("w3", WorkItemStatus::Running));
    store.work.push(work("w4", WorkItemStatus::Completed));
    store.work.push(work("w5", WorkItemStatus::Running));
    for (w, a) in [("w1", "a1"), ("w2", "a1"), ("w3", "a1"), ("w4", "a1"), ("w5", "a2")] {
        store.attachment_work.push(AttachmentWork { work_id: w.into(), attachment_id: a.into() });
    }
    store.feedback.push(feedback("f1", "a1", FeedbackState::Pending));
    store.feedback.push(feedback("f2", "a1", FeedbackState::Delivered));
    store.feedback.push(feedback("f3", "a1", FeedbackState::Rejected));
    store.feedback.push(feedback("f4", "a1", FeedbackState::Pending));
    store.feedback.push(feedback("f5", "a2", FeedbackState::Expired));
    store.permits.push(call("p1", "g1", PermitState::Settled, Some(("30", true))));
    store.permits.push(call("p2", "g1", PermitState::Dispatched, None));
    store.permits.push(call("p3", "g1", PermitState::Settled, Some(("12", false))));
    store.permits.push(call("p4", "g1", PermitState::Released, Some(("1000", true))));
    store.permits.push(call("p5", "g2", PermitState::Settled, Some(("7", true))));
    let status = store.attachment_status(&s("a1")).unwrap();
    assert_eq!(status.attachment.id, "a1");
    assert_eq!(status.queued_work, 2);
    assert_eq!(status.running_work, 1);
    assert_eq!(status.pending_feedback, 3);
    assert_eq!(status.usage.calls, 3);
    assert_eq!(status.usage.unknown_calls, 2);
    assert_eq!(status.usage.observed_cost_microusd, "42");
    assert_eq!(
        status.feedback_states,
        vec![(FeedbackState::Delivered, 1), (FeedbackState::Pending, 2), (FeedbackState::Rejected, 1)]
    );
    assert_eq!(store.attachment_status(&s("a9")).unwrap_err().code, MISSING);
    store.permits.push(call("p6", "g1", PermitState::Settled, Some(("lots", true))));
    assert_eq!(store.attachment_status(&s("a1")).unwrap_err().code, ribosome::error::INTERNAL);
}
