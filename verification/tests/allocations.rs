use ribosome::contracts::{
    Budget, BudgetAllocationRequest, Disposition, Grant, Mode, Profile, Scope, Split, WorkItem,
    WorkItemStatus,
};
use ribosome::digest::allocation_id;
use ribosome::error::{CONFLICT, DENIED, EXHAUSTED, INVALID, MISSING};
use ribosome::store::{Store, WorkEntry};

const FAR: &str = "99999999999999";

fn budget(calls: u32, tokens: &str, cost: &str, actions: u32, deadline: &str) -> Budget {
    Budget {
        max_calls: calls,
        max_tokens: tokens.into(),
        max_cost_microusd: cost.into(),
        max_actions: actions,
        max_work_items: 3,
        max_depth: 3,
        deadline_ms: deadline.into(),
    }
}

fn grant(id: &str, budget: Budget) -> Grant {
    Grant {
        id: id.into(),
        scope: Scope { client: "test".into(), project: "ledger".into() },
        mode: Mode::Apply,
        paths: vec![],
        tools: vec![],
        profiles: vec![Profile::Caretaker],
        budget,
        context: "ledger".into(),
        visible_splits: vec![Split::Development],
        allow_export: false,
        required_checks: None,
        writable_paths: None,
        discovery_corpus: None,
        prepared_run: None,
    }
}

fn ledger() -> (Store, Grant) {
    let mut store = Store::new();
    let g = grant("g1", budget(10, "1000", "500", 5, FAR));
    store.register_grant(g.clone()).unwrap();
    store.start_run("run-1".into(), &g.id).unwrap();
    (store, g)
}

fn child_request(id: &str, parent: &str, b: Budget) -> BudgetAllocationRequest {
    BudgetAllocationRequest {
        id: id.into(),
        parent_id: parent.into(),
        cause_id: "cause".into(),
        purpose: "test".into(),
        budget: b,
    }
}

fn work(id: &str, parent: &str, allocation: Option<&str>, status: WorkItemStatus) -> WorkEntry {
    WorkEntry {
        item: WorkItem {
            id: id.into(),
            scope: Scope { client: "test".into(), project: "ledger".into() },
            subject: "s".into(),
            profile: Profile::Curator,
            operator: "proofreading@1".into(),
            reason: "r".into(),
            evidence_refs: vec![],
            root_id: parent.into(),
            parent_id: parent.into(),
            depth: 1,
            status,
            attempts: 0,
            lease_until_ms: "0".into(),
            owner: String::new(),
        },
        grant_id: "g1".into(),
        allocation_id: allocation.map(String::from),
    }
}

#[test]
fn registering_a_grant_opens_its_root_allocation() {
    let (store, g) = ledger();
    let root = store.allocation(&g, &allocation_id("root", "g1")).unwrap();
    assert_eq!(root.parent_id, None);
    assert_eq!(root.budget, g.budget);
    let status = store.root_budget_status(&g).unwrap();
    assert_eq!(status.usage.model_calls, 0);
    assert_eq!(status.remaining.max_calls, 10);
    assert_eq!(status.remaining.max_tokens, "1000");
}

#[test]
fn registering_a_grant_twice_conflicts() {
    let (mut store, g) = ledger();
    assert_eq!(store.register_grant(g).unwrap_err().code, CONFLICT);
}

#[test]
fn root_status_of_an_unknown_or_altered_grant_is_refused() {
    let (store, g) = ledger();
    let stranger = grant("g2", budget(1, "1", "1", 1, FAR));
    assert_eq!(store.root_budget_status(&stranger).unwrap_err().code, MISSING);
    let mut altered = g.clone();
    altered.context = "other".into();
    assert_eq!(store.root_budget_status(&altered).unwrap_err().code, DENIED);
}

#[test]
fn child_allocations_stay_within_their_parent() {
    let (mut store, g) = ledger();
    let root = allocation_id("root", "g1");
    let child = store.allocate_at(&g, &child_request("child", &root, budget(4, "100", "50", 2, FAR)), 1000).unwrap();
    assert_eq!(child.parent_id.as_deref(), Some(root.as_str()));
    assert_eq!(child.disposition, None);
    let too_big = store.allocate_at(&g, &child_request("big", &root, budget(11, "100", "50", 2, FAR)), 1000);
    assert_eq!(too_big.unwrap_err().code, DENIED);
    let status = store.budget_status(&g, &"child".to_string()).unwrap();
    assert_eq!(status.remaining.max_calls, 4);
    assert_eq!(status.remaining.max_tokens, "100");
}

#[test]
fn repeating_an_allocation_returns_it_unchanged() {
    let (mut store, g) = ledger();
    let root = allocation_id("root", "g1");
    let request = child_request("child", &root, budget(4, "100", "50", 2, FAR));
    let first = store.allocate_at(&g, &request, 1000).unwrap();
    let count = store.allocations.len();
    let again = store.allocate_at(&g, &request, 2000).unwrap();
    assert_eq!(first, again);
    assert_eq!(store.allocations.len(), count);
    let mut changed = request.clone();
    changed.purpose = "other".into();
    assert_eq!(store.allocate_at(&g, &changed, 3000).unwrap_err().code, CONFLICT);
}

#[test]
fn allocation_requests_need_a_known_parent_and_counters() {
    let (mut store, g) = ledger();
    let missing = store.allocate_at(&g, &child_request("c", "nowhere", budget(1, "1", "1", 1, FAR)), 1000);
    assert_eq!(missing.unwrap_err().code, MISSING);
    let root = allocation_id("root", "g1");
    let invalid = store.allocate_at(&g, &child_request("c", &root, budget(1, "one", "1", 1, FAR)), 1000);
    assert_eq!(invalid.unwrap_err().code, INVALID);
    let stranger = grant("g2", budget(1, "1", "1", 1, FAR));
    assert_eq!(store.allocate(&stranger, &child_request("c", &root, budget(1, "1", "1", 1, FAR))).unwrap_err().code, MISSING);
}

#[test]
fn expired_or_finished_parents_refuse_children() {
    let (mut store, g) = ledger();
    let root = allocation_id("root", "g1");
    store.allocate_at(&g, &child_request("late", &root, budget(2, "10", "10", 1, "5000")), 1000).unwrap();
    let expired = store.allocate_at(&g, &child_request("grandchild", "late", budget(1, "1", "1", 1, "4000")), 6000);
    assert_eq!(expired.unwrap_err().code, EXHAUSTED);
    store.finish_allocation(&g, &"late".to_string(), Disposition::Cancelled).unwrap();
    let closed = store.allocate_at(&g, &child_request("grandchild", "late", budget(1, "1", "1", 1, "4000")), 2000);
    assert_eq!(closed.unwrap_err().code, DENIED);
    assert_eq!(store.require_allocation_open(&g, &"late".to_string(), 2000).unwrap_err().code, DENIED);
    assert_eq!(
        store.finish_allocation(&g, &"late".to_string(), Disposition::Completed).unwrap_err().code,
        CONFLICT
    );
    store.finish_allocation(&g, &"late".to_string(), Disposition::Cancelled).unwrap();
}

#[test]
fn ancestry_lists_an_allocation_and_its_owners() {
    let (mut store, g) = ledger();
    let root = allocation_id("root", "g1");
    store.allocate_at(&g, &child_request("a", &root, budget(4, "100", "50", 2, FAR)), 1000).unwrap();
    store.allocate_at(&g, &child_request("b", "a", budget(2, "10", "5", 1, FAR)), 1000).unwrap();
    let chain = store.allocation_ancestry(&g, &"b".to_string()).unwrap();
    let ids: Vec<&str> = chain.iter().map(|a| a.id.as_str()).collect();
    assert_eq!(ids, vec!["b", "a", root.as_str()]);
    assert_eq!(store.allocation_remaining(&g, &"b".to_string()).unwrap().max_calls, 2);
}

#[test]
fn runs_draw_on_the_root_until_bound() {
    let (mut store, g) = ledger();
    let root = allocation_id("root", "g1");
    assert_eq!(store.run_allocation_in(&"run-1".to_string()).unwrap().id, root);
    store
        .bind_run_allocation_in(&g, &"run-1".to_string(), Profile::Caretaker, &None, 1000)
        .unwrap();
    let bound = store.run_allocation_in(&"run-1".to_string()).unwrap();
    assert_eq!(bound.id, allocation_id("run", "run-1"));
    assert_eq!(bound.parent_id.as_deref(), Some(root.as_str()));
    assert_eq!(bound.purpose, "caretaker");
    assert_eq!(bound.budget, g.budget);
    assert_eq!(store.run_budget_status(&"run-1".to_string()).unwrap().allocation.id, bound.id);
    assert_eq!(store.run_budget_status(&"nobody".to_string()).unwrap_err().code, MISSING);
}

#[test]
fn binding_a_bound_run_reopens_its_allocation() {
    let (mut store, g) = ledger();
    let run = "run-1".to_string();
    store.bind_run_allocation_in(&g, &run, Profile::Curator, &None, 1000).unwrap();
    let id = allocation_id("run", "run-1");
    store.finish_allocation(&g, &id, Disposition::Completed).unwrap();
    assert!(store.require_allocation_open(&g, &id, 2000).is_err());
    let rows = store.run_allocations.len();
    store.bind_run_allocation_in(&g, &run, Profile::Curator, &None, 3000).unwrap();
    assert_eq!(store.run_allocations.len(), rows);
    assert_eq!(store.allocation(&g, &id).unwrap().disposition, None);
    assert!(store.require_allocation_open(&g, &id, 3000).is_ok());
}

#[test]
fn scheduled_work_keeps_the_allocation_it_was_queued_under() {
    let (mut store, g) = ledger();
    let root = allocation_id("root", "g1");
    store.allocate_at(&g, &child_request("queue", &root, budget(3, "30", "30", 1, FAR)), 1000).unwrap();
    store.allocate_at(&g, &child_request("other", &root, budget(3, "30", "30", 1, FAR)), 1000).unwrap();
    store.work.push(work("child-run", "run-1", Some("queue"), WorkItemStatus::Queued));
    let child = "child-run".to_string();
    let refused = store.bind_run_allocation_in(&g, &child, Profile::Curator, &Some("other".into()), 1000);
    assert_eq!(refused.unwrap_err().code, DENIED);
    store.bind_run_allocation_in(&g, &child, Profile::Curator, &None, 1000).unwrap();
    let bound = store.allocation(&g, &allocation_id("run", "child-run")).unwrap();
    assert_eq!(bound.parent_id.as_deref(), Some("queue"));
    assert_eq!(bound.budget.max_calls, 3);
}
