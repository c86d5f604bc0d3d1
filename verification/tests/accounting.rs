use ribosome::contracts::{
    Budget, Disposition, Grant, Mode, PermitRequest, Profile, Scope, Split, Usage,
};
use ribosome::digest::allocation_id;
use ribosome::error::{CONFLICT, DENIED, EXHAUSTED, INVALID, MISSING};
use ribosome::experiments::EvaluationAccount;
use ribosome::store::{CompactionEntry, PermitState, RunStatus, Store};
use std::sync::atomic::{AtomicBool, Ordering};

const FAR: &str = "99999999999999";

fn budget(calls: u32, tokens: &str, cost: &str) -> Budget {
    Budget {
        max_calls: calls,
        max_tokens: tokens.into(),
        max_cost_microusd: cost.into(),
        max_actions: 5,
        max_work_items: 3,
        max_depth: 3,
        deadline_ms: FAR.into(),
    }
}

fn grant(id: &str, budget: Budget) -> Grant {
    Grant {
        id: id.into(),
        scope: Scope { client: "test".into(), project: "permits".into() },
        mode: Mode::Apply,
        paths: vec![],
        tools: vec![],
        profiles: vec![Profile::Caretaker],
        budget,
        context: "permits".into(),
        visible_splits: vec![Split::Development],
        allow_export: false,
        required_checks: None,
        writable_paths: None,
        discovery_corpus: None,
        prepared_run: None,
    }
}

fn ledger() -> (Store, Grant) {
    let mut store = Store::new();
    let g = grant("g1", budget(3, "100", "50"));
    store.register_grant(g.clone()).unwrap();
    store.start_run("run-1".into(), &g.id).unwrap();
    (store, g)
}

fn request(call: Option<&str>, input: &str, output: u32, cost: &str) -> PermitRequest {
    PermitRequest {
        max_output_tokens: output,
        input_tokens_bound: input.into(),
        cost_microusd_bound: cost.into(),
        compaction_id: None,
        call_id: call.map(String::from),
    }
}

fn usage(permit: &str, input: &str, output: &str, cost: &str, complete: bool) -> Usage {
    Usage {
        permit_id: permit.into(),
        input_tokens: input.into(),
        output_tokens: output.into(),
        cost_microusd: cost.into(),
        complete,
    }
}

fn s(x: &str) -> String {
    x.to_string()
}

#[test]
fn a_named_call_is_reserved_until_dispatched() {
    let (mut store, g) = ledger();
    let permit = store.permit_in_allocation_at(&s("run-1"), &request(Some("c1"), "10", 5, "7"), None, 1000, s("p1")).unwrap();
    assert_eq!(permit.id, "p1");
    assert_eq!(permit.max_output_tokens, 5);
    let row = &store.permits[0];
    assert_eq!(row.state, PermitState::Reserved);
    assert_eq!(row.reserved_tokens, 15);
    assert_eq!(row.reserved_cost, 7);
    assert_eq!(row.allocation_id, allocation_id("root", "g1"));
    let status = store.root_budget_status(&g).unwrap();
    assert_eq!(status.usage.model_calls, 1);
    assert_eq!(status.usage.undispatched_calls, 1);
    assert_eq!(status.usage.reserved_tokens, "15");
    assert_eq!(status.remaining.max_calls, 2);
    assert_eq!(status.remaining.max_tokens, "85");
    assert_eq!(status.remaining.max_cost_microusd, "43");
}

#[test]
fn an_unnamed_call_counts_as_dispatched() {
    let (mut store, _g) = ledger();
    store.permit_in_allocation_at(&s("run-1"), &request(None, "10", 5, "7"), None, 1000, s("p1")).unwrap();
    assert_eq!(store.permits[0].state, PermitState::Dispatched);
}

#[test]
fn repeating_a_call_returns_its_permit() {
    let (mut store, _g) = ledger();
    let req = request(Some("c1"), "10", 5, "7");
    let first = store.permit_in_allocation_at(&s("run-1"), &req, None, 1000, s("p1")).unwrap();
    let again = store.permit_in_allocation_at(&s("run-1"), &req, None, 2000, s("p2")).unwrap();
    assert_eq!(again.id, first.id);
    assert_eq!(store.permits.len(), 1);
    assert_eq!(store.lookup_permit(&s("run-1"), &s("c1")).unwrap().id, "p1");
    assert_eq!(store.lookup_permit(&s("run-1"), &s("c2")).unwrap_err().code, MISSING);
    let changed = request(Some("c1"), "11", 5, "7");
    let conflict = store.permit_in_allocation_at(&s("run-1"), &changed, None, 3000, s("p3"));
    assert_eq!(conflict.unwrap_err().code, CONFLICT);
}

#[test]
fn permits_that_exceed_the_remaining_budget_are_refused() {
    let (mut store, _g) = ledger();
    let too_many_tokens = store.permit_in_allocation_at(&s("run-1"), &request(Some("c1"), "96", 5, "1"), None, 1000, s("p1"));
    assert_eq!(too_many_tokens.unwrap_err().code, EXHAUSTED);
    let too_costly = store.permit_in_allocation_at(&s("run-1"), &request(Some("c1"), "1", 1, "51"), None, 1000, s("p1"));
    assert_eq!(too_costly.unwrap_err().code, EXHAUSTED);
    for (i, call) in ["a", "b", "c"].iter().enumerate() {
        store.permit_in_allocation_at(&s("run-1"), &request(Some(call), "1", 1, "1"), None, 1000, format!("p{i}")).unwrap();
    }
    let no_calls = store.permit_in_allocation_at(&s("run-1"), &request(Some("d"), "1", 1, "1"), None, 1000, s("p9"));
    assert_eq!(no_calls.unwrap_err().code, EXHAUSTED);
    assert_eq!(store.permits.len(), 3);
}

#[test]
fn permits_need_an_active_run_and_counters() {
    let (mut store, _g) = ledger();
    let unknown = store.permit_in_allocation_at(&s("nobody"), &request(Some("c"), "1", 1, "1"), None, 1000, s("p"));
    assert_eq!(unknown.unwrap_err().code, MISSING);
    let invalid = store.permit_in_allocation_at(&s("run-1"), &request(Some("c"), "x", 1, "1"), None, 1000, s("p"));
    assert_eq!(invalid.unwrap_err().code, INVALID);
    store.set_run_status(&s("run-1"), RunStatus::Finished).unwrap();
    let inactive = store.permit_in_allocation_at(&s("run-1"), &request(Some("c"), "1", 1, "1"), None, 1000, s("p"));
    assert_eq!(inactive.unwrap_err().code, DENIED);
    assert!(store.permits.is_empty());
}

#[test]
fn dispatching_twice_is_refused() {
    let (mut store, _g) = ledger();
    store.permit_in_allocation_at(&s("run-1"), &request(Some("c1"), "10", 5, "7"), None, 1000, s("p1")).unwrap();
    store.dispatch_permit_at(&s("run-1"), &s("p1"), 2000).unwrap();
    assert_eq!(store.permits[0].state, PermitState::Dispatched);
    assert_eq!(store.permits[0].dispatched_ms, Some(2000));
    assert_eq!(store.dispatch_permit_at(&s("run-1"), &s("p1"), 3000).unwrap_err().code, CONFLICT);
    assert_eq!(store.permits[0].dispatched_ms, Some(2000));
    assert_eq!(store.dispatch_permit(&s("run-1"), &s("missing")).unwrap_err().code, CONFLICT);
}

#[test]
fn release_gives_up_an_undispatched_call_for_good() {
    let (mut store, g) = ledger();
    store.permit_in_allocation_at(&s("run-1"), &request(Some("c1"), "10", 5, "7"), None, 1000, s("p1")).unwrap();
    store.release_permit(&s("run-1"), &s("p1")).unwrap();
    store.release_permit(&s("run-1"), &s("p1")).unwrap();
    assert_eq!(store.permits[0].state, PermitState::Released);
    assert_eq!(store.dispatch_permit_at(&s("run-1"), &s("p1"), 2000).unwrap_err().code, CONFLICT);
    assert_eq!(store.root_budget_status(&g).unwrap().usage.model_calls, 0);
    assert_eq!(store.release_permit(&s("run-1"), &s("nope")).unwrap_err().code, MISSING);
    store.permit_in_allocation_at(&s("run-1"), &request(Some("c2"), "10", 5, "7"), None, 1000, s("p2")).unwrap();
    store.dispatch_permit_at(&s("run-1"), &s("p2"), 2000).unwrap();
    assert_eq!(store.release_permit(&s("run-1"), &s("p2")).unwrap_err().code, CONFLICT);
}

#[test]
fn complete_usage_settles_a_dispatched_permit() {
    let (mut store, g) = ledger();
    store.permit_in_allocation_at(&s("run-1"), &request(Some("c1"), "10", 5, "7"), None, 1000, s("p1")).unwrap();
    assert_eq!(store.usage_at(&s("run-1"), &usage("p1", "3", "2", "4", true), 1500).unwrap_err().code, CONFLICT);
    store.dispatch_permit_at(&s("run-1"), &s("p1"), 2000).unwrap();
    store.usage_at(&s("run-1"), &usage("p1", "3", "2", "4", true), 3000).unwrap();
    let row = &store.permits[0];
    assert_eq!(row.state, PermitState::Settled);
    assert_eq!(row.reserved_tokens, 5);
    assert_eq!(row.reserved_cost, 4);
    assert_eq!(row.observed_ms, Some(3000));
    let status = store.root_budget_status(&g).unwrap();
    assert_eq!(status.usage.settled_tokens, "5");
    assert_eq!(status.usage.reserved_tokens, "0");
    assert_eq!(status.usage.unknown_calls, 0);
    assert_eq!(status.remaining.max_tokens, "95");
}

#[test]
fn repeated_usage_is_accepted_and_changed_usage_conflicts() {
    let (mut store, _g) = ledger();
    store.permit_in_allocation_at(&s("run-1"), &request(Some("c1"), "10", 5, "7"), None, 1000, s("p1")).unwrap();
    store.dispatch_permit_at(&s("run-1"), &s("p1"), 2000).unwrap();
    store.usage_at(&s("run-1"), &usage("p1", "3", "2", "4", false), 3000).unwrap();
    assert_eq!(store.permits[0].state, PermitState::Dispatched);
    store.usage_at(&s("run-1"), &usage("p1", "3", "2", "4", false), 4000).unwrap();
    assert_eq!(store.permits[0].observed_ms, Some(3000));
    let changed = store.usage_at(&s("run-1"), &usage("p1", "3", "2", "5", false), 5000);
    assert_eq!(changed.unwrap_err().code, CONFLICT);
    assert_eq!(store.usage(&s("run-1"), &usage("other", "1", "1", "1", true)).unwrap_err().code, MISSING);
    assert_eq!(store.usage(&s("run-1"), &usage("p1", "1", "x", "1", true)).unwrap_err().code, INVALID);
}

#[test]
fn compaction_permits_draw_on_a_child_of_the_same_ceilings() {
    let (mut store, g) = ledger();
    store.compactions.push(CompactionEntry { id: "sum-1".into(), run_id: "run-1".into(), eligible: true });
    store.compactions.push(CompactionEntry { id: "sum-2".into(), run_id: "run-1".into(), eligible: false });
    let mut req = request(Some("c1"), "10", 5, "7");
    req.compaction_id = Some("sum-1".into());
    store.permit_in_allocation_at(&s("run-1"), &req, None, 1000, s("p1")).unwrap();
    let child = allocation_id("compaction", "run-1:sum-1");
    assert_eq!(store.permits[0].allocation_id, child);
    let allocation = store.allocation(&g, &child).unwrap();
    assert_eq!(allocation.purpose, "compaction");
    assert_eq!(allocation.budget, g.budget);
    let allocations = store.allocations.len();
    let again = store.permit_in_allocation_at(&s("run-1"), &req, None, 5000, s("p9")).unwrap();
    assert_eq!(again.id, "p1");
    assert_eq!(store.allocations.len(), allocations);
    assert_eq!(store.permits.len(), 1);
    let mut stale = req.clone();
    stale.compaction_id = Some("sum-2".into());
    stale.call_id = Some("c2".into());
    assert_eq!(store.permit_in_allocation_at(&s("run-1"), &stale, None, 1000, s("p2")).unwrap_err().code, CONFLICT);
    let mut foreign = req.clone();
    foreign.compaction_id = Some("sum-3".into());
    foreign.call_id = Some("c3".into());
    assert_eq!(store.permit_in_allocation_at(&s("run-1"), &foreign, None, 1000, s("p3")).unwrap_err().code, DENIED);
}

#[test]
fn permits_inside_a_stopped_allocation_are_denied() {
    let (mut store, g) = ledger();
    store.bind_run_allocation_in(&g, &s("run-1"), Profile::Caretaker, &None, 1000).unwrap();
    store.finish_allocation(&g, &allocation_id("run", "run-1"), Disposition::Cancelled).unwrap();
    let denied = store.permit_in_allocation_at(&s("run-1"), &request(Some("c1"), "1", 1, "1"), None, 1000, s("p1"));
    assert_eq!(denied.unwrap_err().code, DENIED);
}

#[test]
fn a_wall_clock_permit_gets_a_fresh_identifier() {
    let (mut store, _g) = ledger();
    let a = store.permit(&s("run-1"), &request(Some("c1"), "1", 1, "1")).unwrap();
    let b = store.permit(&s("run-1"), &request(Some("c2"), "1", 1, "1")).unwrap();
    assert_ne!(a.id, b.id);
    assert_eq!(a.id.len(), 36);
}

#[test]
fn evaluation_accounts_meter_only_their_own_calls() {
    let (mut store, g) = ledger();
    store.bind_run_allocation_in(&g, &s("run-1"), Profile::Caretaker, &None, 1000).unwrap();
    let cancelled = AtomicBool::new(false);
    let mine = EvaluationAccount::new(s("run-1"), allocation_id("run", "run-1"), &cancelled);
    let theirs = EvaluationAccount::new(s("run-1"), allocation_id("root", "g1"), &cancelled);
    assert_eq!(mine.permit(&mut store, &request(None, "1", 1, "1")).unwrap_err().code, INVALID);
    let permit = mine.permit(&mut store, &request(Some("eval-1"), "1", 1, "1")).unwrap();
    assert_eq!(store.permits[0].allocation_id, allocation_id("run", "run-1"));
    assert_eq!(theirs.dispatch(&mut store, &permit).unwrap_err().code, DENIED);
    assert_eq!(theirs.release(&mut store, &permit).unwrap_err().code, DENIED);
    mine.dispatch(&mut store, &permit).unwrap();
    assert_eq!(theirs.usage(&mut store, &usage(&permit.id, "1", "1", "1", true)).unwrap_err().code, DENIED);
    mine.usage(&mut store, &usage(&permit.id, "1", "1", "1", true)).unwrap();
    assert_eq!(mine.status(&store).unwrap().usage.settled_tokens, "2");
    cancelled.store(true, Ordering::SeqCst);
    assert_eq!(mine.require_not_cancelled().unwrap_err().code, DENIED);
    assert_eq!(mine.permit(&mut store, &request(Some("eval-2"), "1", 1, "1")).unwrap_err().code, DENIED);
    assert_eq!(mine.dispatch(&mut store, &permit).unwrap_err().code, DENIED);
    let released = mine.permit_when(&mut store, false, &request(Some("eval-3"), "1", 1, "1")).unwrap();
    mine.release(&mut store, &released).unwrap();
}
