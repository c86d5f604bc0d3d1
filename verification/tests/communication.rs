use ribosome::communication::{DELIVERY_ATTEMPTS, INBOX_CAPACITY, INBOX_PAGE};
use ribosome::contracts::{Budget, Grant, MessageSend, Mode, Profile, Scope, Split};
use ribosome::error::{DENIED, EXHAUSTED, INTERNAL, MISSING};
use ribosome::store::{RunStatus, Store};

fn grant(id: &str) -> Grant {
    Grant {
        id: id.into(),
        scope: Scope { client: "test".into(), project: "mail".into() },
        mode: Mode::Observe,
        paths: vec![],
        tools: vec![],
        profiles: vec![Profile::Caretaker],
        budget: Budget {
            max_calls: 5,
            max_tokens: "100".into(),
            max_cost_microusd: "100".into(),
            max_actions: 5,
            max_work_items: 2,
            max_depth: 2,
            deadline_ms: "10000".into(),
        },
        context: "mail".into(),
        visible_splits: vec![Split::Development],
        allow_export: false,
        required_checks: None,
        writable_paths: None,
        discovery_corpus: None,
        prepared_run: None,
    }
}

fn s(x: &str) -> String {
    x.to_string()
}

fn send(to: &str) -> MessageSend {
    MessageSend { recipient: to.into(), topic: "status".into(), body: "done".into(), correlation: "c1".into() }
}

fn mailbox() -> Store {
    let mut store = Store::new();
    store.register_grant(grant("g1")).unwrap();
    store.register_grant(grant("g2")).unwrap();
    store.start_run(s("run-1"), &s("g1")).unwrap();
    store.start_run(s("run-2"), &s("g1")).unwrap();
    store.start_run(s("run-3"), &s("g2")).unwrap();
    store
}

#[test]
fn messages_go_only_to_runs_of_the_same_grant() {
    let mut store = mailbox();
    let readable: Vec<String> = vec![];
    let m = store.send_message_with(&s("run-1"), &send("run-2"), &readable, s("m1")).unwrap();
    assert_eq!(m.id, "m1");
    assert_eq!(m.sender, "run-1");
    assert_eq!(m.recipient, "run-2");
    assert_eq!(m.sequence, "1");
    assert_eq!(m.attempts, 0);
    assert_eq!(store.send_message_with(&s("run-1"), &send("run-3"), &readable, s("m2")).unwrap_err().code, DENIED);
    assert_eq!(store.send_message_with(&s("run-1"), &send("nobody"), &readable, s("m2")).unwrap_err().code, MISSING);
    assert_eq!(store.send_message_with(&s("run-1"), &send("run-2"), &readable, s("m1")).unwrap_err().code, INTERNAL);
    store.set_run_status(&s("run-1"), RunStatus::Finished).unwrap();
    assert_eq!(store.send_message_with(&s("run-1"), &send("run-2"), &readable, s("m2")).unwrap_err().code, DENIED);
    assert_eq!(store.messages.len(), 1);
}

#[test]
fn the_inbox_holds_at_most_its_capacity_of_readable_unacknowledged_messages() {
    let mut store = mailbox();
    let mut readable: Vec<String> = vec![];
    for k in 0..INBOX_CAPACITY {
        let id = format!("m{k}");
        readable.push(id.clone());
        store.send_message_with(&s("run-1"), &send("run-2"), &readable, id).unwrap();
    }
    assert_eq!(store.send_message_with(&s("run-1"), &send("run-2"), &readable, s("over")).unwrap_err().code, EXHAUSTED);
    store.acknowledge_message(&s("run-2"), &s("m0")).unwrap();
    assert!(store.send_message_with(&s("run-1"), &send("run-2"), &readable, s("fits")).is_ok());
    let unreadable: Vec<String> = vec![];
    assert!(store.send_message_with(&s("run-1"), &send("run-2"), &unreadable, s("hidden")).is_ok());
}

#[test]
fn each_message_is_delivered_at_most_three_times_and_never_after_acknowledgement() {
    let mut store = mailbox();
    let readable = vec![s("m1"), s("m2")];
    store.send_message_with(&s("run-1"), &send("run-2"), &readable, s("m1")).unwrap();
    store.send_message_with(&s("run-2"), &send("run-1"), &readable, s("m2")).unwrap();
    for attempt in 1..=DELIVERY_ATTEMPTS {
        let inbox = store.inbox(&s("run-2"), &readable).unwrap();
        assert_eq!(inbox.messages.len(), 1);
        assert_eq!(inbox.messages[0].id, "m1");
        assert_eq!(inbox.messages[0].attempts, attempt);
    }
    assert!(store.inbox(&s("run-2"), &readable).unwrap().messages.is_empty());
    assert_eq!(store.messages[0].attempts, DELIVERY_ATTEMPTS);
    assert_eq!(store.acknowledge_message(&s("run-2"), &s("m2")).unwrap_err().code, MISSING);
    store.acknowledge_message(&s("run-1"), &s("m2")).unwrap();
    store.acknowledge_message(&s("run-1"), &s("m2")).unwrap();
    assert!(store.inbox(&s("run-1"), &readable).unwrap().messages.is_empty());
    assert!(store.inbox(&s("run-1"), &vec![]).unwrap().messages.is_empty());
    assert_eq!(store.inbox(&s("nobody"), &readable).unwrap_err().code, MISSING);
}

#[test]
fn an_inbox_read_delivers_one_page_oldest_first() {
    let mut store = mailbox();
    let mut readable: Vec<String> = vec![];
    for k in 0..60 {
        let id = format!("m{k}");
        readable.push(id.clone());
        store.send_message_with(&s("run-1"), &send("run-2"), &readable, id).unwrap();
    }
    let first = store.inbox(&s("run-2"), &readable).unwrap();
    assert_eq!(first.messages.len(), INBOX_PAGE);
    assert_eq!(first.messages[0].id, "m0");
    assert_eq!(first.messages[0].sequence, "1");
    assert_eq!(first.messages[49].id, "m49");
    let second = store.inbox(&s("run-2"), &readable).unwrap();
    assert_eq!(second.messages[0].id, "m0");
    assert_eq!(second.messages[0].attempts, 2);
    assert_eq!(store.messages[55].attempts, 0);
}

#[test]
fn a_fresh_identifier_is_drawn_for_each_message() {
    let mut store = mailbox();
    let a = store.send_message(&s("run-1"), &send("run-2"), &vec![]).unwrap();
    let b = store.send_message(&s("run-1"), &send("run-2"), &vec![]).unwrap();
    assert_ne!(a.id, b.id);
    assert_eq!(b.sequence, "2");
}
