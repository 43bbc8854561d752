use std::collections::VecDeque;
use ws_broadcast::dispatch::machine::{Action, Dispatcher, Error, Event, Report};
use ws_broadcast::push::{payload, DeliveryOutcome, Reply};
use ws_broadcast::registry::{Connection, Registry};
use ws_broadcast::response::Response;

fn id(text: &str) -> String {
    text.to_string()
}

fn connections(ids: &[&str]) -> Vec<Connection> {
    ids.iter().map(|each| Connection { id: each.to_string() }).collect()
}

fn registry_of(ids: &[&str]) -> Registry {
    let mut registry = Registry::new();
    for each in ids {
        registry.add(&each.to_string());
    }
    registry
}

fn scanned(registry: &Registry) -> Vec<String> {
    let mut ids: Vec<String> = registry.scan_all().into_iter().map(|c| c.id).collect();
    ids.sort();
    ids
}

/// What a broadcast did, as seen by its driver.
struct Trace {
    attempts: Vec<String>,
    removals: Vec<String>,
    fetches: usize,
    answers: Vec<Response>,
    most_at_once: usize,
    report: Report,
    finished: bool,
}

/// Drives one broadcast to its end against a registry and a table of
/// outcomes. Each page is `Ok` with its connections or `Err` for a failed
/// read; when the pages run out the scan has ended. Actions are carried out
/// in the order in which they were asked for.
fn drive(
    registry: &mut Registry,
    pages: Vec<Result<Vec<Connection>, Error>>,
    outcome: &dyn Fn(&str) -> DeliveryOutcome,
    removal_works: bool,
    limit: usize,
) -> Trace {
    let mut pages: VecDeque<Result<Vec<Connection>, Error>> = pages.into();
    let (mut dispatcher, first) = Dispatcher::start(payload("hello"), limit);
    let mut todo: VecDeque<Action> = first.into();
    let mut trace = Trace {
        attempts: Vec::new(),
        removals: Vec::new(),
        fetches: 0,
        answers: Vec::new(),
        most_at_once: 0,
        report: dispatcher.report(),
        finished: false,
    };
    while let Some(action) = todo.pop_front() {
        trace.most_at_once = trace.most_at_once.max(dispatcher.outstanding());
        let event = match action {
            Action::Fetch => {
                trace.fetches += 1;
                match pages.pop_front() {
                    Some(Ok(page)) => Event::Page(page),
                    Some(Err(error)) => Event::ScanFailed(error),
                    None => Event::ScanEnded,
                }
            },
            Action::Send { connection_id, data } => {
                assert_eq!(data, b"{\"message\":\"hello\"}".to_vec());
                trace.attempts.push(connection_id.clone());
                let answer = outcome(&connection_id);
                Event::Attempted(connection_id, answer)
            },
            Action::Remove { connection_id } => {
                trace.removals.push(connection_id.clone());
                if removal_works {
                    registry.remove(&connection_id);
                }
                Event::Removed(connection_id, removal_works)
            },
            Action::Acknowledge(response) => {
                trace.answers.push(response);
                continue;
            },
        };
        todo.extend(dispatcher.step(event));
        assert!(dispatcher.outstanding() <= dispatcher.limit());
    }
    trace.report = dispatcher.report();
    trace.finished = dispatcher.is_finished();
    trace
}

fn gone_if_a(connection_id: &str) -> DeliveryOutcome {
    if connection_id == "a" {
        DeliveryOutcome::Gone
    } else {
        DeliveryOutcome::Delivered
    }
}

fn delivered(_: &str) -> DeliveryOutcome {
    DeliveryOutcome::Delivered
}

fn transient(_: &str) -> DeliveryOutcome {
    DeliveryOutcome::TransientFailure(Reply::Status(500))
}

#[test]
fn gone_triggers_eviction() {
    let mut registry = registry_of(&["a", "b"]);
    let page = registry.scan_all();
    let trace = drive(&mut registry, vec![Ok(page)], &gone_if_a, true, 8);
    assert_eq!(scanned(&registry), vec![id("b")]);
    assert_eq!(trace.attempts.len(), 2);
    assert_eq!(trace.removals, vec![id("a")]);
    assert_eq!(trace.answers, vec![Response { status_code: 200 }]);
    assert!(trace.finished);
    assert_eq!(
        trace.report,
        Report { attempts: 2, delivered: 1, failed: 0, evicted: 1, stranded: 0, scan_failed: false }
    );
}

#[test]
fn transient_failures_never_evict() {
    let mut registry = registry_of(&["a"]);
    let page = registry.scan_all();
    let trace = drive(&mut registry, vec![Ok(page)], &transient, true, 8);
    assert_eq!(scanned(&registry), vec![id("a")]);
    assert_eq!(trace.attempts, vec![id("a")]);
    assert!(trace.removals.is_empty());
    assert_eq!(trace.answers, vec![Response { status_code: 200 }]);
    assert_eq!(
        trace.report,
        Report { attempts: 1, delivered: 0, failed: 1, evicted: 0, stranded: 0, scan_failed: false }
    );
}

#[test]
fn timeouts_never_evict() {
    let mut registry = registry_of(&["a", "b"]);
    let page = registry.scan_all();
    let timed_out = |_: &str| DeliveryOutcome::TransientFailure(Reply::TimedOut);
    let trace = drive(&mut registry, vec![Ok(page)], &timed_out, true, 8);
    assert_eq!(scanned(&registry), vec![id("a"), id("b")]);
    assert!(trace.removals.is_empty());
    assert_eq!(trace.report.failed, 2);
}

#[test]
fn empty_broadcast() {
    let mut registry = Registry::new();
    let page = registry.scan_all();
    let trace = drive(&mut registry, vec![Ok(page)], &delivered, true, 8);
    assert!(trace.attempts.is_empty());
    assert!(trace.removals.is_empty());
    assert!(registry.is_empty());
    assert!(trace.finished);
    assert_eq!(trace.answers, vec![Response { status_code: 200 }]);
    assert_eq!(
        trace.report,
        Report { attempts: 0, delivered: 0, failed: 0, evicted: 0, stranded: 0, scan_failed: false }
    );
}

#[test]
fn empty_broadcast_without_any_page() {
    let mut registry = Registry::new();
    let trace = drive(&mut registry, vec![], &delivered, true, 8);
    assert!(trace.attempts.is_empty());
    assert_eq!(trace.fetches, 1);
    assert_eq!(trace.answers, vec![Response { status_code: 200 }]);
}

#[test]
fn partial_scan_resilience() {
    let mut registry = registry_of(&["a", "b"]);
    let pages = vec![Ok(connections(&["a"])), Err(Error::Scan("throttled".into()))];
    let trace = drive(&mut registry, pages, &gone_if_a, true, 8);
    assert_eq!(trace.attempts, vec![id("a")]);
    assert_eq!(trace.removals, vec![id("a")]);
    assert_eq!(scanned(&registry), vec![id("b")]);
    assert_eq!(trace.answers, vec![Response { status_code: 200 }]);
    assert_eq!(
        trace.report,
        Report { attempts: 1, delivered: 0, failed: 0, evicted: 1, stranded: 0, scan_failed: true }
    );
}

#[test]
fn scan_failure_leaves_attempts_in_flight_to_complete() {
    let (mut dispatcher, first) = Dispatcher::start(payload("hello"), 4);
    assert_eq!(first, vec![Action::Fetch]);
    let asked = dispatcher.step(Event::Page(connections(&["a"])));
    assert_eq!(
        asked,
        vec![
            Action::Send { connection_id: id("a"), data: b"{\"message\":\"hello\"}".to_vec() },
            Action::Fetch
        ]
    );
    let asked = dispatcher.step(Event::ScanFailed(Error::Scan("unavailable".into())));
    assert!(asked.is_empty());
    assert!(!dispatcher.is_finished());
    let asked = dispatcher.step(Event::Attempted(id("a"), DeliveryOutcome::Gone));
    assert_eq!(asked, vec![Action::Remove { connection_id: id("a") }]);
    assert!(!dispatcher.is_finished());
    let asked = dispatcher.step(Event::Removed(id("a"), true));
    assert_eq!(asked, vec![Action::Acknowledge(Response { status_code: 200 })]);
    assert!(dispatcher.is_finished());
    assert!(dispatcher.report().scan_failed);
}

#[test]
fn malformed_item_stops_the_scan_like_a_failed_read() {
    let mut registry = registry_of(&["a", "b"]);
    let pages = vec![Ok(connections(&["b"])), Err(Error::Deserialize("no id".into()))];
    let trace = drive(&mut registry, pages, &delivered, true, 8);
    assert_eq!(trace.attempts, vec![id("b")]);
    assert!(trace.report.scan_failed);
    assert_eq!(trace.answers, vec![Response { status_code: 200 }]);
}

#[test]
fn failed_removal_is_not_escalated() {
    let mut registry = registry_of(&["a", "b"]);
    let page = registry.scan_all();
    let trace = drive(&mut registry, vec![Ok(page)], &gone_if_a, false, 8);
    assert_eq!(scanned(&registry), vec![id("a"), id("b")]);
    assert_eq!(trace.removals, vec![id("a")]);
    assert_eq!(trace.answers, vec![Response { status_code: 200 }]);
    assert_eq!(
        trace.report,
        Report { attempts: 2, delivered: 1, failed: 0, evicted: 0, stranded: 1, scan_failed: false }
    );
}

#[test]
fn concurrent_broadcasts() {
    let mut registry = registry_of(&["a", "b"]);
    let (mut one, _) = Dispatcher::start(payload("one"), 8);
    let (mut two, _) = Dispatcher::start(payload("two"), 8);
    let first_of_one = one.step(Event::Page(registry.scan_all()));
    let first_of_two = two.step(Event::Page(registry.scan_all()));
    assert_eq!(first_of_one.len(), 3);
    assert_eq!(first_of_two.len(), 3);
    assert_eq!(one.report().attempts, 2);
    assert_eq!(two.report().attempts, 2);

    let from_one = one.step(Event::Attempted(id("a"), DeliveryOutcome::Gone));
    let from_two = two.step(Event::Attempted(id("a"), DeliveryOutcome::Gone));
    assert_eq!(from_one, vec![Action::Remove { connection_id: id("a") }]);
    assert_eq!(from_two, vec![Action::Remove { connection_id: id("a") }]);
    registry.remove(&id("a"));
    registry.remove(&id("a"));
    assert_eq!(scanned(&registry), vec![id("b")]);

    assert!(two.step(Event::Removed(id("a"), true)).is_empty());
    assert!(one.step(Event::Removed(id("a"), true)).is_empty());
    assert!(one.step(Event::Attempted(id("b"), DeliveryOutcome::Delivered)).is_empty());
    assert!(two.step(Event::Attempted(id("b"), DeliveryOutcome::Delivered)).is_empty());
    let last_of_two = two.step(Event::ScanEnded);
    let last_of_one = one.step(Event::ScanEnded);
    assert_eq!(last_of_one, vec![Action::Acknowledge(Response { status_code: 200 })]);
    assert_eq!(last_of_two, vec![Action::Acknowledge(Response { status_code: 200 })]);
    assert_eq!(scanned(&registry), vec![id("b")]);
    assert_eq!(registry.len(), 1);
    assert_eq!(one.report(), two.report());
    assert_eq!(one.report().evicted, 1);
}

#[test]
fn a_connection_that_joins_during_a_broadcast_is_not_lost() {
    let mut registry = registry_of(&["a"]);
    let (mut dispatcher, _) = Dispatcher::start(payload("x"), 8);
    dispatcher.step(Event::Page(registry.scan_all()));
    registry.add(&id("late"));
    dispatcher.step(Event::Attempted(id("a"), DeliveryOutcome::Gone));
    registry.remove(&id("a"));
    dispatcher.step(Event::Removed(id("a"), true));
    dispatcher.step(Event::ScanEnded);
    assert!(dispatcher.is_finished());
    assert_eq!(scanned(&registry), vec![id("late")]);
}

#[test]
fn concurrency_is_bounded() {
    let mut registry = registry_of(&["a", "b", "c", "d", "e"]);
    let (mut dispatcher, _) = Dispatcher::start(payload("x"), 2);
    let asked = dispatcher.step(Event::Page(connections(&["a", "b", "c", "d", "e"])));
    assert_eq!(
        asked,
        vec![
            Action::Send { connection_id: id("a"), data: payload("x") },
            Action::Send { connection_id: id("b"), data: payload("x") },
        ]
    );
    assert_eq!(dispatcher.outstanding(), 2);
    let asked = dispatcher.step(Event::Attempted(id("b"), DeliveryOutcome::Delivered));
    assert_eq!(asked, vec![Action::Send { connection_id: id("c"), data: payload("x") }]);
    let asked = dispatcher.step(Event::Attempted(id("a"), DeliveryOutcome::Gone));
    assert_eq!(asked, vec![Action::Remove { connection_id: id("a") }]);
    assert_eq!(dispatcher.outstanding(), 2);
    let asked = dispatcher.step(Event::Removed(id("a"), true));
    assert_eq!(asked, vec![Action::Send { connection_id: id("d"), data: payload("x") }]);
    let asked = dispatcher.step(Event::Attempted(id("c"), DeliveryOutcome::Delivered));
    assert_eq!(
        asked,
        vec![Action::Send { connection_id: id("e"), data: payload("x") }, Action::Fetch]
    );
    let trace = drive(&mut registry, vec![Ok(connections(&["a", "b", "c", "d", "e"]))], &delivered, true, 2);
    assert_eq!(trace.attempts.len(), 5);
    assert!(trace.most_at_once <= 2);
    assert_eq!(trace.fetches, 2);
}

#[test]
fn one_slot_works_through_the_page_in_order() {
    let mut registry = registry_of(&["a", "b", "c"]);
    let pages = vec![Ok(connections(&["c", "a", "b"]))];
    let trace = drive(&mut registry, pages, &gone_if_a, true, 1);
    assert_eq!(trace.attempts, vec![id("c"), id("a"), id("b")]);
    assert_eq!(trace.most_at_once, 1);
    assert_eq!(scanned(&registry), vec![id("b"), id("c")]);
}

#[test]
fn at_most_one_attempt_per_connection() {
    let mut registry = registry_of(&["a", "b"]);
    let pages = vec![
        Ok(connections(&["a", "a", "b"])),
        Ok(connections(&["b", "a"])),
        Ok(connections(&[])),
        Ok(connections(&["c"])),
    ];
    let trace = drive(&mut registry, pages, &delivered, true, 8);
    assert_eq!(trace.attempts, vec![id("a"), id("b"), id("c")]);
    assert_eq!(trace.fetches, 5);
    assert_eq!(trace.report.attempts, 3);
    assert_eq!(trace.report.delivered, 3);
}

#[test]
fn events_that_answer_nothing_are_ignored() {
    let (mut dispatcher, _) = Dispatcher::start(payload("x"), 2);
    assert!(dispatcher.step(Event::Attempted(id("nobody"), DeliveryOutcome::Gone)).is_empty());
    assert!(dispatcher.step(Event::Removed(id("nobody"), true)).is_empty());
    assert_eq!(dispatcher.report().attempts, 0);
    dispatcher.step(Event::Page(connections(&["a", "b", "c"])));
    assert!(dispatcher.step(Event::Page(connections(&["z"]))).is_empty());
    assert!(dispatcher.step(Event::ScanEnded).is_empty());
    assert!(dispatcher.step(Event::ScanFailed(Error::Scan("late".into()))).is_empty());
    assert!(dispatcher.step(Event::Attempted(id("c"), DeliveryOutcome::Delivered)).is_empty());
    assert!(dispatcher.step(Event::Attempted(id("z"), DeliveryOutcome::Delivered)).is_empty());
    assert_eq!(dispatcher.report().attempts, 2);
    assert!(!dispatcher.report().scan_failed);
}

#[test]
fn nothing_is_asked_after_the_acknowledgement() {
    let (mut dispatcher, _) = Dispatcher::start(payload("x"), 2);
    assert_eq!(
        dispatcher.step(Event::ScanEnded),
        vec![Action::Acknowledge(Response { status_code: 200 })]
    );
    assert!(dispatcher.is_finished());
    assert!(dispatcher.step(Event::Page(connections(&["a"]))).is_empty());
    assert!(dispatcher.step(Event::ScanEnded).is_empty());
    assert!(dispatcher.step(Event::Attempted(id("a"), DeliveryOutcome::Gone)).is_empty());
    assert_eq!(dispatcher.report().attempts, 0);
}

#[test]
fn tallies_add_up() {
    let mut registry = registry_of(&["a", "b", "c", "d"]);
    let mixed = |connection_id: &str| match connection_id {
        "a" => DeliveryOutcome::Gone,
        "b" => DeliveryOutcome::TransientFailure(Reply::Failed("reset".into())),
        _ => DeliveryOutcome::Delivered,
    };
    let page = registry.scan_all();
    let trace = drive(&mut registry, vec![Ok(page)], &mixed, true, 3);
    let report = trace.report;
    assert_eq!(report.attempts, 4);
    assert_eq!(report.delivered + report.failed + report.evicted + report.stranded, report.attempts);
    assert_eq!(report.delivered, 2);
    assert_eq!(report.failed, 1);
    assert_eq!(report.evicted, 1);
    assert_eq!(scanned(&registry), vec![id("b"), id("c"), id("d")]);
}
