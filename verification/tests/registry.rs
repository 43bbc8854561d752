use ws_broadcast::registry::{Change, Connection, Registry};

fn id(text: &str) -> String {
    text.to_string()
}

fn scanned(registry: &Registry) -> Vec<String> {
    let mut ids: Vec<String> = registry.scan_all().into_iter().map(|c| c.id).collect();
    ids.sort();
    ids
}

#[test]
fn new_registry_is_empty() {
    let registry = Registry::new();
    assert!(registry.is_empty());
    assert_eq!(registry.len(), 0);
    assert!(registry.scan_all().is_empty());
    assert!(!registry.contains(&id("a")));
}

#[test]
fn add_twice_holds_once() {
    let mut registry = Registry::new();
    registry.add(&id("x"));
    registry.add(&id("x"));
    assert_eq!(registry.len(), 1);
    assert_eq!(scanned(&registry), vec![id("x")]);
    assert!(registry.contains(&id("x")));
}

#[test]
fn remove_twice_is_no_error() {
    let mut registry = Registry::new();
    registry.add(&id("x"));
    registry.add(&id("y"));
    registry.remove(&id("x"));
    registry.remove(&id("x"));
    assert!(!registry.contains(&id("x")));
    assert_eq!(scanned(&registry), vec![id("y")]);
}

#[test]
fn remove_of_an_absent_id_changes_nothing() {
    let mut registry = Registry::new();
    registry.remove(&id("ghost"));
    assert!(registry.is_empty());
    registry.add(&id("a"));
    registry.remove(&id("ghost"));
    assert_eq!(scanned(&registry), vec![id("a")]);
}

#[test]
fn set_semantics() {
    let mut registry = Registry::new();
    registry.add(&id("a"));
    registry.add(&id("b"));
    registry.remove(&id("a"));
    assert_eq!(scanned(&registry), vec![id("b")]);
    assert_eq!(registry.len(), 1);
    assert!(!registry.is_empty());
}

#[test]
fn scan_is_restartable() {
    let mut registry = Registry::new();
    registry.add(&id("a"));
    registry.add(&id("b"));
    registry.add(&id("c"));
    let first = scanned(&registry);
    let second = scanned(&registry);
    assert_eq!(first, second);
    assert_eq!(first, vec![id("a"), id("b"), id("c")]);
}

#[test]
fn an_id_can_come_back() {
    let mut registry = Registry::new();
    registry.add(&id("a"));
    registry.remove(&id("a"));
    registry.add(&id("a"));
    assert_eq!(scanned(&registry), vec![id("a")]);
}

#[test]
fn apply_carries_out_changes() {
    let mut registry = Registry::new();
    registry.apply(&Change::Add(Connection { id: id("a") }));
    registry.apply(&Change::Add(Connection { id: id("b") }));
    registry.apply(&Change::Add(Connection { id: id("a") }));
    assert_eq!(scanned(&registry), vec![id("a"), id("b")]);
    registry.apply(&Change::Remove(Connection { id: id("a") }));
    registry.apply(&Change::Remove(Connection { id: id("a") }));
    assert_eq!(scanned(&registry), vec![id("b")]);
}

#[test]
fn removals_in_any_order_leave_the_same() {
    let all = ["a", "b", "c", "d"];
    let orders: [[&str; 3]; 3] = [["a", "c", "a"], ["c", "a", "a"], ["a", "a", "c"]];
    for order in orders {
        let mut registry = Registry::new();
        for each in all {
            registry.add(&id(each));
        }
        for each in order {
            registry.remove(&id(each));
        }
        assert_eq!(scanned(&registry), vec![id("b"), id("d")]);
    }
}
