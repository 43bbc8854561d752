use ws_broadcast::connections::{
    acknowledge, Event as LifecycleEvent, EventType, RequestContext as LifecycleContext,
};
use ws_broadcast::dispatch::machine::Action;
use ws_broadcast::fallback;
use ws_broadcast::registry::{Change, Connection};
use ws_broadcast::response::{Response, BAD_REQUEST, OK};
use ws_broadcast::send::{Event as SendEvent, RequestContext as SendContext};
use ws_broadcast::trigger::{handle, Plan, Trigger};

#[test]
fn default_handler_answers_client_error() {
    assert_eq!(fallback::default(), Response { status_code: 400 });
    assert_eq!(BAD_REQUEST, 400);
    assert_eq!(OK, 200);
}

#[test]
fn malformed_trigger_routes_to_default_handling() {
    match handle(Trigger::Unrecognized, 8) {
        Plan::Answer(response) => assert_eq!(response, Response { status_code: 400 }),
        _ => panic!("an unrecognised trigger must only be answered"),
    }
}

#[test]
fn lifecycle_trigger_changes_the_registry_and_succeeds() {
    let connect = LifecycleEvent {
        request_context: LifecycleContext { event_type: EventType::Connect, connection_id: "c1".into() },
    };
    match handle(Trigger::Lifecycle(connect), 8) {
        Plan::Store(change) => {
            assert_eq!(change, Change::Add(Connection { id: "c1".into() }));
            assert_eq!(acknowledge(true), Response { status_code: 200 });
            assert_eq!(acknowledge(false), Response { status_code: 200 });
        },
        _ => panic!("a connect must change the registry"),
    }
    let disconnect = LifecycleEvent {
        request_context: LifecycleContext {
            event_type: EventType::Disconnect,
            connection_id: "c1".into(),
        },
    };
    match handle(Trigger::Lifecycle(disconnect), 8) {
        Plan::Store(change) => {
            assert_eq!(change, Change::Remove(Connection { id: "c1".into() }));
        },
        _ => panic!("a disconnect must change the registry"),
    }
}

#[test]
fn broadcast_trigger_with_malformed_body_uses_the_default_payload() {
    let event = SendEvent {
        request_context: SendContext { domain_name: "d.example".into(), stage: "prod".into() },
        body: None,
    };
    match handle(Trigger::Broadcast(event), 2) {
        Plan::Broadcast(begun) => {
            assert_eq!(begun.endpoint, "https://d.example/prod");
            assert_eq!(begun.actions, vec![Action::Fetch]);
            assert_eq!(begun.dispatcher.limit(), 2);
        },
        _ => panic!("a broadcast request must begin a broadcast"),
    }
}
