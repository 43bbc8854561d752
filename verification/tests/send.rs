use ws_broadcast::dispatch::machine::Action;
use ws_broadcast::send::{deliver, endpoint, Event, Message, RequestContext, DEFAULT_MESSAGE};

fn context() -> RequestContext {
    RequestContext {
        domain_name: "xxx.execute-api.us-east-1.amazonaws.com".into(),
        stage: "dev".into(),
    }
}

#[test]
fn formats_endpoint() {
    assert_eq!(
        endpoint(&RequestContext {
            domain_name: "xxx.execute-api.us-east-1.amazonaws.com".into(),
            stage: "dev".into()
        }),
        "https://xxx.execute-api.us-east-1.amazonaws.com/dev"
    )
}

#[test]
fn endpoint_keeps_empty_parts() {
    assert_eq!(
        endpoint(&RequestContext { domain_name: "".into(), stage: "".into() }),
        "https:///"
    );
    assert_eq!(
        endpoint(&RequestContext { domain_name: "example.org".into(), stage: "".into() }),
        "https://example.org/"
    );
}

#[test]
fn message_is_taken_from_the_body() {
    let event = Event {
        request_context: context(),
        body: Some(Message { message: Some("howdy".into()) }),
    };
    assert_eq!(event.message(), "howdy");
}

#[test]
fn message_defaults_when_the_body_names_none() {
    let event = Event { request_context: context(), body: Some(Message { message: None }) };
    assert_eq!(event.message(), DEFAULT_MESSAGE);
    assert_eq!(DEFAULT_MESSAGE, "🏓 pong");
}

#[test]
fn message_defaults_when_the_body_is_malformed() {
    let event = Event { request_context: context(), body: None };
    assert_eq!(event.message(), "🏓 pong");
}

#[test]
fn deliver_begins_with_the_first_page() {
    let event = Event {
        request_context: context(),
        body: Some(Message { message: Some("howdy".into()) }),
    };
    let begun = deliver(&event, 4);
    assert_eq!(begun.endpoint, "https://xxx.execute-api.us-east-1.amazonaws.com/dev");
    assert_eq!(begun.actions, vec![Action::Fetch]);
    assert_eq!(begun.dispatcher.limit(), 4);
    assert!(!begun.dispatcher.is_finished());
    assert_eq!(begun.dispatcher.report().attempts, 0);
}

#[test]
fn deliver_grants_one_slot_at_least() {
    let event = Event { request_context: context(), body: None };
    let begun = deliver(&event, 0);
    assert_eq!(begun.dispatcher.limit(), 1);
}
