//! The broadcast trigger: where to push, what to push, and the broadcast
//! that it begins.

use crate::dispatch::machine::{action_views, Action, Dispatcher};
use crate::dispatch::model::{start, ActionView};
use crate::push::{payload, payload_of};
use vstd::prelude::*;
use vstd::string::StringExecFns;

verus! {

/// The message that is pushed when a request names none.
pub const DEFAULT_MESSAGE: &'static str = "🏓 pong";

/// The body of a broadcast request, read as `{ message?: string }`.
#[derive(Clone, Debug, PartialEq, Eq)]
pub struct Message {
    pub message: Option<String>,
}

/// Routing metadata of a broadcast request.
#[derive(Clone, Debug, PartialEq, Eq)]
pub struct RequestContext {
    pub domain_name: String,
    pub stage: String,
}

/// A broadcast request. `body` is `None` where the request's body was not of
/// the expected shape.
#[derive(Clone, Debug, PartialEq, Eq)]
pub struct Event {
    pub request_context: RequestContext,
    pub body: Option<Message>,
}

/// A broadcast that has just begun: where its pushes go, its dispatcher, and
/// what the dispatcher asks for first.
pub struct Broadcast {
    pub endpoint: String,
    pub dispatcher: Dispatcher,
    pub actions: Vec<Action>,
}

/// The address of the push service for a request: `https://<domain>/<stage>`.
pub open spec fn endpoint_of(domain_name: Seq<char>, stage: Seq<char>) -> Seq<char> {
    "https://"@ + domain_name + "/"@ + stage
}

/// The message of a request: the one its body names, or the default where
/// the body was malformed or names none.
pub open spec fn message_of(body: Option<Message>) -> Seq<char> {
    match body {
        Some(Message { message: Some(text) }) => text@,
        _ => DEFAULT_MESSAGE@,
    }
}

/// Computes the delivery endpoint that a request's routing metadata names.
pub fn endpoint(ctx: &RequestContext) -> (target: String)
    ensures
        target@ == endpoint_of(ctx.domain_name@, ctx.stage@),
{
    let mut target = String::from_str("https://");
    target.append(ctx.domain_name.as_str());
    target.append("/");
    target.append(ctx.stage.as_str());
    target
}

impl Event {
    /// The message to push for this request.
    pub fn message(&self) -> (text: String)
        ensures
            text@ == message_of(self.body),
    {
        match &self.body {
            Some(Message { message: Some(text) }) => text.clone(),
            _ => String::from_str(DEFAULT_MESSAGE),
        }
    }
}

/// Begins the broadcast that a request asks for, with at most `limit`
/// connections worked on at once.
///
/// The pushes go to the endpoint of the request. Their body is the JSON
/// object that holds the request's message. The first thing asked for is the
/// first page of the registry.
pub fn deliver(event: &Event, limit: usize) -> (begun: Broadcast)
    ensures
        begun.endpoint@ == endpoint_of(event.request_context.domain_name@, event.request_context.stage@),
        begun.dispatcher@ == start(payload_of(message_of(event.body)), limit as nat),
        action_views(begun.actions@) == seq![ActionView::Fetch],
{
    let text = event.message();
    let data = payload(text.as_str());
    let (dispatcher, actions) = Dispatcher::start(data, limit);
    Broadcast { endpoint: endpoint(&event.request_context), dispatcher, actions }
}

} // verus!
