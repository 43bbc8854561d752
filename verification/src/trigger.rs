//! Telling triggers apart, and what each of them sets off.

use crate::connections::{change_for, connector};
use crate::dispatch::machine::action_views;
use crate::dispatch::model::{start, ActionView};
use crate::push::payload_of;
use crate::registry::Change;
use crate::response::{Response, BAD_REQUEST};
use crate::send::{deliver, endpoint_of, message_of, Broadcast};
use vstd::prelude::*;

verus! {

/// An inbound notification, by its shape.
pub enum Trigger {
    /// A connection opened or closed.
    Lifecycle(crate::connections::Event),
    /// A message is to be pushed to every connection.
    Broadcast(crate::send::Event),
    /// Anything else, a malformed payload included.
    Unrecognized,
}

/// What a trigger sets off.
pub enum Plan {
    /// Make this change to the registry, then answer as
    /// `connections::acknowledge` says.
    Store(Change),
    /// Drive this broadcast to its acknowledgement.
    Broadcast(Broadcast),
    /// Give this answer and do nothing else.
    Answer(Response),
}

/// Decides what an inbound notification sets off.
///
/// A notification of no known shape is no fault: it gets the answer of the
/// default handler, a client error, and touches neither the registry nor any
/// connection.
pub fn handle(trigger: Trigger, limit: usize) -> (plan: Plan)
    ensures
        match trigger {
            Trigger::Lifecycle(event) => plan matches Plan::Store(change) && change@ == change_for(
                event.request_context.event_type,
                event.request_context.connection_id@,
            ),
            Trigger::Broadcast(event) => plan matches Plan::Broadcast(begun) && begun.endpoint@
                == endpoint_of(event.request_context.domain_name@, event.request_context.stage@)
                && begun.dispatcher@ == start(
                payload_of(message_of(event.body)),
                limit as nat,
            ) && action_views(begun.actions@) == seq![ActionView::Fetch],
            Trigger::Unrecognized => plan matches Plan::Answer(response) && response.status_code
                == BAD_REQUEST,
        },
{
    match trigger {
        Trigger::Lifecycle(event) => Plan::Store(connector(event)),
        Trigger::Broadcast(event) => Plan::Broadcast(deliver(&event, limit)),
        Trigger::Unrecognized => Plan::Answer(crate::fallback::default()),
    }
}

} // verus!
