//! The lifecycle hooks: a connection is tracked when it opens and dropped
//! when it closes.

use crate::registry::{Change, ChangeView, Connection};
use crate::response::{Response, OK};
use vstd::prelude::*;

verus! {

/// Which end of a connection's life a notification reports.
#[derive(Clone, Copy, Debug, PartialEq, Eq, Structural)]
pub enum EventType {
    Connect,
    Disconnect,
}

/// What a lifecycle notification says: what happened, and to whom.
#[derive(Clone, Debug, PartialEq, Eq)]
pub struct RequestContext {
    pub event_type: EventType,
    pub connection_id: String,
}

/// A lifecycle notification.
#[derive(Clone, Debug, PartialEq, Eq)]
pub struct Event {
    pub request_context: RequestContext,
}

/// The change of the registry that a notification calls for.
pub open spec fn change_for(event_type: EventType, connection_id: Seq<char>) -> ChangeView {
    match event_type {
        EventType::Connect => ChangeView::Add(connection_id),
        EventType::Disconnect => ChangeView::Remove(connection_id),
    }
}

/// Decides what a lifecycle notification does to the registry: a connect
/// adds the connection, a disconnect removes it.
pub fn connector(event: Event) -> (change: Change)
    ensures
        change@ == change_for(event.request_context.event_type, event.request_context.connection_id@),
{
    let connection = Connection { id: event.request_context.connection_id };
    match event.request_context.event_type {
        EventType::Connect => Change::Add(connection),
        EventType::Disconnect => Change::Remove(connection),
    }
}

/// Answers a lifecycle notification once its change has been tried. The
/// answer is success whether or not the store took the change: the caller is
/// owed a fast acknowledgement, and a failed change is for the log.
pub fn acknowledge(stored: bool) -> (response: Response)
    ensures
        response.status_code == OK,
{
    Response { status_code: OK }
}

} // verus!
