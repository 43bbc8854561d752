//! Unicast delivery: what is sent to a connection, and what the gateway's
//! answer means for it.

use crate::json::{json_object, to_json_object};
use vstd::prelude::*;

verus! {

/// The status by which the gateway says that a connection no longer exists.
pub const GONE: u16 = 410;

/// What came back from one delivery attempt.
#[derive(Clone, Debug, PartialEq, Eq)]
pub enum Reply {
    /// The gateway answered with this status.
    Status(u16),
    /// No answer came within the time allowed.
    TimedOut,
    /// The call failed before any status was received.
    Failed(String),
}

/// A reply, with its detail as text.
pub enum ReplyView {
    Status(u16),
    TimedOut,
    Failed(Seq<char>),
}

impl View for Reply {
    type V = ReplyView;

    open spec fn view(&self) -> ReplyView {
        match self {
            Reply::Status(status) => ReplyView::Status(*status),
            Reply::TimedOut => ReplyView::TimedOut,
            Reply::Failed(detail) => ReplyView::Failed(detail@),
        }
    }
}

/// What a delivery attempt established about its recipient.
#[derive(Clone, Debug, PartialEq, Eq)]
pub enum DeliveryOutcome {
    /// The gateway accepted the payload for the connection.
    Delivered,
    /// The gateway has no such connection any more.
    Gone,
    /// The attempt failed in a way that says nothing about the connection.
    TransientFailure(Reply),
}

/// An outcome, with its detail as text.
pub enum OutcomeView {
    Delivered,
    Gone,
    TransientFailure(ReplyView),
}

impl View for DeliveryOutcome {
    type V = OutcomeView;

    open spec fn view(&self) -> OutcomeView {
        match self {
            DeliveryOutcome::Delivered => OutcomeView::Delivered,
            DeliveryOutcome::Gone => OutcomeView::Gone,
            DeliveryOutcome::TransientFailure(reply) => OutcomeView::TransientFailure(reply@),
        }
    }
}

/// How a reply is read: a success status delivers, the gone status alone
/// tells that the recipient is gone, and everything else is transient. A
/// reply that never came is no proof that nobody is there.
pub open spec fn classified(reply: ReplyView) -> OutcomeView {
    match reply {
        ReplyView::Status(status) => if 200 <= status < 300 {
            OutcomeView::Delivered
        } else if status == GONE {
            OutcomeView::Gone
        } else {
            OutcomeView::TransientFailure(reply)
        },
        _ => OutcomeView::TransientFailure(reply),
    }
}

/// Classifies the reply to one delivery attempt.
pub fn classify(reply: Reply) -> (outcome: DeliveryOutcome)
    ensures
        outcome@ == classified(reply@),
{
    match reply {
        Reply::Status(status) => if 200 <= status && status < 300 {
            DeliveryOutcome::Delivered
        } else if status == GONE {
            DeliveryOutcome::Gone
        } else {
            DeliveryOutcome::TransientFailure(Reply::Status(status))
        },
        Reply::TimedOut => DeliveryOutcome::TransientFailure(Reply::TimedOut),
        Reply::Failed(detail) => DeliveryOutcome::TransientFailure(Reply::Failed(detail)),
    }
}

/// Only the gone status evicts: no other reply is ever read as `Gone`.
pub proof fn lemma_gone_only_by_status(reply: ReplyView)
    ensures
        classified(reply) is Gone <==> reply == ReplyView::Status(GONE),
{
}

/// The body that is pushed for a message: the JSON object with the one
/// member `message`.
pub open spec fn payload_of(message: Seq<char>) -> Seq<u8> {
    json_object("message"@, message)
}

/// Encodes a message as the body of a push.
pub fn payload(message: &str) -> (data: Vec<u8>)
    ensures
        data@ == payload_of(message@),
{
    to_json_object("message", message)
}

} // verus!
