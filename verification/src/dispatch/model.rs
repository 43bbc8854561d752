//! The dispatcher as a transition system over plain values.

use crate::push::OutcomeView;
use crate::response::OK;
use vstd::prelude::*;

verus! {

/// Where the scan of the registry stands.
#[derive(Clone, Copy, Debug, PartialEq, Eq, Structural)]
pub enum Scan {
    /// A page was asked for and has not come yet.
    Fetching,
    /// More pages may follow, but identifiers of the last one still wait.
    Paused,
    /// The scan reached its end.
    Ended,
    /// A page could not be read. Nothing more is asked of the store.
    Failed,
}

/// The state of one broadcast.
pub struct DispatcherView {
    /// The body pushed to every recipient.
    pub payload: Seq<u8>,
    /// How many connections may be worked on at once.
    pub limit: nat,
    pub scan: Scan,
    /// Yielded by the scan, no attempt started yet.
    pub waiting: Seq<Seq<char>>,
    /// Attempt started, answer outstanding.
    pub in_flight: Seq<Seq<char>>,
    /// Reported gone, removal outstanding.
    pub evicting: Seq<Seq<char>>,
    /// Every identifier that an attempt was started for, in that order.
    pub attempted: Seq<Seq<char>>,
    /// Attempts that were delivered.
    pub delivered: nat,
    /// Attempts that failed without saying anything about the recipient.
    pub failed: nat,
    /// Gone connections whose removal went through.
    pub evicted: nat,
    /// Gone connections whose removal failed.
    pub stranded: nat,
    /// Whether the trigger has been answered.
    pub acknowledged: bool,
}

/// What the driver reports to the dispatcher.
pub enum EventView {
    /// The page that was asked for, with the identifiers it holds.
    Page(Seq<Seq<char>>),
    /// The page that was asked for does not exist: the scan is over.
    ScanEnded,
    /// The page that was asked for could not be read.
    ScanFailed,
    /// The answer to the attempt for an identifier.
    Attempted(Seq<char>, OutcomeView),
    /// The end of the removal of an identifier, and whether it went through.
    Removed(Seq<char>, bool),
}

/// What the dispatcher asks the driver to do.
pub enum ActionView {
    /// Read the next page of the scan.
    Fetch,
    /// Push these bytes to this connection.
    Send(Seq<char>, Seq<u8>),
    /// Remove this identifier from the store.
    Remove(Seq<char>),
    /// Answer the trigger with this status.
    Acknowledge(u16),
}

/// Connections that hold one of the worker slots.
pub open spec fn busy(s: DispatcherView) -> nat {
    s.in_flight.len() + s.evicting.len()
}

/// Whether the scan is over, one way or the other.
pub open spec fn scan_over(s: DispatcherView) -> bool {
    s.scan == Scan::Ended || s.scan == Scan::Failed
}

/// Whether nothing is left to wait for.
pub open spec fn drained(s: DispatcherView) -> bool {
    scan_over(s) && s.waiting.len() == 0 && busy(s) == 0
}

/// The state of a broadcast that has asked for its first page. A limit of
/// zero would never let an attempt start, so at least one slot is granted.
pub open spec fn start(payload: Seq<u8>, limit: nat) -> DispatcherView {
    DispatcherView {
        payload,
        limit: if limit == 0 { 1 } else { limit },
        scan: Scan::Fetching,
        waiting: Seq::empty(),
        in_flight: Seq::empty(),
        evicting: Seq::empty(),
        attempted: Seq::empty(),
        delivered: 0,
        failed: 0,
        evicted: 0,
        stranded: 0,
        acknowledged: false,
    }
}

/// The waiting list after a page: each identifier of the page joins it, in
/// page order, unless it waits already or was attempted before.
pub open spec fn enqueue(waiting: Seq<Seq<char>>, attempted: Seq<Seq<char>>, page: Seq<Seq<char>>) -> Seq<
    Seq<char>,
>
    decreases page.len(),
{
    if page.len() == 0 {
        waiting
    } else {
        let before = enqueue(waiting, attempted, page.drop_last());
        if before.contains(page.last()) || attempted.contains(page.last()) {
            before
        } else {
            before.push(page.last())
        }
    }
}

/// A list without one of its entries.
pub open spec fn without(list: Seq<Seq<char>>, id: Seq<char>) -> Seq<Seq<char>> {
    list.remove(list.index_of(id))
}

/// One push of the payload for each identifier of a batch, in order.
pub open spec fn sends(batch: Seq<Seq<char>>, payload: Seq<u8>) -> Seq<ActionView> {
    Seq::new(batch.len(), |i: int| ActionView::Send(batch[i], payload))
}

/// How many waiting identifiers can start now.
pub open spec fn starting(s: DispatcherView) -> nat {
    if busy(s) >= s.limit {
        0
    } else if s.waiting.len() <= s.limit - busy(s) {
        s.waiting.len()
    } else {
        (s.limit - busy(s)) as nat
    }
}

/// Fills the free slots from the waiting list, then asks for the next page
/// if nobody waits, or answers the trigger if nothing is left at all.
pub open spec fn settle(s: DispatcherView, actions: Seq<ActionView>) -> (DispatcherView, Seq<ActionView>) {
    let batch = s.waiting.take(starting(s) as int);
    let filled = DispatcherView {
        waiting: s.waiting.skip(starting(s) as int),
        in_flight: s.in_flight + batch,
        attempted: s.attempted + batch,
        ..s
    };
    let pushed = actions + sends(batch, s.payload);
    if filled.scan == Scan::Paused && filled.waiting.len() == 0 {
        (DispatcherView { scan: Scan::Fetching, ..filled }, pushed.push(ActionView::Fetch))
    } else if drained(filled) {
        (DispatcherView { acknowledged: true, ..filled }, pushed.push(ActionView::Acknowledge(OK)))
    } else {
        (filled, pushed)
    }
}

/// Whether an event answers something that is outstanding: the page that
/// was asked for, an attempt in flight, a removal under way.
pub open spec fn answers(s: DispatcherView, event: EventView) -> bool {
    !s.acknowledged && match event {
        EventView::Page(_) => s.scan == Scan::Fetching,
        EventView::ScanEnded => s.scan == Scan::Fetching,
        EventView::ScanFailed => s.scan == Scan::Fetching,
        EventView::Attempted(id, _) => s.in_flight.contains(id),
        EventView::Removed(id, _) => s.evicting.contains(id),
    }
}

/// The state once an event has been taken in, before the slots are filled
/// again.
///
/// A page joins the waiting list. The end of the scan, either way, is noted.
/// An answered attempt leaves its slot if it was delivered or failed in
/// passing, and keeps it for the removal if the connection is gone. A
/// finished removal leaves its slot whether it went through or not.
pub open spec fn told(s: DispatcherView, event: EventView) -> DispatcherView {
    match event {
        EventView::Page(page) => DispatcherView {
            scan: Scan::Paused,
            waiting: enqueue(s.waiting, s.attempted, page),
            ..s
        },
        EventView::ScanEnded => DispatcherView { scan: Scan::Ended, ..s },
        EventView::ScanFailed => DispatcherView { scan: Scan::Failed, ..s },
        EventView::Attempted(id, outcome) => {
            let rest = without(s.in_flight, id);
            match outcome {
                OutcomeView::Delivered => DispatcherView { in_flight: rest, delivered: s.delivered + 1, ..s },
                OutcomeView::Gone => DispatcherView { in_flight: rest, evicting: s.evicting.push(id), ..s },
                OutcomeView::TransientFailure(_) => DispatcherView {
                    in_flight: rest,
                    failed: s.failed + 1,
                    ..s
                },
            }
        },
        EventView::Removed(id, done) => {
            let rest = without(s.evicting, id);
            if done {
                DispatcherView { evicting: rest, evicted: s.evicted + 1, ..s }
            } else {
                DispatcherView { evicting: rest, stranded: s.stranded + 1, ..s }
            }
        },
    }
}

/// The removal that an event calls for: that of a connection reported gone,
/// and no other.
pub open spec fn evictions(event: EventView) -> Seq<ActionView> {
    match event {
        EventView::Attempted(id, OutcomeView::Gone) => seq![ActionView::Remove(id)],
        _ => Seq::empty(),
    }
}

/// One transition: the state after an event, and the actions that it asks
/// for, in order.
///
/// An event that answers nothing outstanding (a page that was not asked for,
/// the outcome of an attempt that is not in flight, anything after the
/// acknowledgement) changes nothing and asks for nothing.
pub open spec fn step(s: DispatcherView, event: EventView) -> (DispatcherView, Seq<ActionView>) {
    if answers(s, event) {
        settle(told(s, event), evictions(event))
    } else {
        (s, Seq::empty())
    }
}

/// The invariant of a broadcast, whatever it has been told so far.
pub open spec fn sound(s: DispatcherView) -> bool {
    &&& s.limit >= 1
    &&& busy(s) <= s.limit
    &&& (s.scan != Scan::Paused ==> s.waiting.len() == 0)
    &&& s.waiting.no_duplicates()
    &&& s.attempted.no_duplicates()
    &&& s.in_flight.no_duplicates()
    &&& s.evicting.no_duplicates()
    &&& (forall|id: Seq<char>| #[trigger] s.waiting.contains(id) ==> !s.attempted.contains(id))
    &&& (forall|id: Seq<char>| #[trigger]
        s.in_flight.contains(id) ==> s.attempted.contains(id) && !s.evicting.contains(id))
    &&& (forall|id: Seq<char>| #[trigger] s.evicting.contains(id) ==> s.attempted.contains(id))
    &&& s.attempted.len() == busy(s) + s.delivered + s.failed + s.evicted + s.stranded
    &&& (s.acknowledged ==> drained(s))
}

/// What holds besides between two events: no slot is idle while somebody
/// waits, the next page is on its way once nobody does, and the trigger is
/// answered as soon as nothing is left.
pub open spec fn wf(s: DispatcherView) -> bool {
    &&& sound(s)
    &&& (s.waiting.len() > 0 ==> busy(s) == s.limit)
    &&& (s.scan == Scan::Paused ==> s.waiting.len() > 0)
    &&& (drained(s) ==> s.acknowledged)
}

} // verus!
