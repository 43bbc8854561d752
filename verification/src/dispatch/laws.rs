//! What holds of every broadcast, whatever the driver reports and in
//! whatever order.

use crate::dispatch::model::{
    answers, busy, drained, evictions, scan_over, sends, start, starting, step, told, wf, ActionView,
    DispatcherView, EventView, Scan,
};
use crate::dispatch::soundness::{lemma_start_wf, lemma_step_wf};
use crate::push::OutcomeView;
use crate::registry::{evicted, lemma_evicted};
use crate::response::OK;
use vstd::prelude::*;

verus! {

/// The state after a series of events, and everything that was asked for on
/// the way, in order.
pub open spec fn run(s: DispatcherView, events: Seq<EventView>) -> (DispatcherView, Seq<ActionView>)
    decreases events.len(),
{
    if events.len() == 0 {
        (s, Seq::empty())
    } else {
        let so_far = run(s, events.drop_last());
        let last = step(so_far.0, events.last());
        (last.0, so_far.1 + last.1)
    }
}

/// The identifiers that a list of actions starts an attempt for, in order.
pub open spec fn sent(actions: Seq<ActionView>) -> Seq<Seq<char>>
    decreases actions.len(),
{
    if actions.len() == 0 {
        Seq::empty()
    } else {
        match actions.last() {
            ActionView::Send(id, _) => sent(actions.drop_last()).push(id),
            _ => sent(actions.drop_last()),
        }
    }
}

/// The identifiers that a series of events yields: those of every page that
/// arrives while one is awaited.
pub open spec fn yielded(s: DispatcherView, events: Seq<EventView>) -> Set<Seq<char>>
    decreases events.len(),
{
    if events.len() == 0 {
        Set::empty()
    } else {
        let earlier = yielded(s, events.drop_last());
        let then = run(s, events.drop_last()).0;
        match events.last() {
            EventView::Page(page) => if answers(then, events.last()) {
                earlier + page.to_set()
            } else {
                earlier
            },
            _ => earlier,
        }
    }
}

/// The invariant holds after every series of events. In particular the
/// connections worked on at once never exceed the limit.
pub proof fn lemma_run_wf(s: DispatcherView, events: Seq<EventView>)
    requires
        wf(s),
    ensures
        wf(run(s, events).0),
        busy(run(s, events).0) <= s.limit,
        run(s, events).0.limit == s.limit,
        run(s, events).0.payload == s.payload,
    decreases events.len(),
{
    if events.len() > 0 {
        lemma_run_wf(s, events.drop_last());
        lemma_step_wf(run(s, events.drop_last()).0, events.last());
    }
}

/// A removal is asked for exactly when an attempt in flight is reported
/// gone, and then for that connection. No delivered attempt, no transient
/// failure and no change in the scan ever evicts.
pub proof fn lemma_removal_iff_gone(s: DispatcherView, event: EventView, id: Seq<char>)
    ensures
        step(s, event).1.contains(ActionView::Remove(id)) <==> !s.acknowledged && event
            == EventView::Attempted(id, OutcomeView::Gone) && s.in_flight.contains(id),
{
    let asked = step(s, event).1;
    let wanted = ActionView::Remove(id);
    if asked.contains(wanted) {
        let at = choose|at: int| 0 <= at < asked.len() && asked[at] == wanted;
        lemma_settle_asks(s, event, at);
    }
    if answers(s, event) && event == EventView::Attempted(id, OutcomeView::Gone) {
        assert(asked[0] == wanted);
    }
}

/// Whatever a transition asks for, an event that answered something stands
/// behind it; and past the removal that the event calls for it asks for no
/// other.
proof fn lemma_settle_asks(s: DispatcherView, event: EventView, at: int)
    requires
        0 <= at < step(s, event).1.len(),
    ensures
        answers(s, event),
        at < evictions(event).len() ==> step(s, event).1[at] == evictions(event)[at],
        at >= evictions(event).len() ==> !(step(s, event).1[at] is Remove),
{
    let before = evictions(event);
    let t = told(s, event);
    let batch = t.waiting.take(starting(t) as int);
    let pushed = before + sends(batch, t.payload);
    if before.len() <= at < pushed.len() {
        assert(pushed[at] == sends(batch, t.payload)[at - before.len()]);
    }
}

/// The attempts of two lists of actions are those of the first, then those
/// of the second.
pub proof fn lemma_sent_concat(first: Seq<ActionView>, second: Seq<ActionView>)
    ensures
        sent(first + second) == sent(first) + sent(second),
    decreases second.len(),
{
    if second.len() == 0 {
        assert(first + second =~= first);
        assert(sent(first) + sent(second) =~= sent(first));
    } else {
        lemma_sent_concat(first, second.drop_last());
        assert((first + second).drop_last() =~= first + second.drop_last());
        assert((first + second).last() == second.last());
        match second.last() {
            ActionView::Send(id, _) => {
                assert(sent(first + second) =~= sent(first) + sent(second));
            },
            _ => {},
        }
    }
}

/// The pushes for a batch start an attempt for each of its identifiers, in
/// order.
pub proof fn lemma_sent_sends(batch: Seq<Seq<char>>, payload: Seq<u8>)
    ensures
        sent(sends(batch, payload)) == batch,
    decreases batch.len(),
{
    if batch.len() == 0 {
        assert(sent(sends(batch, payload)) =~= batch);
    } else {
        lemma_sent_sends(batch.drop_last(), payload);
        assert(sends(batch, payload).drop_last() =~= sends(batch.drop_last(), payload));
        assert(sends(batch, payload).last() == ActionView::Send(batch.last(), payload));
        assert(batch.drop_last().push(batch.last()) =~= batch);
    }
}

/// The attempts that a transition starts are exactly what it adds to the
/// list of attempted identifiers.
pub proof fn lemma_step_sent(s: DispatcherView, event: EventView)
    ensures
        step(s, event).0.attempted == s.attempted + sent(step(s, event).1),
{
    if answers(s, event) {
        let t = told(s, event);
        let before = evictions(event);
        let batch = t.waiting.take(starting(t) as int);
        let pushed = before + sends(batch, t.payload);
        lemma_sent_concat(before, sends(batch, t.payload));
        lemma_sent_sends(batch, t.payload);
        assert(sent(before) =~= Seq::<Seq<char>>::empty()) by {
            if before.len() > 0 {
                assert(before.len() == 1);
                assert(before.last() is Remove);
                assert(before.drop_last().len() == 0);
                assert(sent(before.drop_last()) == Seq::<Seq<char>>::empty());
            }
        }
        assert(sent(pushed) =~= batch);
        assert(pushed.push(ActionView::Fetch).drop_last() =~= pushed);
        assert(pushed.push(ActionView::Acknowledge(OK)).drop_last() =~= pushed);
        assert(t.attempted == s.attempted);
    } else {
        assert(s.attempted + sent(Seq::<ActionView>::empty()) =~= s.attempted);
    }
}

/// Over any series of events, the attempts started are exactly what the
/// list of attempted identifiers gained, in the same order.
pub proof fn lemma_run_sent(s: DispatcherView, events: Seq<EventView>)
    ensures
        run(s, events).0.attempted == s.attempted + sent(run(s, events).1),
    decreases events.len(),
{
    if events.len() == 0 {
        assert(s.attempted + sent(Seq::<ActionView>::empty()) =~= s.attempted);
    } else {
        let so_far = run(s, events.drop_last());
        let last = step(so_far.0, events.last());
        lemma_run_sent(s, events.drop_last());
        lemma_step_sent(so_far.0, events.last());
        lemma_sent_concat(so_far.1, last.1);
        assert(s.attempted + (sent(so_far.1) + sent(last.1)) =~= (s.attempted + sent(so_far.1)) + sent(
            last.1,
        ));
    }
}

/// At most once: whatever a broadcast is told, and however often a page
/// repeats an identifier, it starts no second attempt for any connection.
pub proof fn lemma_at_most_once(payload: Seq<u8>, limit: nat, events: Seq<EventView>)
    ensures
        sent(run(start(payload, limit), events).1).no_duplicates(),
        sent(run(start(payload, limit), events).1) == run(start(payload, limit), events).0.attempted,
{
    let s = start(payload, limit);
    lemma_start_wf(payload, limit);
    lemma_run_wf(s, events);
    lemma_run_sent(s, events);
    assert(s.attempted + sent(run(s, events).1) =~= sent(run(s, events).1));
}

/// Every push of a transition carries the payload of the broadcast.
pub proof fn lemma_step_payload(s: DispatcherView, event: EventView, at: int)
    requires
        0 <= at < step(s, event).1.len(),
        step(s, event).1[at] is Send,
    ensures
        step(s, event).1[at]->Send_1 == s.payload,
{
    let t = told(s, event);
    let before = evictions(event);
    let batch = t.waiting.take(starting(t) as int);
    let pushed = before + sends(batch, t.payload);
    if before.len() <= at < pushed.len() {
        assert(pushed[at] == sends(batch, t.payload)[at - before.len()]);
    }
}

/// What waits or was attempted after a transition is what waited or was
/// attempted before, and the identifiers of the page if one was taken in.
pub proof fn lemma_step_known(s: DispatcherView, event: EventView, id: Seq<char>)
    requires
        wf(s),
    ensures
        step(s, event).0.waiting.contains(id) || step(s, event).0.attempted.contains(id) <==> s.waiting.contains(
            id,
        ) || s.attempted.contains(id) || (answers(s, event) && event is Page && event->Page_0.contains(id)),
{
    if answers(s, event) {
        let t = told(s, event);
        if let EventView::Page(page) = event {
            crate::dispatch::soundness::lemma_enqueue(s.waiting, s.attempted, page);
        }
        assert(t.waiting.contains(id) || t.attempted.contains(id) <==> s.waiting.contains(id)
            || s.attempted.contains(id) || (event is Page && event->Page_0.contains(id)));
        let n = starting(t) as int;
        let batch = t.waiting.take(n);
        let after = step(s, event).0;
        assert(after.waiting == t.waiting.skip(n));
        assert(after.attempted == t.attempted + batch);
        if t.waiting.contains(id) {
            let i = choose|i: int| 0 <= i < t.waiting.len() && t.waiting[i] == id;
            if i < n {
                assert(after.attempted[t.attempted.len() + i] == id);
            } else {
                assert(after.waiting[i - n] == id);
            }
        }
        if t.attempted.contains(id) {
            let i = choose|i: int| 0 <= i < t.attempted.len() && t.attempted[i] == id;
            assert(after.attempted[i] == id);
        }
        if after.waiting.contains(id) {
            let i = choose|i: int| 0 <= i < after.waiting.len() && after.waiting[i] == id;
            assert(t.waiting[i + n] == id);
        }
        if after.attempted.contains(id) {
            let i = choose|i: int| 0 <= i < after.attempted.len() && after.attempted[i] == id;
            if i < t.attempted.len() {
                assert(t.attempted[i] == id);
            } else {
                assert(t.waiting[i - t.attempted.len()] == id);
            }
        }
    }
}

/// Over any series of events, an identifier waits or was attempted exactly
/// if it did before or a page yielded it.
pub proof fn lemma_run_known(s: DispatcherView, events: Seq<EventView>, id: Seq<char>)
    requires
        wf(s),
    ensures
        run(s, events).0.waiting.contains(id) || run(s, events).0.attempted.contains(id) <==> s.waiting.contains(
            id,
        ) || s.attempted.contains(id) || yielded(s, events).contains(id),
    decreases events.len(),
{
    if events.len() > 0 {
        lemma_run_known(s, events.drop_last(), id);
        lemma_run_wf(s, events.drop_last());
        lemma_step_known(run(s, events.drop_last()).0, events.last(), id);
    }
}

/// Every connection, and only those: a broadcast that has been acknowledged
/// has started an attempt for exactly the identifiers that its scan yielded.
/// While it is under way it has started none for any other.
pub proof fn lemma_attempts_are_yielded(payload: Seq<u8>, limit: nat, events: Seq<EventView>)
    ensures
        run(start(payload, limit), events).0.attempted.to_set().subset_of(
            yielded(start(payload, limit), events),
        ),
        run(start(payload, limit), events).0.acknowledged ==> run(
            start(payload, limit),
            events,
        ).0.attempted.to_set() == yielded(start(payload, limit), events),
        run(start(payload, limit), events).0.acknowledged ==> run(
            start(payload, limit),
            events,
        ).0.attempted.len() == yielded(start(payload, limit), events).len(),
{
    let s = start(payload, limit);
    let end = run(s, events).0;
    lemma_start_wf(payload, limit);
    lemma_run_wf(s, events);
    assert forall|id: Seq<char>|
        (end.waiting.contains(id) || end.attempted.contains(id)) == yielded(s, events).contains(id) by {
        lemma_run_known(s, events, id);
    }
    assert forall|id: Seq<char>| end.attempted.to_set().contains(id) implies yielded(s, events).contains(
        id,
    ) by {
        assert(end.attempted.contains(id));
    }
    if end.acknowledged {
        assert(end.attempted.to_set() =~= yielded(s, events)) by {
            assert forall|id: Seq<char>| yielded(s, events).contains(id) implies end.attempted.to_set().contains(
                id,
            ) by {
                assert(end.waiting.contains(id) || end.attempted.contains(id));
                assert(end.waiting.len() == 0);
            }
        }
        end.attempted.unique_seq_to_set();
    }
}

/// Once the scan is over, by its end or by a failure, it stays so, and no
/// further attempt and no further page is asked for. Attempts that were in
/// flight at that point are still heard: see `lemma_removal_iff_gone`.
pub proof fn lemma_scan_over_is_final(s: DispatcherView, event: EventView)
    requires
        wf(s),
        scan_over(s),
    ensures
        step(s, event).0.scan == s.scan,
        step(s, event).0.attempted == s.attempted,
        sent(step(s, event).1) == Seq::<Seq<char>>::empty(),
        !step(s, event).1.contains(ActionView::Fetch),
{
    lemma_step_sent(s, event);
    let asked = step(s, event).1;
    if answers(s, event) {
        let t = told(s, event);
        assert(t.waiting.len() == 0);
        let batch = t.waiting.take(starting(t) as int);
        assert(batch =~= Seq::<Seq<char>>::empty());
        assert(step(s, event).0.attempted =~= s.attempted);
        assert(sends(batch, t.payload) =~= Seq::<ActionView>::empty());
        assert(evictions(event) + sends(batch, t.payload) =~= evictions(event));
    }
    assert forall|at: int| 0 <= at < asked.len() implies asked[at] != ActionView::Fetch by {
        assert(asked[at] is Remove || asked[at] is Acknowledge);
    }
    assert(s.attempted + sent(asked) == s.attempted);
    assert(sent(asked) =~= Seq::<Seq<char>>::empty()) by {
        assert((s.attempted + sent(asked)).len() == s.attempted.len() + sent(asked).len());
    }
}

/// When a page cannot be read, every identifier that the scan had yielded
/// has its attempt already: none of them is dropped, and by
/// `lemma_scan_over_is_final` no other is ever tried.
pub proof fn lemma_scan_failure_keeps_attempts(s: DispatcherView)
    requires
        wf(s),
        answers(s, EventView::ScanFailed),
    ensures
        step(s, EventView::ScanFailed).0.scan == Scan::Failed,
        step(s, EventView::ScanFailed).0.attempted == s.attempted,
        step(s, EventView::ScanFailed).0.in_flight == s.in_flight,
        step(s, EventView::ScanFailed).0.evicting == s.evicting,
        s.waiting.len() == 0,
{
    let t = told(s, EventView::ScanFailed);
    let batch = t.waiting.take(starting(t) as int);
    assert(batch =~= Seq::<Seq<char>>::empty());
    assert(t.attempted + batch =~= s.attempted);
    assert(t.in_flight + batch =~= s.in_flight);
}

/// The trigger is answered by the transition that leaves nothing to wait
/// for, by no other, and always with the status of success: no failed
/// delivery, removal or page read fails the caller.
pub proof fn lemma_acknowledgement(s: DispatcherView, event: EventView, status: u16)
    requires
        wf(s),
    ensures
        step(s, event).1.contains(ActionView::Acknowledge(status)) <==> status == OK && !s.acknowledged
            && step(s, event).0.acknowledged,
        step(s, event).0.acknowledged <==> drained(step(s, event).0),
{
    lemma_step_wf(s, event);
    let asked = step(s, event).1;
    let after = step(s, event).0;
    if answers(s, event) {
        let t = told(s, event);
        let before = evictions(event);
        let batch = t.waiting.take(starting(t) as int);
        let pushed = before + sends(batch, t.payload);
        if asked.contains(ActionView::Acknowledge(status)) {
            let at = choose|at: int| 0 <= at < asked.len() && asked[at] == ActionView::Acknowledge(status);
            if at < before.len() {
                assert(pushed[at] == before[at]);
            } else if at < pushed.len() {
                assert(pushed[at] == sends(batch, t.payload)[at - before.len()]);
            }
        }
        if after.acknowledged {
            assert(asked[pushed.len() as int] == ActionView::Acknowledge(OK));
        }
    }
}

/// Whatever is asked for is awaited: after a transition the connection of
/// each push it asked for is in flight, the connection of the removal it
/// asked for is being evicted, and the scan waits for the page it asked for.
/// So the answer to every action, when it comes, answers something.
pub proof fn lemma_asked_is_awaited(s: DispatcherView, event: EventView, at: int)
    requires
        0 <= at < step(s, event).1.len(),
    ensures
        match step(s, event).1[at] {
            ActionView::Fetch => step(s, event).0.scan == Scan::Fetching,
            ActionView::Send(id, _) => step(s, event).0.in_flight.contains(id),
            ActionView::Remove(id) => step(s, event).0.evicting.contains(id),
            ActionView::Acknowledge(_) => step(s, event).0.acknowledged,
        },
{
    let after = step(s, event).0;
    let t = told(s, event);
    let before = evictions(event);
    let batch = t.waiting.take(starting(t) as int);
    let pushed = before + sends(batch, t.payload);
    if at < before.len() {
        assert(pushed[at] == before[at]);
        let id = event->Attempted_0;
        assert(t.evicting[t.evicting.len() - 1] == id);
        assert(after.evicting == t.evicting);
    } else if at < pushed.len() {
        let place = at - before.len();
        assert(pushed[at] == sends(batch, t.payload)[place]);
        assert(after.in_flight == t.in_flight + batch);
        assert(after.in_flight[t.in_flight.len() + place] == batch[place]);
    }
}

/// One page at a time: a transition asks for a page exactly when it leaves
/// the scan waiting for one that was not awaited before, or that the event
/// itself brought.
pub proof fn lemma_one_fetch_at_a_time(s: DispatcherView, event: EventView)
    requires
        wf(s),
    ensures
        step(s, event).1.contains(ActionView::Fetch) <==> step(s, event).0.scan == Scan::Fetching && answers(
            s,
            event,
        ) && (s.scan != Scan::Fetching || event is Page),
{
    let asked = step(s, event).1;
    if answers(s, event) {
        lemma_step_wf(s, event);
        let t = told(s, event);
        let before = evictions(event);
        let batch = t.waiting.take(starting(t) as int);
        let pushed = before + sends(batch, t.payload);
        if asked.contains(ActionView::Fetch) {
            let at = choose|at: int| 0 <= at < asked.len() && asked[at] == ActionView::Fetch;
            if at < before.len() {
                assert(pushed[at] == before[at]);
            } else if at < pushed.len() {
                assert(pushed[at] == sends(batch, t.payload)[at - before.len()]);
            }
        }
        if step(s, event).0.scan == Scan::Fetching && (s.scan != Scan::Fetching || event is Page) {
            assert(asked[pushed.len() as int] == ActionView::Fetch);
        }
    }
}

/// A broadcast that has not been acknowledged always has something
/// outstanding that the driver will report: a page, an attempt or a removal.
pub proof fn lemma_never_stuck(s: DispatcherView)
    requires
        wf(s),
        !s.acknowledged,
    ensures
        s.scan == Scan::Fetching || busy(s) > 0,
{
}

/// The tallies of an acknowledged broadcast add up to its attempts.
pub proof fn lemma_tally(s: DispatcherView)
    requires
        wf(s),
        s.acknowledged,
    ensures
        s.attempted.len() == s.delivered + s.failed + s.evicted + s.stranded,
{
}

/// The identifiers that a list of actions asks to remove, in order.
pub open spec fn removed(actions: Seq<ActionView>) -> Seq<Seq<char>>
    decreases actions.len(),
{
    if actions.len() == 0 {
        Seq::empty()
    } else {
        match actions.last() {
            ActionView::Remove(id) => removed(actions.drop_last()).push(id),
            _ => removed(actions.drop_last()),
        }
    }
}

/// The connections that a series of events reports gone, in order: one for
/// each such answer to an attempt that was in flight.
pub open spec fn reported_gone(s: DispatcherView, events: Seq<EventView>) -> Seq<Seq<char>>
    decreases events.len(),
{
    if events.len() == 0 {
        Seq::empty()
    } else {
        let earlier = reported_gone(s, events.drop_last());
        let then = run(s, events.drop_last()).0;
        match events.last() {
            EventView::Attempted(id, OutcomeView::Gone) => if answers(then, events.last()) {
                earlier.push(id)
            } else {
                earlier
            },
            _ => earlier,
        }
    }
}

/// The removals of two lists of actions are those of the first, then those
/// of the second.
pub proof fn lemma_removed_concat(first: Seq<ActionView>, second: Seq<ActionView>)
    ensures
        removed(first + second) == removed(first) + removed(second),
    decreases second.len(),
{
    if second.len() == 0 {
        assert(first + second =~= first);
        assert(removed(first) + removed(second) =~= removed(first));
    } else {
        lemma_removed_concat(first, second.drop_last());
        assert((first + second).drop_last() =~= first + second.drop_last());
        assert((first + second).last() == second.last());
        match second.last() {
            ActionView::Remove(id) => {
                assert(removed(first + second) =~= removed(first) + removed(second));
            },
            _ => {},
        }
    }
}

/// Pushes remove nothing.
pub proof fn lemma_removed_sends(batch: Seq<Seq<char>>, payload: Seq<u8>)
    ensures
        removed(sends(batch, payload)) == Seq::<Seq<char>>::empty(),
    decreases batch.len(),
{
    if batch.len() > 0 {
        lemma_removed_sends(batch.drop_last(), payload);
        assert(sends(batch, payload).drop_last() =~= sends(batch.drop_last(), payload));
        assert(sends(batch, payload).last() == ActionView::Send(batch.last(), payload));
    }
}

/// A transition asks for the removal that its event calls for, and for no
/// other.
pub proof fn lemma_step_removed(s: DispatcherView, event: EventView)
    ensures
        removed(step(s, event).1) == if answers(s, event) {
            removed(evictions(event))
        } else {
            Seq::<Seq<char>>::empty()
        },
        removed(evictions(event)) == match event {
            EventView::Attempted(id, OutcomeView::Gone) => seq![id],
            _ => Seq::<Seq<char>>::empty(),
        },
{
    let before = evictions(event);
    if before.len() > 0 {
        assert(before.drop_last().len() == 0);
        assert(removed(before.drop_last()) == Seq::<Seq<char>>::empty());
        assert(removed(before) =~= seq![event->Attempted_0]);
    }
    if answers(s, event) {
        let t = told(s, event);
        let batch = t.waiting.take(starting(t) as int);
        let pushed = before + sends(batch, t.payload);
        lemma_removed_concat(before, sends(batch, t.payload));
        lemma_removed_sends(batch, t.payload);
        assert(removed(pushed) =~= removed(before));
        assert(pushed.push(ActionView::Fetch).drop_last() =~= pushed);
        assert(pushed.push(ActionView::Acknowledge(OK)).drop_last() =~= pushed);
    }
}

/// Gone triggers eviction, and nothing else does: over any series of events
/// the removals asked for are exactly the connections reported gone, one
/// removal for each report, in the order of the reports.
pub proof fn lemma_run_removed(s: DispatcherView, events: Seq<EventView>)
    ensures
        removed(run(s, events).1) == reported_gone(s, events),
    decreases events.len(),
{
    if events.len() > 0 {
        let so_far = run(s, events.drop_last());
        let last = step(so_far.0, events.last());
        lemma_run_removed(s, events.drop_last());
        lemma_step_removed(so_far.0, events.last());
        lemma_removed_concat(so_far.1, last.1);
        assert(reported_gone(s, events.drop_last()) + Seq::<Seq<char>>::empty() =~= reported_gone(
            s,
            events.drop_last(),
        ));
        if let EventView::Attempted(id, OutcomeView::Gone) = events.last() {
            assert(reported_gone(s, events.drop_last()) + seq![id] =~= reported_gone(
                s,
                events.drop_last(),
            ).push(id));
        }
    }
}

/// Whether an event says that a connection is gone.
pub open spec fn reports_gone(event: EventView) -> bool {
    event matches EventView::Attempted(_, OutcomeView::Gone)
}

/// Transient failures never evict: a series of events in which no attempt is
/// reported gone asks for no removal, whatever else it reports.
pub proof fn lemma_no_gone_no_removal(s: DispatcherView, events: Seq<EventView>)
    requires
        forall|i: int| 0 <= i < events.len() ==> !reports_gone(#[trigger] events[i]),
    ensures
        removed(run(s, events).1) == Seq::<Seq<char>>::empty(),
    decreases events.len(),
{
    if events.len() > 0 {
        let so_far = run(s, events.drop_last());
        let last = step(so_far.0, events.last());
        assert forall|i: int| 0 <= i < events.drop_last().len() implies !reports_gone(
            #[trigger] events.drop_last()[i],
        ) by {
            assert(events.drop_last()[i] == events[i]);
        }
        lemma_no_gone_no_removal(s, events.drop_last());
        lemma_step_removed(so_far.0, events.last());
        lemma_removed_concat(so_far.1, last.1);
        assert(!reports_gone(events[events.len() - 1]));
        assert(removed(so_far.1) + removed(last.1) =~= Seq::<Seq<char>>::empty());
    }
}

/// Nobody is evicted unheard: a connection that a series of events reports
/// gone had its attempt started by this broadcast.
pub proof fn lemma_gone_were_attempted(s: DispatcherView, events: Seq<EventView>, id: Seq<char>)
    requires
        wf(s),
        reported_gone(s, events).contains(id),
    ensures
        run(s, events).0.attempted.contains(id),
    decreases events.len(),
{
    if events.len() > 0 {
        let front = events.drop_last();
        let then = run(s, front).0;
        let earlier = reported_gone(s, front);
        lemma_run_wf(s, front);
        lemma_step_sent(then, events.last());
        let end = run(s, events).0;
        if earlier.contains(id) {
            lemma_gone_were_attempted(s, front, id);
        } else {
            let gone = reported_gone(s, events);
            let at = choose|at: int| 0 <= at < gone.len() && gone[at] == id;
            if at < earlier.len() {
                assert(earlier[at] == id);
            }
            assert(gone == earlier.push(id));
            assert(then.in_flight.contains(id));
        }
        assert(then.attempted.contains(id));
        let place = choose|place: int| 0 <= place < then.attempted.len() && then.attempted[place] == id;
        assert(end.attempted[place] == id);
    }
}

/// Empty broadcast: where the scan yields no connection, no attempt is
/// started and no removal is asked for, whatever else is reported.
pub proof fn lemma_nothing_yielded_nothing_done(payload: Seq<u8>, limit: nat, events: Seq<EventView>)
    requires
        yielded(start(payload, limit), events) == Set::<Seq<char>>::empty(),
    ensures
        sent(run(start(payload, limit), events).1) == Seq::<Seq<char>>::empty(),
        removed(run(start(payload, limit), events).1) == Seq::<Seq<char>>::empty(),
{
    let s = start(payload, limit);
    let end = run(s, events).0;
    lemma_start_wf(payload, limit);
    lemma_attempts_are_yielded(payload, limit, events);
    lemma_at_most_once(payload, limit, events);
    lemma_run_removed(s, events);
    if end.attempted.len() > 0 {
        assert(end.attempted.to_set().contains(end.attempted[0]));
    }
    assert(end.attempted =~= Seq::<Seq<char>>::empty());
    let gone = reported_gone(s, events);
    if gone.len() > 0 {
        assert(gone.contains(gone[0]));
        lemma_gone_were_attempted(s, events, gone[0]);
    }
    assert(gone =~= Seq::<Seq<char>>::empty());
}

/// What a store holds once a driver has carried out every removal that a
/// series of events made the broadcast ask for: what it held, less the
/// connections that were reported gone. Nothing else leaves it.
pub proof fn lemma_store_after_run(held: Set<Seq<char>>, s: DispatcherView, events: Seq<EventView>)
    ensures
        evicted(held, removed(run(s, events).1)) == held.difference(reported_gone(s, events).to_set()),
{
    lemma_run_removed(s, events);
    lemma_evicted(held, removed(run(s, events).1));
}

/// The work that is left once the scan is over: each attempt in flight may
/// still call for a removal.
pub open spec fn remaining(s: DispatcherView) -> nat {
    2 * s.in_flight.len() + s.evicting.len()
}

/// Once the scan is over, every event that answers something outstanding
/// brings the acknowledgement nearer: the broadcast ends after at most
/// `remaining` more answers.
pub proof fn lemma_progress(s: DispatcherView, event: EventView)
    requires
        wf(s),
        scan_over(s),
        answers(s, event),
    ensures
        remaining(step(s, event).0) < remaining(s),
        remaining(step(s, event).0) == 0 <==> step(s, event).0.acknowledged,
{
    lemma_step_wf(s, event);
    let t = told(s, event);
    match event {
        EventView::Attempted(id, _) => {
            crate::dispatch::soundness::lemma_without(s.in_flight, id);
        },
        EventView::Removed(id, _) => {
            crate::dispatch::soundness::lemma_without(s.evicting, id);
        },
        _ => {},
    }
    let batch = t.waiting.take(starting(t) as int);
    assert(batch =~= Seq::<Seq<char>>::empty());
    assert(t.in_flight + batch =~= t.in_flight);
}

} // verus!
