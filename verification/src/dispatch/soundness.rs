//! The invariant of the dispatcher survives every event.

use crate::dispatch::model::{
    answers, enqueue, evictions, settle, sound, start, starting, step, told, wf, without, ActionView,
    DispatcherView, EventView,
};
use crate::ids::{lemma_push_keeps_distinct, lemma_remove_keeps_distinct};
use vstd::prelude::*;

verus! {

/// What a page adds to the waiting list: exactly its identifiers that were
/// neither waiting nor attempted, each once, behind those that waited.
pub proof fn lemma_enqueue(waiting: Seq<Seq<char>>, attempted: Seq<Seq<char>>, page: Seq<Seq<char>>)
    requires
        waiting.no_duplicates(),
        forall|id: Seq<char>| #[trigger] waiting.contains(id) ==> !attempted.contains(id),
    ensures
        enqueue(waiting, attempted, page).no_duplicates(),
        waiting.is_prefix_of(enqueue(waiting, attempted, page)),
        forall|id: Seq<char>| #[trigger]
            enqueue(waiting, attempted, page).contains(id) <==> waiting.contains(id) || (page.contains(id)
                && !attempted.contains(id)),
    decreases page.len(),
{
    let after = enqueue(waiting, attempted, page);
    if page.len() == 0 {
        assert forall|id: Seq<char>| !page.contains(id) by {}
    } else {
        let front = page.drop_last();
        let before = enqueue(waiting, attempted, front);
        lemma_enqueue(waiting, attempted, front);
        let last = page.last();
        assert forall|id: Seq<char>| page.contains(id) <==> front.contains(id) || id == last by {
            if page.contains(id) {
                let i = choose|i: int| 0 <= i < page.len() && page[i] == id;
                if i < front.len() {
                    assert(front[i] == id);
                }
            }
            if front.contains(id) {
                let i = choose|i: int| 0 <= i < front.len() && front[i] == id;
                assert(page[i] == id);
            }
            if id == last {
                assert(page[page.len() - 1] == id);
            }
        }
        if !(before.contains(last) || attempted.contains(last)) {
            lemma_push_keeps_distinct(before, last);
        }
        assert forall|id: Seq<char>| #[trigger]
            after.contains(id) <==> waiting.contains(id) || (page.contains(id) && !attempted.contains(
                id,
            )) by {
            assert(before.contains(id) <==> waiting.contains(id) || (front.contains(id)
                && !attempted.contains(id)));
            assert(page.contains(id) <==> front.contains(id) || id == last);
        }
    }
}

/// Taking a held identifier out of a list without repeats leaves the others,
/// each once, and one entry fewer.
pub proof fn lemma_without(list: Seq<Seq<char>>, id: Seq<char>)
    requires
        list.no_duplicates(),
        list.contains(id),
    ensures
        without(list, id).no_duplicates(),
        without(list, id).len() == list.len() - 1,
        !without(list, id).contains(id),
        forall|other: Seq<char>|
            other != id ==> (#[trigger] without(list, id).contains(other) <==> list.contains(other)),
{
    let at = list.index_of(id);
    lemma_remove_keeps_distinct(list, at);
}

/// The two halves of a list without repeats share nothing, and hold between
/// them what the list holds.
pub proof fn lemma_split(list: Seq<Seq<char>>, n: int)
    requires
        list.no_duplicates(),
        0 <= n <= list.len(),
    ensures
        list.take(n).no_duplicates(),
        list.skip(n).no_duplicates(),
        forall|id: Seq<char>| #[trigger] list.take(n).contains(id) ==> !list.skip(n).contains(id),
        forall|id: Seq<char>| #[trigger]
            list.contains(id) <==> list.take(n).contains(id) || list.skip(n).contains(id),
{
    let head = list.take(n);
    let tail = list.skip(n);
    assert forall|id: Seq<char>| #[trigger] head.contains(id) implies !tail.contains(id) by {
        let i = choose|i: int| 0 <= i < head.len() && head[i] == id;
        if tail.contains(id) {
            let j = choose|j: int| 0 <= j < tail.len() && tail[j] == id;
            assert(list[i] == list[n + j]);
        }
    }
    assert forall|id: Seq<char>| #[trigger]
        list.contains(id) <==> head.contains(id) || tail.contains(id) by {
        if list.contains(id) {
            let i = choose|i: int| 0 <= i < list.len() && list[i] == id;
            if i < n {
                assert(head[i] == id);
            } else {
                assert(tail[i - n] == id);
            }
        }
        if head.contains(id) {
            let i = choose|i: int| 0 <= i < head.len() && head[i] == id;
            assert(list[i] == id);
        }
        if tail.contains(id) {
            let j = choose|j: int| 0 <= j < tail.len() && tail[j] == id;
            assert(list[n + j] == id);
        }
    }
}

/// Two lists without repeats that share nothing make one such list, which
/// holds what either holds.
pub proof fn lemma_join(a: Seq<Seq<char>>, b: Seq<Seq<char>>)
    requires
        a.no_duplicates(),
        b.no_duplicates(),
        forall|id: Seq<char>| #[trigger] b.contains(id) ==> !a.contains(id),
    ensures
        (a + b).no_duplicates(),
        forall|id: Seq<char>| #[trigger] (a + b).contains(id) <==> a.contains(id) || b.contains(id),
{
    let joined = a + b;
    assert forall|i: int, j: int| 0 <= i < joined.len() && 0 <= j < joined.len() && i != j implies joined[i]
        != joined[j] by {
        if i < a.len() && j >= a.len() {
            assert(b.contains(b[j - a.len()]));
            assert(a.contains(a[i]));
        }
        if j < a.len() && i >= a.len() {
            assert(b.contains(b[i - a.len()]));
            assert(a.contains(a[j]));
        }
    }
    assert forall|id: Seq<char>| #[trigger] joined.contains(id) <==> a.contains(id) || b.contains(id) by {
        if joined.contains(id) {
            let i = choose|i: int| 0 <= i < joined.len() && joined[i] == id;
            if i < a.len() {
                assert(a[i] == id);
            } else {
                assert(b[i - a.len()] == id);
            }
        }
        if a.contains(id) {
            let i = choose|i: int| 0 <= i < a.len() && a[i] == id;
            assert(joined[i] == id);
        }
        if b.contains(id) {
            let i = choose|i: int| 0 <= i < b.len() && b[i] == id;
            assert(joined[a.len() + i] == id);
        }
    }
}

/// Settling a sound state that has not been acknowledged gives a well-formed
/// one.
pub proof fn lemma_settle_wf(s: DispatcherView, actions: Seq<ActionView>)
    requires
        sound(s),
        !s.acknowledged,
    ensures
        wf(settle(s, actions).0),
{
    let n = starting(s) as int;
    let batch = s.waiting.take(n);
    let rest = s.waiting.skip(n);
    lemma_split(s.waiting, n);
    assert forall|id: Seq<char>| #[trigger] batch.contains(id) implies !s.in_flight.contains(id)
        && !s.attempted.contains(id) by {
        assert(s.waiting.contains(id));
    }
    lemma_join(s.in_flight, batch);
    lemma_join(s.attempted, batch);
    let after = settle(s, actions).0;
    assert(after.waiting == rest);
    assert(after.in_flight == s.in_flight + batch);
    assert(after.attempted == s.attempted + batch);
    assert forall|id: Seq<char>| #[trigger] after.waiting.contains(id) implies !after.attempted.contains(
        id,
    ) by {
        assert(s.waiting.contains(id));
    }
    assert forall|id: Seq<char>| #[trigger] after.in_flight.contains(id) implies after.attempted.contains(
        id,
    ) && !after.evicting.contains(id) by {
        if batch.contains(id) {
            assert(s.waiting.contains(id));
            if s.evicting.contains(id) {
                assert(s.attempted.contains(id));
            }
        }
    }
    assert forall|id: Seq<char>| #[trigger] after.evicting.contains(id) implies after.attempted.contains(
        id,
    ) by {
        assert(s.evicting.contains(id));
    }
}

/// A broadcast starts well-formed.
pub proof fn lemma_start_wf(payload: Seq<u8>, limit: nat)
    ensures
        wf(start(payload, limit)),
{
}

/// Taking in an event that answers something outstanding keeps a
/// well-formed broadcast sound.
pub proof fn lemma_told_sound(s: DispatcherView, event: EventView)
    requires
        wf(s),
        answers(s, event),
    ensures
        sound(told(s, event)),
        !told(s, event).acknowledged,
{
    let t = told(s, event);
    match event {
        EventView::Page(page) => {
            lemma_enqueue(s.waiting, s.attempted, page);
        },
        EventView::ScanEnded => {},
        EventView::ScanFailed => {},
        EventView::Attempted(id, outcome) => {
            lemma_without(s.in_flight, id);
            if outcome is Gone {
                lemma_push_keeps_distinct(s.evicting, id);
                assert forall|other: Seq<char>| #[trigger] t.evicting.contains(other) implies t.attempted.contains(
                    other,
                ) by {
                    if other != id {
                        assert(s.evicting.contains(other));
                    }
                }
                assert forall|other: Seq<char>| #[trigger] t.in_flight.contains(other) implies t.attempted.contains(
                    other,
                ) && !t.evicting.contains(other) by {
                    assert(s.in_flight.contains(other));
                    assert(!s.evicting.contains(other));
                }
            }
        },
        EventView::Removed(id, done) => {
            lemma_without(s.evicting, id);
        },
    }
}

/// Every event leaves a well-formed broadcast well-formed.
pub proof fn lemma_step_wf(s: DispatcherView, event: EventView)
    requires
        wf(s),
    ensures
        wf(step(s, event).0),
{
    if answers(s, event) {
        lemma_told_sound(s, event);
        lemma_settle_wf(told(s, event), evictions(event));
    }
}

} // verus!
