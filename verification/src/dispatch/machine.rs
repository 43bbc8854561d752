//! The dispatcher that runs: the transition system over owned values.

use crate::dispatch::model::{
    answers, busy, enqueue, evictions, sends, settle, sound, start, starting, step, told, wf, ActionView,
    DispatcherView, EventView, Scan,
};
use crate::dispatch::soundness::{lemma_start_wf, lemma_step_wf, lemma_told_sound};
use crate::ids::{lemma_texts_push, lemma_texts_remove, position, texts};
use crate::push::DeliveryOutcome;
use crate::registry::{connection_ids, Connection};
use crate::response::{Response, OK};
use vstd::prelude::*;

verus! {

/// Why a scan of the store stopped early.
#[derive(Clone, Debug, PartialEq, Eq)]
pub enum Error {
    /// A page could not be read.
    Scan(String),
    /// A stored item was not a connection.
    Deserialize(String),
}

/// What the driver reports to the dispatcher.
#[derive(Clone, Debug, PartialEq, Eq)]
pub enum Event {
    /// The page that was asked for, with the connections it holds.
    Page(Vec<Connection>),
    /// The page that was asked for does not exist: the scan is over.
    ScanEnded,
    /// The page that was asked for could not be read.
    ScanFailed(Error),
    /// The answer to the attempt for a connection.
    Attempted(String, DeliveryOutcome),
    /// The end of the removal of a connection, and whether it went through.
    Removed(String, bool),
}

impl View for Event {
    type V = EventView;

    open spec fn view(&self) -> EventView {
        match self {
            Event::Page(list) => EventView::Page(connection_ids(list@)),
            Event::ScanEnded => EventView::ScanEnded,
            Event::ScanFailed(_) => EventView::ScanFailed,
            Event::Attempted(id, outcome) => EventView::Attempted(id@, outcome@),
            Event::Removed(id, done) => EventView::Removed(id@, *done),
        }
    }
}

/// What the dispatcher asks the driver to do.
#[derive(Clone, Debug, PartialEq, Eq)]
pub enum Action {
    /// Read the next page of the scan, then report `Page`, `ScanEnded` or
    /// `ScanFailed`.
    Fetch,
    /// Push `data` to the connection, then report `Attempted`.
    Send { connection_id: String, data: Vec<u8> },
    /// Remove the connection from the store, then report `Removed`.
    Remove { connection_id: String },
    /// Answer the trigger. Nothing follows.
    Acknowledge(Response),
}

impl View for Action {
    type V = ActionView;

    open spec fn view(&self) -> ActionView {
        match self {
            Action::Fetch => ActionView::Fetch,
            Action::Send { connection_id, data } => ActionView::Send(connection_id@, data@),
            Action::Remove { connection_id } => ActionView::Remove(connection_id@),
            Action::Acknowledge(response) => ActionView::Acknowledge(response.status_code),
        }
    }
}

/// The actions of a list as plain values, in order.
pub open spec fn action_views(list: Seq<Action>) -> Seq<ActionView> {
    Seq::new(list.len(), |i: int| list[i]@)
}

/// What a broadcast has come to so far.
#[derive(Clone, Copy, Debug, PartialEq, Eq, Structural)]
pub struct Report {
    /// Attempts started.
    pub attempts: usize,
    /// Attempts that were delivered.
    pub delivered: usize,
    /// Attempts that failed without saying anything about the recipient.
    pub failed: usize,
    /// Gone connections whose removal went through.
    pub evicted: usize,
    /// Gone connections whose removal failed.
    pub stranded: usize,
    /// Whether the scan stopped on an error.
    pub scan_failed: bool,
}

/// The working state of a broadcast.
struct Core {
    payload: Vec<u8>,
    limit: usize,
    scan: Scan,
    /// The identifiers that the last page added.
    page: Vec<String>,
    /// How many of them have been started.
    cursor: usize,
    in_flight: Vec<String>,
    evicting: Vec<String>,
    attempted: Vec<String>,
    delivered: usize,
    failed: usize,
    evicted: usize,
    stranded: usize,
    acknowledged: bool,
}

/// In a list without repeats an entry stands at one place only.
proof fn lemma_index_of(list: Seq<Seq<char>>, id: Seq<char>, at: int)
    requires
        list.no_duplicates(),
        0 <= at < list.len(),
        list[at] == id,
    ensures
        list.index_of(id) == at,
{
}

/// A copy of the payload, to hand out with a push.
fn copy_bytes(bytes: &Vec<u8>) -> (copy: Vec<u8>)
    ensures
        copy@ == bytes@,
{
    let copy = bytes.clone();
    assert(copy@ =~= bytes@);
    copy
}

impl Core {
    /// The state as plain values.
    spec fn view(&self) -> DispatcherView {
        DispatcherView {
            payload: self.payload@,
            limit: self.limit as nat,
            scan: self.scan,
            waiting: texts(self.page@).skip(self.cursor as int),
            in_flight: texts(self.in_flight@),
            evicting: texts(self.evicting@),
            attempted: texts(self.attempted@),
            delivered: self.delivered as nat,
            failed: self.failed as nat,
            evicted: self.evicted as nat,
            stranded: self.stranded as nat,
            acknowledged: self.acknowledged,
        }
    }

    /// Whether the state is one that a broadcast can be in.
    spec fn wf(&self) -> bool {
        self.cursor <= self.page.len() && wf(self@)
    }

    /// The state of a broadcast that has asked for its first page.
    fn start(payload: Vec<u8>, limit: usize) -> (core: Core)
        ensures
            core.wf(),
            core@ == start(payload@, limit as nat),
    {
        let core = Core {
            payload,
            limit: if limit == 0 { 1 } else { limit },
            scan: Scan::Fetching,
            page: Vec::new(),
            cursor: 0,
            in_flight: Vec::new(),
            evicting: Vec::new(),
            attempted: Vec::new(),
            delivered: 0,
            failed: 0,
            evicted: 0,
            stranded: 0,
            acknowledged: false,
        };
        proof {
            lemma_start_wf(payload@, limit as nat);
            assert(core@.waiting =~= Seq::<Seq<char>>::empty());
            assert(core@.in_flight =~= Seq::<Seq<char>>::empty());
            assert(core@.evicting =~= Seq::<Seq<char>>::empty());
            assert(core@.attempted =~= Seq::<Seq<char>>::empty());
            assert(core@ == start(payload@, limit as nat));
        }
        core
    }

    /// The tallies so far.
    fn report(&self) -> (report: Report)
        ensures
            report.attempts == self@.attempted.len(),
            report.delivered == self@.delivered,
            report.failed == self@.failed,
            report.evicted == self@.evicted,
            report.stranded == self@.stranded,
            report.scan_failed == (self@.scan == Scan::Failed),
    {
        Report {
            attempts: self.attempted.len(),
            delivered: self.delivered,
            failed: self.failed,
            evicted: self.evicted,
            stranded: self.stranded,
            scan_failed: self.scan == Scan::Failed,
        }
    }

    /// The identifiers of a page that are new to this broadcast, each once.
    fn fresh(&self, list: &Vec<Connection>) -> (fresh: Vec<String>)
        ensures
            texts(fresh@) == enqueue(Seq::empty(), texts(self.attempted@), connection_ids(list@)),
    {
        let mut fresh: Vec<String> = Vec::new();
        let mut at: usize = 0;
        let ghost page = connection_ids(list@);
        proof {
            assert(texts(fresh@) =~= Seq::<Seq<char>>::empty());
            assert(page.take(0).len() == 0);
        }
        while at < list.len()
            invariant
                at <= list.len(),
                page == connection_ids(list@),
                texts(fresh@) == enqueue(Seq::empty(), texts(self.attempted@), page.take(at as int)),
            decreases list.len() - at,
        {
            let id = &list[at].id;
            proof {
                assert(page.take(at + 1).drop_last() =~= page.take(at as int));
                assert(page.take(at + 1).last() == id@);
            }
            if position(&fresh, id).is_none() && position(&self.attempted, id).is_none() {
                proof {
                    lemma_texts_push(fresh@, *id);
                }
                fresh.push(id.clone());
            }
            at += 1;
        }
        proof {
            assert(page.take(at as int) =~= page);
        }
        fresh
    }

    /// Starts attempts for waiting identifiers while a slot is free.
    fn fill(&mut self, actions: &mut Vec<Action>)
        requires
            sound(old(self)@),
            old(self).cursor <= old(self).page.len(),
        ensures
            final(self).cursor <= final(self).page.len(),
            final(self)@ == (DispatcherView {
                waiting: old(self)@.waiting.skip(starting(old(self)@) as int),
                in_flight: old(self)@.in_flight + old(self)@.waiting.take(starting(old(self)@) as int),
                attempted: old(self)@.attempted + old(self)@.waiting.take(starting(old(self)@) as int),
                ..old(self)@
            }),
            action_views(final(actions)@) == action_views(old(actions)@) + sends(
                old(self)@.waiting.take(starting(old(self)@) as int),
                old(self)@.payload,
            ),
    {
        let ghost before = self@;
        let ghost asked = action_views(actions@);
        let ghost first = self.cursor as int;
        proof {
            assert(before.waiting.take(0) =~= Seq::<Seq<char>>::empty());
            assert(before.in_flight + before.waiting.take(0) =~= before.in_flight);
            assert(before.attempted + before.waiting.take(0) =~= before.attempted);
            assert(asked + sends(before.waiting.take(0), before.payload) =~= asked);
            assert(before.waiting.skip(0) =~= before.waiting);
        }
        while self.in_flight.len() + self.evicting.len() < self.limit && self.cursor < self.page.len()
            invariant
                0 <= first <= self.cursor <= self.page.len(),
                self.cursor - first <= starting(before),
                before.waiting == texts(self.page@).skip(first),
                self@ == (DispatcherView {
                    waiting: before.waiting.skip(self.cursor - first),
                    in_flight: before.in_flight + before.waiting.take(self.cursor - first),
                    attempted: before.attempted + before.waiting.take(self.cursor - first),
                    ..before
                }),
                action_views(actions@) == asked + sends(
                    before.waiting.take(self.cursor - first),
                    before.payload,
                ),
                busy(before) <= before.limit,
                self.in_flight.len() + self.evicting.len() == busy(before) + (self.cursor - first),
                self.limit == before.limit,
            decreases self.page.len() - self.cursor,
        {
            let ghost done = self.cursor - first;
            let ghost said = actions@;
            let id = self.page[self.cursor].clone();
            proof {
                assert(texts(self.page@)[self.cursor as int] == id@);
                assert(before.waiting.len() == self.page.len() - first);
                assert(before.waiting[done] == texts(self.page@)[first + done]);
                assert(before.waiting[done] == id@);
                assert(before.waiting.take(done + 1) =~= before.waiting.take(done).push(id@));
                lemma_texts_push(self.in_flight@, id);
                lemma_texts_push(self.attempted@, id);
            }
            let send = Action::Send { connection_id: id.clone(), data: copy_bytes(&self.payload) };
            actions.push(send);
            self.in_flight.push(id.clone());
            self.attempted.push(id);
            self.cursor += 1;
            proof {
                assert(actions@ == said.push(send));
                assert(action_views(actions@) =~= action_views(said).push(send@));
                assert(action_views(actions@) =~= asked + sends(
                    before.waiting.take(done + 1),
                    before.payload,
                ));
                assert(self@.waiting =~= before.waiting.skip(done + 1));
                assert(self@.in_flight =~= before.in_flight + before.waiting.take(done + 1));
                assert(self@.attempted =~= before.attempted + before.waiting.take(done + 1));
            }
        }
    }

    /// Fills the free slots, then asks for the next page if nobody waits, or
    /// answers the trigger if nothing is left at all.
    fn settle(&mut self, actions: &mut Vec<Action>)
        requires
            sound(old(self)@),
            old(self).cursor <= old(self).page.len(),
        ensures
            final(self).cursor <= final(self).page.len(),
            final(self)@ == settle(old(self)@, action_views(old(actions)@)).0,
            action_views(final(actions)@) == settle(old(self)@, action_views(old(actions)@)).1,
    {
        self.fill(actions);
        let ghost said = actions@;
        let nobody_waits = self.cursor == self.page.len();
        proof {
            assert(nobody_waits <==> self@.waiting.len() == 0);
        }
        if self.scan == Scan::Paused && nobody_waits {
            self.scan = Scan::Fetching;
            actions.push(Action::Fetch);
            proof {
                assert(action_views(actions@) =~= action_views(said).push(ActionView::Fetch));
            }
        } else if (self.scan == Scan::Ended || self.scan == Scan::Failed) && nobody_waits
            && self.in_flight.len() == 0 && self.evicting.len() == 0 {
            self.acknowledged = true;
            actions.push(Action::Acknowledge(Response { status_code: OK }));
            proof {
                assert(action_views(actions@) =~= action_views(said).push(ActionView::Acknowledge(OK)));
            }
        }
    }

    /// Takes in the page that was asked for.
    fn on_page(&mut self, list: &Vec<Connection>)
        requires
            old(self).wf(),
            answers(old(self)@, EventView::Page(connection_ids(list@))),
        ensures
            final(self).cursor <= final(self).page.len(),
            final(self)@ == told(old(self)@, EventView::Page(connection_ids(list@))),
    {
        let ghost before = self@;
        let fresh = self.fresh(list);
        proof {
            assert(before.waiting =~= Seq::<Seq<char>>::empty());
        }
        self.page = fresh;
        self.cursor = 0;
        self.scan = Scan::Paused;
        proof {
            assert(self@.waiting =~= enqueue(before.waiting, before.attempted, connection_ids(list@)));
        }
    }

    /// Takes in the answer to an attempt in flight, found at `at`.
    fn on_attempted(&mut self, at: usize, id: String, outcome: DeliveryOutcome, actions: &mut Vec<Action>)
        requires
            old(self).wf(),
            answers(old(self)@, EventView::Attempted(id@, outcome@)),
            at < old(self).in_flight.len(),
            old(self)@.in_flight[at as int] == id@,
            old(actions)@.len() == 0,
        ensures
            final(self).cursor == old(self).cursor,
            final(self).page == old(self).page,
            final(self)@ == told(old(self)@, EventView::Attempted(id@, outcome@)),
            action_views(final(actions)@) == evictions(EventView::Attempted(id@, outcome@)),
    {
        let ghost before = self@;
        proof {
            lemma_index_of(before.in_flight, id@, at as int);
            lemma_texts_remove(self.in_flight@, at as int);
            assert(self.delivered + self.failed < self.attempted.len());
        }
        self.in_flight.remove(at);
        match outcome {
            DeliveryOutcome::Delivered => {
                self.delivered += 1;
                proof {
                    assert(action_views(actions@) =~= Seq::<ActionView>::empty());
                }
            },
            DeliveryOutcome::Gone => {
                proof {
                    lemma_texts_push(self.evicting@, id);
                }
                actions.push(Action::Remove { connection_id: id.clone() });
                self.evicting.push(id);
                proof {
                    assert(action_views(actions@) =~= seq![ActionView::Remove(id@)]);
                }
            },
            DeliveryOutcome::TransientFailure(_) => {
                self.failed += 1;
                proof {
                    assert(action_views(actions@) =~= Seq::<ActionView>::empty());
                }
            },
        }
    }

    /// Takes in the end of a removal under way, found at `at`.
    fn on_removed(&mut self, at: usize, id: &String, done: bool)
        requires
            old(self).wf(),
            answers(old(self)@, EventView::Removed(id@, done)),
            at < old(self).evicting.len(),
            old(self)@.evicting[at as int] == id@,
        ensures
            final(self).cursor == old(self).cursor,
            final(self).page == old(self).page,
            final(self)@ == told(old(self)@, EventView::Removed(id@, done)),
    {
        let ghost before = self@;
        proof {
            lemma_index_of(before.evicting, id@, at as int);
            lemma_texts_remove(self.evicting@, at as int);
            assert(self.evicted + self.stranded < self.attempted.len());
        }
        self.evicting.remove(at);
        if done {
            self.evicted += 1;
        } else {
            self.stranded += 1;
        }
    }

    /// Takes in one event and says what to do next, in order.
    fn step(&mut self, event: Event) -> (actions: Vec<Action>)
        requires
            old(self).wf(),
        ensures
            final(self).wf(),
            final(self)@ == step(old(self)@, event@).0,
            action_views(actions@) == step(old(self)@, event@).1,
    {
        let ghost before = self@;
        let mut actions: Vec<Action> = Vec::new();
        proof {
            lemma_step_wf(before, event@);
            assert(action_views(actions@) =~= Seq::<ActionView>::empty());
            if answers(before, event@) {
                lemma_told_sound(before, event@);
            }
        }
        if self.acknowledged {
            return actions;
        }
        match event {
            Event::Page(list) => {
                if self.scan == Scan::Fetching {
                    self.on_page(&list);
                    self.settle(&mut actions);
                }
            },
            Event::ScanEnded => {
                if self.scan == Scan::Fetching {
                    self.scan = Scan::Ended;
                    self.settle(&mut actions);
                }
            },
            Event::ScanFailed(_) => {
                if self.scan == Scan::Fetching {
                    self.scan = Scan::Failed;
                    self.settle(&mut actions);
                }
            },
            Event::Attempted(id, outcome) => {
                match position(&self.in_flight, &id) {
                    Some(at) => {
                        self.on_attempted(at, id, outcome, &mut actions);
                        self.settle(&mut actions);
                    },
                    None => {},
                }
            },
            Event::Removed(id, done) => {
                match position(&self.evicting, &id) {
                    Some(at) => {
                        self.on_removed(at, &id, done);
                        self.settle(&mut actions);
                    },
                    None => {},
                }
            },
        }
        actions
    }
}

/// One broadcast under way.
///
/// A dispatcher is begun by `start` and fed by `step`. Every value of it is
/// one that a broadcast can be in: its view is always well-formed.
pub struct Dispatcher {
    core: Core,
}

impl Dispatcher {
    /// The state of the broadcast as plain values.
    pub closed spec fn view(&self) -> DispatcherView {
        self.core@
    }

    #[verifier::type_invariant]
    spec fn valid(&self) -> bool {
        self.core.wf()
    }

    /// Begins a broadcast of `payload` with at most `limit` connections
    /// worked on at once, and asks for the first page of the scan.
    pub fn start(payload: Vec<u8>, limit: usize) -> (begun: (Dispatcher, Vec<Action>))
        ensures
            begun.0@ == start(payload@, limit as nat),
            action_views(begun.1@) == seq![ActionView::Fetch],
            wf(begun.0@),
    {
        let dispatcher = Dispatcher { core: Core::start(payload, limit) };
        let mut actions: Vec<Action> = Vec::new();
        actions.push(Action::Fetch);
        proof {
            assert(action_views(actions@) =~= seq![ActionView::Fetch]);
        }
        (dispatcher, actions)
    }

    /// Takes in one event and says what to do next, in order.
    ///
    /// The driver carries out each action and reports what came of it, in
    /// whatever order the answers arrive. An event that answers nothing
    /// outstanding is ignored.
    pub fn step(&mut self, event: Event) -> (actions: Vec<Action>)
        ensures
            final(self)@ == step(old(self)@, event@).0,
            action_views(actions@) == step(old(self)@, event@).1,
            wf(old(self)@),
            wf(final(self)@),
    {
        proof {
            use_type_invariant(&*self);
        }
        let mut core = Core::start(Vec::new(), 1);
        core::mem::swap(&mut self.core, &mut core);
        let actions = core.step(event);
        self.core = core;
        actions
    }

    /// Whether the trigger has been answered: nothing is outstanding and
    /// nothing more will be asked for.
    pub fn is_finished(&self) -> (finished: bool)
        ensures
            finished == self@.acknowledged,
            wf(self@),
    {
        proof {
            use_type_invariant(self);
        }
        self.core.acknowledged
    }

    /// The most connections that are worked on at once.
    pub fn limit(&self) -> (limit: usize)
        ensures
            limit == self@.limit,
            limit >= 1,
    {
        proof {
            use_type_invariant(self);
        }
        self.core.limit
    }

    /// How many connections are being worked on: attempts in flight and
    /// removals under way. Never more than the limit.
    pub fn outstanding(&self) -> (count: usize)
        ensures
            count == busy(self@),
            count <= self@.limit,
    {
        proof {
            use_type_invariant(self);
        }
        self.core.in_flight.len() + self.core.evicting.len()
    }

    /// What the broadcast has come to so far.
    pub fn report(&self) -> (report: Report)
        ensures
            report.attempts == self@.attempted.len(),
            report.delivered == self@.delivered,
            report.failed == self@.failed,
            report.evicted == self@.evicted,
            report.stranded == self@.stranded,
            report.scan_failed == (self@.scan == Scan::Failed),
            self@.acknowledged ==> report.attempts == report.delivered + report.failed + report.evicted
                + report.stranded,
    {
        proof {
            use_type_invariant(self);
        }
        self.core.report()
    }
}

} // verus!
