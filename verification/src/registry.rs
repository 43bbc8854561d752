//! The connection registry: the set of identifiers that are tracked as live.

use crate::ids::{
    lemma_push_keeps_distinct, lemma_remove_keeps_distinct, lemma_texts_push, lemma_texts_remove, position,
    texts,
};
use vstd::prelude::*;

verus! {

/// One live push-capable session, known only by its identifier.
#[derive(Clone, Debug, PartialEq, Eq)]
pub struct Connection {
    pub id: String,
}

/// One change of a single entry of the store.
#[derive(Clone, Debug, PartialEq, Eq)]
pub enum Change {
    /// Track the connection.
    Add(Connection),
    /// Stop tracking the connection.
    Remove(Connection),
}

/// A change, with the identifier as text.
pub enum ChangeView {
    Add(Seq<char>),
    Remove(Seq<char>),
}

impl View for Change {
    type V = ChangeView;

    open spec fn view(&self) -> ChangeView {
        match self {
            Change::Add(connection) => ChangeView::Add(connection.id@),
            Change::Remove(connection) => ChangeView::Remove(connection.id@),
        }
    }
}

/// What a store holds after one change.
pub open spec fn applied(held: Set<Seq<char>>, change: ChangeView) -> Set<Seq<char>> {
    match change {
        ChangeView::Add(id) => held.insert(id),
        ChangeView::Remove(id) => held.remove(id),
    }
}

/// What a store holds once each identifier of a list has been removed from
/// it, in the order of the list.
pub open spec fn evicted(held: Set<Seq<char>>, gone: Seq<Seq<char>>) -> Set<Seq<char>>
    decreases gone.len(),
{
    if gone.len() == 0 {
        held
    } else {
        evicted(held, gone.drop_last()).remove(gone.last())
    }
}

/// Whether `merged` holds the entries of `first` and those of `second`, each
/// list in its own order, woven together in some way.
pub open spec fn interleaves(first: Seq<Seq<char>>, second: Seq<Seq<char>>, merged: Seq<Seq<char>>) -> bool
    decreases merged.len(),
{
    if merged.len() == 0 {
        first.len() == 0 && second.len() == 0
    } else {
        ||| first.len() > 0 && first.last() == merged.last() && interleaves(
            first.drop_last(),
            second,
            merged.drop_last(),
        )
        ||| second.len() > 0 && second.last() == merged.last() && interleaves(
            first,
            second.drop_last(),
            merged.drop_last(),
        )
    }
}

/// A set of connection identifiers.
///
/// Adding and removing are idempotent, so hooks and broadcasts that race on
/// one identifier need no lock: the second of two equal operations changes
/// nothing.
pub struct Registry {
    ids: Vec<String>,
}

impl Registry {
    /// The identifiers that the registry holds.
    pub closed spec fn view(&self) -> Set<Seq<char>> {
        texts(self.ids@).to_set()
    }

    #[verifier::type_invariant]
    spec fn distinct(&self) -> bool {
        texts(self.ids@).no_duplicates()
    }

    /// A registry that tracks nothing.
    pub fn new() -> (registry: Registry)
        ensures
            registry@ == Set::<Seq<char>>::empty(),
    {
        let registry = Registry { ids: Vec::new() };
        assert(registry@ =~= Set::<Seq<char>>::empty());
        registry
    }

    /// Whether an identifier is tracked.
    pub fn contains(&self, id: &String) -> (held: bool)
        ensures
            held == self@.contains(id@),
    {
        position(&self.ids, id).is_some()
    }

    /// Tracks an identifier. One that is tracked already stays, once.
    pub fn add(&mut self, id: &String)
        ensures
            final(self)@ == old(self)@.insert(id@),
    {
        proof {
            use_type_invariant(&*self);
        }
        if position(&self.ids, id).is_none() {
            let mut ids: Vec<String> = Vec::new();
            core::mem::swap(&mut self.ids, &mut ids);
            proof {
                lemma_texts_push(ids@, *id);
                lemma_push_keeps_distinct(texts(ids@), id@);
            }
            ids.push(id.clone());
            self.ids = ids;
            assert(self@ =~= old(self)@.insert(id@));
        } else {
            assert(self@ =~= old(self)@.insert(id@));
        }
    }

    /// Stops tracking an identifier. One that is not tracked is no error.
    pub fn remove(&mut self, id: &String)
        ensures
            final(self)@ == old(self)@.remove(id@),
    {
        proof {
            use_type_invariant(&*self);
        }
        match position(&self.ids, id) {
            Some(at) => {
                let mut ids: Vec<String> = Vec::new();
                core::mem::swap(&mut self.ids, &mut ids);
                proof {
                    lemma_texts_remove(ids@, at as int);
                    lemma_remove_keeps_distinct(texts(ids@), at as int);
                }
                ids.remove(at);
                self.ids = ids;
                assert(self@ =~= old(self)@.remove(id@));
            },
            None => {
                assert(self@ =~= old(self)@.remove(id@));
            },
        }
    }

    /// Carries out one change.
    pub fn apply(&mut self, change: &Change)
        ensures
            final(self)@ == applied(old(self)@, change@),
    {
        match change {
            Change::Add(connection) => self.add(&connection.id),
            Change::Remove(connection) => self.remove(&connection.id),
        }
    }

    /// How many identifiers are tracked.
    pub fn len(&self) -> (count: usize)
        ensures
            self@.finite(),
            count == self@.len(),
    {
        proof {
            use_type_invariant(self);
            texts(self.ids@).unique_seq_to_set();
        }
        self.ids.len()
    }

    /// Whether nothing is tracked.
    pub fn is_empty(&self) -> (empty: bool)
        ensures
            empty == (self@ == Set::<Seq<char>>::empty()),
    {
        proof {
            if self.ids.len() == 0 {
                assert(self@ =~= Set::<Seq<char>>::empty());
            } else {
                assert(texts(self.ids@)[0] == self.ids[0]@);
                assert(self@.contains(self.ids[0]@));
            }
        }
        self.ids.len() == 0
    }

    /// Every tracked connection, each once, in no promised order.
    pub fn scan_all(&self) -> (found: Vec<Connection>)
        ensures
            connection_ids(found@).no_duplicates(),
            connection_ids(found@).to_set() == self@,
    {
        proof {
            use_type_invariant(self);
        }
        let mut found: Vec<Connection> = Vec::new();
        let mut at: usize = 0;
        while at < self.ids.len()
            invariant
                at <= self.ids.len(),
                connection_ids(found@) == texts(self.ids@).take(at as int),
            decreases self.ids.len() - at,
        {
            let ghost before = found@;
            let connection = Connection { id: self.ids[at].clone() };
            found.push(connection);
            proof {
                assert(found@ == before.push(connection));
                assert(connection_ids(found@) =~= connection_ids(before).push(connection.id@));
                assert(texts(self.ids@).take(at + 1) =~= texts(self.ids@).take(at as int).push(
                    self.ids[at as int]@,
                ));
            }
            at += 1;
        }
        proof {
            assert(texts(self.ids@).take(at as int) =~= texts(self.ids@));
        }
        found
    }
}

/// The identifiers of a list of connections, in order.
pub open spec fn connection_ids(list: Seq<Connection>) -> Seq<Seq<char>> {
    Seq::new(list.len(), |i: int| list[i].id@)
}

/// Idempotence: a change made twice leaves what the change made once
/// leaves. An identifier added twice is held once, since a set holds nothing
/// twice; one removed twice is simply not there.
pub proof fn lemma_change_is_idempotent(held: Set<Seq<char>>, change: ChangeView)
    ensures
        applied(applied(held, change), change) == applied(held, change),
        change matches ChangeView::Add(id) ==> applied(held, change).contains(id),
        change matches ChangeView::Remove(id) ==> !applied(held, change).contains(id),
{
    assert(applied(applied(held, change), change) =~= applied(held, change));
}

/// Changes to different identifiers do not disturb each other: they may be
/// made in either order.
pub proof fn lemma_changes_commute(held: Set<Seq<char>>, one: ChangeView, other: ChangeView)
    requires
        changed(one) != changed(other),
    ensures
        applied(applied(held, one), other) == applied(applied(held, other), one),
{
    assert(applied(applied(held, one), other) =~= applied(applied(held, other), one));
}

/// The identifier that a change is about.
pub open spec fn changed(change: ChangeView) -> Seq<char> {
    match change {
        ChangeView::Add(id) => id,
        ChangeView::Remove(id) => id,
    }
}

/// Removing a list of identifiers leaves what was held, less the list: the
/// order of the removals and their repetitions do not matter.
pub proof fn lemma_evicted(held: Set<Seq<char>>, gone: Seq<Seq<char>>)
    ensures
        evicted(held, gone) == held.difference(gone.to_set()),
    decreases gone.len(),
{
    if gone.len() == 0 {
        assert(evicted(held, gone) =~= held.difference(gone.to_set()));
    } else {
        let front = gone.drop_last();
        lemma_evicted(held, front);
        assert forall|id: Seq<char>| gone.to_set().contains(id) <==> front.to_set().contains(id) || id
            == gone.last() by {
            if gone.contains(id) {
                let i = choose|i: int| 0 <= i < gone.len() && gone[i] == id;
                if i < front.len() {
                    assert(front[i] == id);
                }
            }
            if front.contains(id) {
                let i = choose|i: int| 0 <= i < front.len() && front[i] == id;
                assert(gone[i] == id);
            }
            if id == gone.last() {
                assert(gone[gone.len() - 1] == id);
            }
        }
        assert(evicted(held, gone) =~= held.difference(gone.to_set()));
    }
}

/// What two lists woven together hold is what either of them holds.
pub proof fn lemma_interleaving_holds_both(
    first: Seq<Seq<char>>,
    second: Seq<Seq<char>>,
    merged: Seq<Seq<char>>,
)
    requires
        interleaves(first, second, merged),
    ensures
        merged.to_set() == first.to_set().union(second.to_set()),
    decreases merged.len(),
{
    if merged.len() == 0 {
        assert(merged.to_set() =~= first.to_set().union(second.to_set()));
    } else {
        let last = merged.last();
        let front = merged.drop_last();
        assert(front.push(last) =~= merged);
        front.lemma_push_to_set_commute(last);
        if first.len() > 0 && first.last() == last && interleaves(first.drop_last(), second, front) {
            lemma_interleaving_holds_both(first.drop_last(), second, front);
            assert(first.drop_last().push(last) =~= first);
            first.drop_last().lemma_push_to_set_commute(last);
            assert(merged.to_set() =~= first.to_set().union(second.to_set()));
        } else {
            lemma_interleaving_holds_both(first, second.drop_last(), front);
            assert(second.drop_last().push(last) =~= second);
            second.drop_last().lemma_push_to_set_commute(last);
            assert(merged.to_set() =~= first.to_set().union(second.to_set()));
        }
    }
}

/// Overlapping broadcasts lose no eviction: however the removals of two of
/// them interleave at the store, it ends up holding what it held, less
/// everything that either removed, which is what the two would have left
/// had one run after the other.
pub proof fn lemma_interleaved_evictions(
    held: Set<Seq<char>>,
    first: Seq<Seq<char>>,
    second: Seq<Seq<char>>,
    merged: Seq<Seq<char>>,
)
    requires
        interleaves(first, second, merged),
    ensures
        evicted(held, merged) == held.difference(first.to_set().union(second.to_set())),
        evicted(held, merged) == evicted(evicted(held, first), second),
        evicted(held, merged) == evicted(evicted(held, second), first),
{
    lemma_interleaving_holds_both(first, second, merged);
    lemma_evicted(held, merged);
    lemma_evicted(held, first);
    lemma_evicted(held, second);
    lemma_evicted(evicted(held, first), second);
    lemma_evicted(evicted(held, second), first);
    assert(held.difference(first.to_set()).difference(second.to_set()) =~= held.difference(
        first.to_set().union(second.to_set()),
    ));
    assert(held.difference(second.to_set()).difference(first.to_set()) =~= held.difference(
        first.to_set().union(second.to_set()),
    ));
}

} // verus!
