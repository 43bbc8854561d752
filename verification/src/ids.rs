//! Lists of connection identifiers, seen through the text of each entry.

use vstd::prelude::*;

verus! {

/// The text of every identifier of a list, in order.
pub open spec fn texts(list: Seq<String>) -> Seq<Seq<char>> {
    Seq::new(list.len(), |i: int| list[i]@)
}

/// Appending an identifier appends its text.
pub proof fn lemma_texts_push(list: Seq<String>, id: String)
    ensures
        texts(list.push(id)) == texts(list).push(id@),
{
    assert(texts(list.push(id)) =~= texts(list).push(id@));
}

/// Taking an identifier out takes its text out.
pub proof fn lemma_texts_remove(list: Seq<String>, at: int)
    requires
        0 <= at < list.len(),
    ensures
        texts(list.remove(at)) == texts(list).remove(at),
{
    assert(texts(list.remove(at)) =~= texts(list).remove(at));
}

/// A list without repeated entries stays so when one entry leaves, and the
/// entry that left is no longer in it.
pub proof fn lemma_remove_keeps_distinct(list: Seq<Seq<char>>, at: int)
    requires
        0 <= at < list.len(),
        list.no_duplicates(),
    ensures
        list.remove(at).no_duplicates(),
        !list.remove(at).contains(list[at]),
        forall|id: Seq<char>|
            id != list[at] ==> (#[trigger] list.remove(at).contains(id) <==> list.contains(id)),
{
    let rest = list.remove(at);
    assert forall|i: int, j: int| 0 <= i < rest.len() && 0 <= j < rest.len() && i != j implies rest[i]
        != rest[j] by {
        let oi = if i < at { i } else { i + 1 };
        let oj = if j < at { j } else { j + 1 };
        assert(rest[i] == list[oi] && rest[j] == list[oj]);
    }
    if rest.contains(list[at]) {
        let i = choose|i: int| 0 <= i < rest.len() && rest[i] == list[at];
        let oi = if i < at { i } else { i + 1 };
        assert(list[oi] == list[at]);
    }
    assert forall|id: Seq<char>| id != list[at] implies (rest.contains(id) <==> list.contains(id)) by {
        if rest.contains(id) {
            let i = choose|i: int| 0 <= i < rest.len() && rest[i] == id;
            let oi = if i < at { i } else { i + 1 };
            assert(list[oi] == id);
        }
        if list.contains(id) {
            let i = choose|i: int| 0 <= i < list.len() && list[i] == id;
            let ri = if i < at { i } else { i - 1 };
            assert(rest[ri] == id);
        }
    }
}

/// A list without repeated entries stays so when an entry that it lacks is
/// appended.
pub proof fn lemma_push_keeps_distinct(list: Seq<Seq<char>>, id: Seq<char>)
    requires
        list.no_duplicates(),
        !list.contains(id),
    ensures
        list.push(id).no_duplicates(),
        forall|other: Seq<char>| #[trigger]
            list.push(id).contains(other) <==> (other == id || list.contains(other)),
{
    let grown = list.push(id);
    assert forall|other: Seq<char>| grown.contains(other) <==> (other == id || list.contains(other)) by {
        if grown.contains(other) {
            let i = choose|i: int| 0 <= i < grown.len() && grown[i] == other;
            if i < list.len() {
                assert(list[i] == other);
            }
        }
        if other == id {
            assert(grown[list.len() as int] == id);
        }
        if list.contains(other) {
            let i = choose|i: int| 0 <= i < list.len() && list[i] == other;
            assert(grown[i] == other);
        }
    }
}

/// Finds where an identifier stands in a list: the first entry with its text.
pub fn position(list: &Vec<String>, id: &String) -> (found: Option<usize>)
    ensures
        match found {
            Some(at) => at < list.len() && texts(list@)[at as int] == id@ && texts(list@).contains(
                id@,
            ) && !texts(list@).take(at as int).contains(id@),
            None => !texts(list@).contains(id@),
        },
{
    let mut at: usize = 0;
    while at < list.len()
        invariant
            at <= list.len(),
            !texts(list@).take(at as int).contains(id@),
        decreases list.len() - at,
    {
        if list[at] == *id {
            assert(texts(list@)[at as int] == id@);
            return Some(at);
        }
        proof {
            let before = texts(list@).take(at as int);
            let after = texts(list@).take(at + 1);
            assert(after =~= before.push(list[at as int]@));
            if after.contains(id@) {
                let i = choose|i: int| 0 <= i < after.len() && after[i] == id@;
                if i < at {
                    assert(before[i] == id@);
                }
            }
        }
        at += 1;
    }
    proof {
        assert(texts(list@).take(at as int) =~= texts(list@));
    }
    None
}

} // verus!
