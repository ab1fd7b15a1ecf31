//! The mathematical model of an intern table.
//!
//! A table is modelled by its store: the sequence of the distinct texts it
//! holds, in the order in which they were first interned. The identifier of a
//! text is its position in that sequence. Everything the table's operations
//! promise is stated over the functions of this module.

use vstd::prelude::*;
use vstd::seq_lib::lemma_seq_contains_after_push;

verus! {

/// The number of identifiers there are: they are 32 bits wide.
pub const ID_LIMIT: u64 = 0x1_0000_0000;

/// A store is valid when no text occurs in it twice and each of its positions
/// is an identifier.
pub open spec fn valid_store(store: Seq<Seq<char>>) -> bool {
    &&& store.no_duplicates()
    &&& store.len() <= ID_LIMIT
}

/// Whether `text` can be interned into `store`: it is there already, or there
/// is an identifier left for it.
pub open spec fn has_room(store: Seq<Seq<char>>, text: Seq<char>) -> bool {
    store.contains(text) || store.len() < ID_LIMIT
}

/// The store after `text` has been interned into `store`: unchanged if the
/// text is there already, else with the text appended.
pub open spec fn grown(store: Seq<Seq<char>>, text: Seq<char>) -> Seq<Seq<char>> {
    if store.contains(text) {
        store
    } else {
        store.push(text)
    }
}

/// The identifier that interning `text` into `store` gives: the position at
/// which the text stands already, else the next free position.
pub open spec fn assigned(store: Seq<Seq<char>>, text: Seq<char>) -> int {
    if store.contains(text) {
        store.index_of(text)
    } else {
        store.len() as int
    }
}

/// The text that `id` stands for in `store`, if it stands for one.
pub open spec fn resolve(store: Seq<Seq<char>>, id: int) -> Option<Seq<char>> {
    if 0 <= id < store.len() {
        Some(store[id])
    } else {
        None
    }
}

/// The store after each of `texts` has been interned into `store`, the first
/// of them first.
pub open spec fn grown_by(store: Seq<Seq<char>>, texts: Seq<Seq<char>>) -> Seq<Seq<char>>
    decreases texts.len(),
{
    if texts.len() == 0 {
        store
    } else {
        grown(grown_by(store, texts.drop_last()), texts.last())
    }
}

/// The identifier that `texts[k]` is given when `texts` are interned into
/// `store` one after the other.
pub open spec fn assigned_at(store: Seq<Seq<char>>, texts: Seq<Seq<char>>, k: int) -> int
    recommends
        0 <= k < texts.len(),
{
    assigned(grown_by(store, texts.take(k)), texts[k])
}

/// In a store without duplicates a text has one position only, and that is
/// where `assigned` finds it.
pub proof fn lemma_assigned_is_position(store: Seq<Seq<char>>, text: Seq<char>, at: int)
    requires
        store.no_duplicates(),
        0 <= at < store.len(),
        store[at] == text,
    ensures
        assigned(store, text) == at,
{
    assert(store.contains(text));
    let found = store.index_of(text);
    assert(0 <= found < store.len() && store[found] == text);
}

/// Interning never makes a text stand in the store twice.
pub proof fn lemma_grown_is_distinct(store: Seq<Seq<char>>, text: Seq<char>)
    requires
        store.no_duplicates(),
    ensures
        grown(store, text).no_duplicates(),
{
    if !store.contains(text) {
        let next = store.push(text);
        assert forall|i: int, j: int|
            0 <= i < next.len() && 0 <= j < next.len() && i != j implies next[i] != next[j] by {
            if i < store.len() && j < store.len() {
                assert(store[i] != store[j]);
            } else if i < store.len() {
                assert(store.contains(store[i]));
            } else {
                assert(store.contains(store[j]));
            }
        }
    }
}

/// Interning keeps a store valid as long as there is room for the text.
pub proof fn lemma_grown_is_valid(store: Seq<Seq<char>>, text: Seq<char>)
    requires
        valid_store(store),
        has_room(store, text),
    ensures
        valid_store(grown(store, text)),
{
    lemma_grown_is_distinct(store, text);
}

/// After interning, the store holds what it held before and the text, and
/// nothing else.
pub proof fn lemma_grown_holds_the_text(store: Seq<Seq<char>>, text: Seq<char>, other: Seq<char>)
    ensures
        grown(store, text).contains(other) <==> store.contains(other) || other == text,
{
    lemma_seq_contains_after_push(store, text, other);
}

} // verus!
