//! The intern table: an append-only store of texts and a lookup index over it.

use crate::index::{index_entries, index_get, index_insert, index_new, index_reserve, Index};
use crate::model::{
    assigned, grown, has_room, lemma_assigned_is_position, lemma_grown_is_valid, resolve,
    valid_store,
};
use vstd::prelude::*;

verus! {

/// The identifier of an interned text: its position in the table's store.
pub type InternId = u32;

/// A string-interning table.
///
/// Each distinct text that is interned gets the next identifier, starting at
/// zero; interning a text again gives the identifier it already has. Texts are
/// never removed, so an identifier stays good for as long as the table lives.
///
/// The table's view is its store: the interned texts in the order of their
/// identifiers.
pub struct Intern {
    /// The identifier of every text in `list`, found by the text's content.
    /// The keys are copies of the texts: the index borrows nothing from the
    /// store, so the store may grow and move freely.
    index: Index,
    /// The interned texts, each at the position that is its identifier.
    list: Vec<String>,
}

impl View for Intern {
    type V = Seq<Seq<char>>;

    closed spec fn view(&self) -> Seq<Seq<char>> {
        Seq::new(self.list@.len(), |at: int| self.list@[at]@)
    }
}

/// The content of a text that was looked up, if one was found.
pub open spec fn content(found: Option<&str>) -> Option<Seq<char>> {
    match found {
        Some(text) => Some(text@),
        None => None,
    }
}

impl Intern {
    /// The index and the store agree: the index holds each stored text under
    /// its position, and holds nothing else, so it has as many entries as the
    /// store has texts.
    pub closed spec fn indexed(&self) -> bool {
        let entries = index_entries(self.index);
        &&& forall|at: int|
            0 <= at < self@.len() ==> entries.contains_key(#[trigger] self@[at])
                && entries[self@[at]] == at
        &&& forall|text: Seq<char>| #[trigger]
            entries.contains_key(text) ==> entries[text] < self@.len()
                && self@[entries[text] as int] == text
        &&& entries.dom().finite()
        &&& entries.len() == self@.len()
    }

    /// The table's invariant: no text is stored twice, every position is an
    /// identifier, and the index agrees with the store.
    pub open spec fn wf(&self) -> bool {
        &&& valid_store(self@)
        &&& self.indexed()
    }

    /// Creates an empty table.
    pub fn new() -> (table: Self)
        ensures
            table.wf(),
            table@ == Seq::<Seq<char>>::empty(),
    {
        Intern { index: index_new(), list: Vec::new() }
    }

    /// Creates an empty table with room set aside for `capacity` texts.
    ///
    /// The capacity is a hint. It changes nothing that can be observed of the
    /// table, and where the room cannot be had the table is made without it.
    pub fn with_capacity(capacity: usize) -> (table: Self)
        ensures
            table.wf(),
            table@ == Seq::<Seq<char>>::empty(),
    {
        let mut index = index_new();
        let mut list: Vec<String> = Vec::new();
        index_reserve(&mut index, capacity);
        let _ = list.try_reserve(capacity);
        Intern { index, list }
    }

    /// Interns `input` and returns its identifier.
    ///
    /// A text that the table holds already keeps its identifier and the table
    /// is left as it was. A new text is copied, appended to the store, and
    /// then entered in the index under the position it was appended at, which
    /// is its identifier. The store is extended before the index, so the index
    /// never names a position that the store does not have.
    ///
    /// The caller sees to it that there is an identifier left for a new text.
    pub fn intern(&mut self, input: &str) -> (id: InternId)
        requires
            old(self).wf(),
            has_room(old(self)@, input@),
        ensures
            final(self).wf(),
            final(self)@ == grown(old(self)@, input@),
            id == assigned(old(self)@, input@),
            resolve(final(self)@, id as int) == Some(input@),
    {
        if let Some(known) = index_get(&self.index, input) {
            let id = *known;
            proof {
                lemma_assigned_is_position(self@, input@, id as int);
            }
            return id;
        }
        // Both copies are made before anything is changed.
        let stored = input.to_owned();
        let key = input.to_owned();
        let id = self.list.len() as InternId;
        self.list.push(stored);
        assert(self@ =~= old(self)@.push(input@));
        index_insert(&mut self.index, key, id);
        proof {
            lemma_grown_is_valid(old(self)@, input@);
        }
        id
    }

    /// Returns the text that `id` stands for.
    ///
    /// The caller sees to it that `id` is one that this table has given out;
    /// where that is not known, `try_lookup` is the call to make.
    pub fn lookup(&self, id: InternId) -> (text: &str)
        requires
            (id as int) < self@.len(),
        ensures
            resolve(self@, id as int) == Some(text@),
    {
        self.list[id as usize].as_str()
    }

    /// Returns the text that `id` stands for, or `None` where the table has
    /// not given out `id`.
    pub fn try_lookup(&self, id: InternId) -> (text: Option<&str>)
        ensures
            content(text) == resolve(self@, id as int),
            text is None <==> (id as int) >= self@.len(),
    {
        let at = id as usize;
        if at < self.list.len() {
            Some(self.list[at].as_str())
        } else {
            None
        }
    }
}

impl Default for Intern {
    /// The default table is the empty table.
    fn default() -> (table: Self)
        ensures
            table.wf(),
            table@ == Seq::<Seq<char>>::empty(),
    {
        Intern::new()
    }
}

} // verus!
