//! The laws of interning, proved of the model that the table's contracts are
//! stated over: whatever sequence of texts is interned into whatever store,
//! these hold.

use crate::model::{
    assigned, assigned_at, grown, grown_by, lemma_grown_holds_the_text, lemma_grown_is_distinct,
    resolve,
};
use vstd::prelude::*;
use vstd::seq_lib::{lemma_seq_concat_contains_all_elements, lemma_seq_contains_after_push};

verus! {

/// Interning the same text twice in a row gives the same identifier both
/// times, and the second call changes nothing: over the two calls the store
/// grows by one entry if the text was new, and not at all if it was known.
pub proof fn lemma_intern_is_idempotent(store: Seq<Seq<char>>, text: Seq<char>)
    ensures
        grown(grown(store, text), text) == grown(store, text),
        assigned(grown(store, text), text) == assigned(store, text),
        !store.contains(text) ==> grown(grown(store, text), text).len() == store.len() + 1,
        store.contains(text) ==> grown(grown(store, text), text).len() == store.len(),
{
    let once = grown(store, text);
    lemma_grown_holds_the_text(store, text, text);
    if !store.contains(text) {
        let found = once.index_of(text);
        assert(0 <= found < once.len() && once[found] == text);
        if found < store.len() {
            assert(store[found] == text);
        }
    }
}

/// The identifier that interning a text gives resolves to that text.
pub proof fn lemma_intern_round_trips(store: Seq<Seq<char>>, text: Seq<char>)
    ensures
        resolve(grown(store, text), assigned(store, text)) == Some(text),
{
    if store.contains(text) {
        let found = store.index_of(text);
        assert(0 <= found < store.len() && store[found] == text);
    }
}

/// Interning a text takes nothing away: every identifier that resolved
/// before resolves to the same text afterwards.
pub proof fn lemma_intern_keeps_identifiers(store: Seq<Seq<char>>, text: Seq<char>, id: int)
    requires
        0 <= id < store.len(),
    ensures
        resolve(grown(store, text), id) == resolve(store, id),
{
}

/// An identifier that has not been given out resolves to nothing.
pub proof fn lemma_unissued_identifier_is_absent(store: Seq<Seq<char>>, id: int)
    requires
        id >= store.len(),
    ensures
        resolve(store, id) is None,
{
}

/// Interning `first` and then `rest` is interning the two in one run.
pub proof fn lemma_grown_by_in_two_runs(
    store: Seq<Seq<char>>,
    first: Seq<Seq<char>>,
    rest: Seq<Seq<char>>,
)
    ensures
        grown_by(store, first + rest) == grown_by(grown_by(store, first), rest),
    decreases rest.len(),
{
    if rest.len() == 0 {
        assert(first + rest =~= first);
    } else {
        lemma_grown_by_in_two_runs(store, first, rest.drop_last());
        assert((first + rest).drop_last() =~= first + rest.drop_last());
    }
}

/// However many texts are interned, no text comes to stand in the store
/// twice.
pub proof fn lemma_growth_keeps_distinctness(store: Seq<Seq<char>>, texts: Seq<Seq<char>>)
    requires
        store.no_duplicates(),
    ensures
        grown_by(store, texts).no_duplicates(),
    decreases texts.len(),
{
    if texts.len() > 0 {
        lemma_growth_keeps_distinctness(store, texts.drop_last());
        lemma_grown_is_distinct(grown_by(store, texts.drop_last()), texts.last());
    }
}

/// After a run of interning the store holds what it held before and the
/// texts of the run, and nothing else.
pub proof fn lemma_growth_holds_exactly_the_texts(store: Seq<Seq<char>>, texts: Seq<Seq<char>>)
    ensures
        forall|text: Seq<char>| #[trigger]
            grown_by(store, texts).contains(text) <==> store.contains(text) || texts.contains(
                text,
            ),
    decreases texts.len(),
{
    if texts.len() > 0 {
        let init = texts.drop_last();
        lemma_growth_holds_exactly_the_texts(store, init);
        assert(texts =~= init.push(texts.last()));
        assert forall|text: Seq<char>| #[trigger]
            grown_by(store, texts).contains(text) <==> store.contains(text) || texts.contains(
                text,
            ) by {
            lemma_grown_holds_the_text(grown_by(store, init), texts.last(), text);
            lemma_seq_contains_after_push(init, texts.last(), text);
        }
    }
}

/// Growth only appends: whatever stood in the store before a run of interning
/// stands at the same position after it.
pub proof fn lemma_growth_extends(store: Seq<Seq<char>>, texts: Seq<Seq<char>>)
    ensures
        store.len() <= grown_by(store, texts).len(),
        forall|id: int|
            0 <= id < store.len() ==> #[trigger] grown_by(store, texts)[id] == store[id],
    decreases texts.len(),
{
    if texts.len() > 0 {
        lemma_growth_extends(store, texts.drop_last());
    }
}

/// Stability under growth: after a run of interning, every identifier that
/// resolved before the run still resolves to the same text, and every
/// identifier given out during the run resolves to the text it was given for,
/// however much the store has grown since.
pub proof fn lemma_growth_keeps_identifiers(store: Seq<Seq<char>>, texts: Seq<Seq<char>>)
    ensures
        forall|id: int|
            0 <= id < store.len() ==> #[trigger] resolve(grown_by(store, texts), id) == resolve(
                store,
                id,
            ),
        forall|k: int|
            0 <= k < texts.len() ==> resolve(
                grown_by(store, texts),
                #[trigger] assigned_at(store, texts, k),
            ) == Some(texts[k]),
{
    lemma_growth_extends(store, texts);
    assert forall|k: int| 0 <= k < texts.len() implies resolve(
        grown_by(store, texts),
        #[trigger] assigned_at(store, texts, k),
    ) == Some(texts[k]) by {
        let before = grown_by(store, texts.take(k));
        let after = grown(before, texts[k]);
        lemma_intern_round_trips(before, texts[k]);
        assert(texts.take(k + 1).drop_last() =~= texts.take(k));
        assert(grown_by(store, texts.take(k + 1)) == after);
        assert(texts =~= texts.take(k + 1) + texts.skip(k + 1));
        lemma_grown_by_in_two_runs(store, texts.take(k + 1), texts.skip(k + 1));
        lemma_growth_extends(after, texts.skip(k + 1));
    }
}

/// Equal texts share an identifier: wherever a text occurs again in a run of
/// interning, and whatever was interned in between, it is given the
/// identifier that it was given the first time.
pub proof fn lemma_equal_texts_share_identifier(
    store: Seq<Seq<char>>,
    texts: Seq<Seq<char>>,
    j: int,
    k: int,
)
    requires
        store.no_duplicates(),
        0 <= j < texts.len(),
        0 <= k < texts.len(),
        texts[j] == texts[k],
    ensures
        assigned_at(store, texts, j) == assigned_at(store, texts, k),
{
    let end = grown_by(store, texts);
    lemma_growth_keeps_identifiers(store, texts);
    lemma_growth_keeps_distinctness(store, texts);
    assert(resolve(end, assigned_at(store, texts, j)) == Some(texts[j]));
    assert(resolve(end, assigned_at(store, texts, k)) == Some(texts[k]));
}

/// Density: new texts are numbered in the order in which they come. If the
/// texts are distinct and none of them is in the store, the store after the
/// run is the store before it followed by the texts, and the text at place
/// `k` of the run is given the identifier `store.len() + k`.
pub proof fn lemma_new_texts_get_next_identifiers(store: Seq<Seq<char>>, texts: Seq<Seq<char>>)
    requires
        texts.no_duplicates(),
        forall|k: int| 0 <= k < texts.len() ==> !store.contains(#[trigger] texts[k]),
    ensures
        grown_by(store, texts) == store + texts,
        forall|k: int|
            0 <= k < texts.len() ==> #[trigger] assigned_at(store, texts, k) == store.len() + k,
    decreases texts.len(),
{
    if texts.len() == 0 {
        assert(store + texts =~= store);
    } else {
        let init = texts.drop_last();
        let text = texts.last();
        lemma_new_texts_get_next_identifiers(store, init);
        assert(!(store + init).contains(text)) by {
            lemma_seq_concat_contains_all_elements(store, init, text);
            if init.contains(text) {
                let at = init.index_of(text);
                assert(texts[at] == texts[texts.len() - 1]);
            }
        }
        assert((store + init).push(text) =~= store + texts);
        assert forall|k: int| 0 <= k < texts.len() implies #[trigger] assigned_at(store, texts, k)
            == store.len() + k by {
            if k < init.len() {
                assert(init.take(k) =~= texts.take(k));
                assert(assigned_at(store, init, k) == store.len() + k);
            } else {
                assert(texts.take(k) =~= init);
            }
        }
    }
}

/// Density from the start: interning `n` distinct texts into an empty store
/// gives the identifiers `0, 1, ..., n - 1` in that order, and the store then
/// holds exactly those texts in that order.
pub proof fn lemma_distinct_texts_get_dense_identifiers(texts: Seq<Seq<char>>)
    requires
        texts.no_duplicates(),
    ensures
        grown_by(Seq::empty(), texts) == texts,
        forall|k: int|
            0 <= k < texts.len() ==> #[trigger] assigned_at(Seq::empty(), texts, k) == k,
{
    let nothing = Seq::<Seq<char>>::empty();
    lemma_new_texts_get_next_identifiers(nothing, texts);
    assert(nothing + texts =~= texts);
}

/// After a run of interning the store has one entry for each distinct text
/// of the store before the run and the run together.
pub proof fn lemma_store_counts_distinct_texts(store: Seq<Seq<char>>, texts: Seq<Seq<char>>)
    requires
        store.no_duplicates(),
    ensures
        grown_by(store, texts).len() == (store + texts).to_set().len(),
{
    let end = grown_by(store, texts);
    lemma_growth_keeps_distinctness(store, texts);
    lemma_growth_holds_exactly_the_texts(store, texts);
    end.unique_seq_to_set();
    assert forall|text: Seq<char>| end.contains(text) <==> (store + texts).contains(text) by {
        lemma_seq_concat_contains_all_elements(store, texts, text);
    }
    assert(end.to_set() =~= (store + texts).to_set());
}

/// Density, whatever is repeated: a text that appears for the first time is
/// given the number of distinct texts before it as its identifier. Repeats in
/// between use up no identifier.
pub proof fn lemma_first_appearance_counts_distinct_texts(
    store: Seq<Seq<char>>,
    texts: Seq<Seq<char>>,
    k: int,
)
    requires
        store.no_duplicates(),
        0 <= k < texts.len(),
        !store.contains(texts[k]),
        !texts.take(k).contains(texts[k]),
    ensures
        assigned_at(store, texts, k) == (store + texts.take(k)).to_set().len(),
{
    lemma_store_counts_distinct_texts(store, texts.take(k));
    lemma_growth_holds_exactly_the_texts(store, texts.take(k));
}

} // verus!
