//! The lookup index of an intern table: an Fx hash map from text to identifier.
//!
//! `fxhash::FxHashMap` is the standard library's `HashMap` with Fx as its
//! hasher. vstd's contracts for `HashMap` hold only for hashers and key types
//! that it knows to be well behaved, and it knows neither Fx nor `String`, so
//! they say nothing of this map. This module therefore states its own: what
//! the map holds is named by [`index_entries`], and each operation that the
//! table needs is a function here whose contract, over that name, is taken on
//! trust from the documentation of `HashMap` and the source of `fxhash`.
//! Nothing in this module is proved. Running out of memory is not modelled.

use fxhash::FxHashMap;
use vstd::prelude::*;

verus! {

/// `fxhash::FxHasher`, the hasher state behind every Fx hash map. Nothing is
/// claimed of it; it only has to be nameable in the index's type.
#[verifier::external_type_specification]
#[verifier::external_body]
pub struct ExFxHasher(fxhash::FxHasher);

/// `std::hash::BuildHasherDefault`, which makes each hasher from its
/// `Default`. Nothing is claimed of it either.
#[verifier::external_type_specification]
#[verifier::external_body]
#[verifier::reject_recursive_types(H)]
pub struct ExBuildHasherDefault<H>(std::hash::BuildHasherDefault<H>);

/// The lookup index: owned text as key, the text's identifier as value.
pub type Index = FxHashMap<String, u32>;

/// What an index holds: the identifier stored under each text that is a key.
/// The map tells keys apart by their content, so the model is keyed by
/// content.
pub uninterp spec fn index_entries(index: Index) -> Map<Seq<char>, u32>;

/// Calls `FxHashMap::default()`, which is `HashMap::default()` with the Fx
/// hasher builder. Trusted: the new map holds no entry.
#[verifier::external_body]
pub(crate) fn index_new() -> (fresh: Index)
    ensures
        index_entries(fresh) == (Map::<Seq<char>, u32>::empty()),
{
    FxHashMap::default()
}

/// Calls `HashMap::try_reserve`. Trusted: asking for room changes no entry,
/// whether or not the room could be had. Where it could not, the map says so
/// in the value it returns, which is dropped here.
#[verifier::external_body]
pub(crate) fn index_reserve(index: &mut Index, additional: usize)
    ensures
        index_entries(*final(index)) == index_entries(*old(index)),
{
    let _ = index.try_reserve(additional);
}

/// Calls `HashMap::get` with a borrowed text. Trusted: the answer is the
/// value stored under the key with that content, and `None` exactly when the
/// map has no such key. This rests on `String` hashing and comparing as the
/// `str` it borrows as, and on an Fx hasher starting from a fixed state and
/// depending on nothing but what is written to it.
#[verifier::external_body]
pub(crate) fn index_get<'a>(index: &'a Index, text: &str) -> (found: Option<&'a u32>)
    ensures
        found is Some <==> index_entries(*index).contains_key(text@),
        found is Some ==> *found->Some_0 == index_entries(*index)[text@],
{
    index.get(text)
}

/// Calls `HashMap::insert`. Trusted: afterwards the map holds `id` under the
/// content of `text` and is otherwise as it was. The value that was stored
/// under that content before, if there was one, is dropped.
#[verifier::external_body]
pub(crate) fn index_insert(index: &mut Index, text: String, id: u32)
    ensures
        index_entries(*final(index)) == index_entries(*old(index)).insert(text@, id),
{
    let _ = index.insert(text, id);
}

} // verus!
