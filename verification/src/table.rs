//! The identifier table: a hash map from identifier to node index.
//!
//! The map is `rustc_hash::FxHashMap`, std's `HashMap` with the hasher of the
//! `rustc_hash` crate. Verus does not look inside it: what it holds is known
//! by the name [`table_entries`], and the three functions below state, without
//! proof, what the map's methods do to those entries.

use vstd::prelude::*;
use rustc_hash::FxHashMap;

verus! {

/// The hasher builder of `rustc_hash`, which the map's type names.
#[verifier::external_type_specification]
#[verifier::external_body]
pub struct ExFxBuildHasher(rustc_hash::FxBuildHasher);

/// The entries of an identifier table: each identifier, as a sequence of
/// characters, with the index stored for it.
pub uninterp spec fn table_entries(t: FxHashMap<String, usize>) -> Map<Seq<char>, usize>;

/// The entries of an empty table.
pub open spec fn no_entries() -> Map<Seq<char>, usize> {
    Map::empty()
}

/// `FxHashMap::default`: a table without entries.
#[verifier::external_body]
pub(crate) fn table_new() -> (table: FxHashMap<String, usize>)
    ensures
        table_entries(table) == no_entries(),
{
    FxHashMap::default()
}

/// `HashMap::get`: the index stored for `id`, if there is one.
#[verifier::external_body]
pub(crate) fn table_get(t: &FxHashMap<String, usize>, id: &String) -> (r: Option<usize>)
    ensures
        r == (if table_entries(*t).contains_key(id@) {
            Some(table_entries(*t)[id@])
        } else {
            None
        }),
{
    t.get(id).copied()
}

/// `HashMap::insert`: stores `index` for `id`, in place of what was stored
/// for it before, and leaves the other entries as they were.
#[verifier::external_body]
pub(crate) fn table_insert(t: &mut FxHashMap<String, usize>, id: String, index: usize)
    ensures
        table_entries(*final(t)) == table_entries(*old(t)).insert(id@, index),
{
    t.insert(id, index);
}

} // verus!
