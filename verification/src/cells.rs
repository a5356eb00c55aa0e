//! The cell store of a tape: a hash map from values to values, with the
//! contracts that the tape's instructions rest on.

use crate::value::{Value, ValueView};
use fxhash::FxHashMap;
use vstd::prelude::*;

verus! {

/// `fxhash::FxHasher`, the hasher of the cell store.
#[verifier::external_type_specification]
#[verifier::external_body]
pub struct ExFxHasher(fxhash::FxHasher);

/// `std::hash::BuildHasherDefault`, which makes the hashers of a map
/// from the hasher's `Default`.
#[verifier::external_type_specification]
#[verifier::external_body]
#[verifier::reject_recursive_types(H)]
pub struct ExBuildHasherDefault<H>(std::hash::BuildHasherDefault<H>);

/// The cells of a tape, keyed by position.
pub type Cells = FxHashMap<Value, Value>;

/// The cells that a store holds: which positions are filled, and with
/// what. Positions and contents are taken by their views, so two keys
/// that show the same value are one position.
pub uninterp spec fn cell_map(cells: Cells) -> Map<ValueView, ValueView>;

/// A store without cells.
pub open spec fn no_cells() -> Map<ValueView, ValueView> {
    Map::empty()
}

/// `FxHashMap::default`: an empty store.
#[verifier::external_body]
pub(crate) fn cells_new() -> (cells: Cells)
    ensures
        cell_map(cells) == no_cells(),
{
    FxHashMap::default()
}

/// `HashMap::get`: the content of the cell at `key`, if that cell is
/// filled. The map finds a key by `Value`'s `Hash` and `Eq`, which go by
/// variant and content, as the view does.
#[verifier::external_body]
pub(crate) fn cells_get<'a>(cells: &'a Cells, key: &Value) -> (r: Option<&'a Value>)
    ensures
        match r {
            Some(v) => cell_map(*cells).contains_key(key@) && v@ == cell_map(*cells)[key@],
            None => !cell_map(*cells).contains_key(key@),
        },
{
    cells.get(key)
}

/// `HashMap::insert`: the cell at `key` now holds `value`, and every other
/// cell is as it was.
#[verifier::external_body]
pub(crate) fn cells_insert(cells: &mut Cells, key: Value, value: Value)
    ensures
        cell_map(*final(cells)) == cell_map(*old(cells)).insert(key@, value@),
{
    cells.insert(key, value);
}

/// `HashMap::clone`: a store with the same cells.
#[verifier::external_body]
pub(crate) fn cells_clone(cells: &Cells) -> (r: Cells)
    ensures
        cell_map(r) == cell_map(*cells),
{
    cells.clone()
}

} // verus!
