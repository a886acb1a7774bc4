//! The storage layer: the dense two-dimensional gem container from the
//! `ndarray` crate, declared for the verifier, with trusted wrappers around
//! the few calls the engine makes, and the source of random bytes from the
//! `rand` crate.
//!
//! `cells_of` names what an array holds: its rows, top to bottom, each read
//! left to right. Every wrapper contract speaks of the contents through it.

use vstd::prelude::*;

verus! {

use crate::gem::Gem;

/// The dense two-dimensional gem container. It holds an `ndarray` array;
/// the verifier sees it only through `cells_of` and the wrappers below.
/// (The array type itself cannot be declared to the verifier: its `RawData`
/// bound would need a declaration of that trait, which Verus does not
/// support.)
#[verifier::external_body]
pub struct GemStore {
    arr: ndarray::Array2<Gem>,
}

/// What a store holds: a sequence of rows of gems.
pub uninterp spec fn cells_of(a: GemStore) -> Seq<Seq<Gem>>;

/// Relies on ndarray::Array2::from_elem: builds a lines-by-cols array with
/// every element the given one.
#[verifier::external_body]
pub(crate) fn arr_from_elem(lines: usize, cols: usize, gem: Gem) -> (a: GemStore)
    requires
        lines <= 255,
        cols <= 255,
    ensures
        cells_of(a).len() == lines,
        forall|i: int| 0 <= i < lines ==> (#[trigger] cells_of(a)[i]).len() == cols,
        forall|i: int, j: int|
            0 <= i < lines && 0 <= j < cols ==> cells_of(a)[i][j] == gem,
{
    GemStore { arr: ndarray::Array2::from_elem((lines, cols), gem) }
}

/// Relies on ndarray's Index impl for arrays: `a[[x, y]]` is the element in
/// row x, column y; the bounds are required since indexing out of the array
/// panics.
#[verifier::external_body]
pub(crate) fn arr_get(a: &GemStore, x: usize, y: usize) -> (g: Gem)
    requires
        x < cells_of(*a).len(),
        y < cells_of(*a)[x as int].len(),
    ensures
        g == cells_of(*a)[x as int][y as int],
{
    a.arr[[x, y]]
}

/// Relies on ndarray's IndexMut impl for arrays: `a[[x, y]] = g` replaces
/// the element in row x, column y and nothing else.
#[verifier::external_body]
pub(crate) fn arr_set(a: &mut GemStore, x: usize, y: usize, g: Gem)
    requires
        x < cells_of(*old(a)).len(),
        y < cells_of(*old(a))[x as int].len(),
    ensures
        cells_of(*final(a)) == cells_of(*old(a)).update(
            x as int,
            cells_of(*old(a))[x as int].update(y as int, g),
        ),
{
    a.arr[[x, y]] = g;
}

/// Relies on ndarray::ArrayBase::nrows on two-dimensional arrays: the
/// number of rows.
#[verifier::external_body]
pub(crate) fn arr_nrows(a: &GemStore) -> (n: usize)
    ensures
        n == cells_of(*a).len(),
{
    a.arr.nrows()
}

/// Relies on ndarray::ArrayBase::ncols on two-dimensional arrays: the
/// number of columns, which is the length of every row of the array.
#[verifier::external_body]
pub(crate) fn arr_ncols(a: &GemStore) -> (n: usize)
    ensures
        forall|i: int| 0 <= i < cells_of(*a).len() ==> (#[trigger] cells_of(*a)[i]).len() == n,
{
    a.arr.ncols()
}

/// Relies on rand::thread_rng and rand::Rng::gen: one random byte. Nothing
/// can be promised of the value.
#[verifier::external_body]
pub(crate) fn random_u8() -> u8 {
    rand::Rng::gen(&mut rand::thread_rng())
}

} // verus!
