//! The solid-boundary geometry of the lattice.
use vstd::prelude::*;
use ndarray::Array2;

verus! {

/// The solid flags of a lattice, held in an `ndarray::Array2<bool>` indexed
/// by `[x, y]`: `true` marks a wall cell, `false` a fluid cell.
#[verifier::external_body]
pub struct SolidFlags {
    cells: Array2<bool>,
}

/// What the solid flags hold: the flag at each index `(x, y)` that lies
/// inside the array's shape, and nothing else.
pub uninterp spec fn flag_cells(a: SolidFlags) -> Map<(int, int), bool>;

/// The index pairs of a `width` by `height` array.
pub open spec fn index_domain(width: int, height: int) -> Set<(int, int)> {
    Set::new(|p: (int, int)| 0 <= p.0 < width && 0 <= p.1 < height)
}

/// `d` if it is not zero, else 1: ndarray bounds the product of the
/// non-zero axis lengths.
pub open spec fn nonzero_or_one(d: int) -> int {
    if d == 0 { 1 } else { d }
}

/// `ndarray::Array2::from_elem((width, height), v)`: an array of the given
/// shape whose every flag is `v`. The call panics when the product of the
/// non-zero axis lengths exceeds `isize::MAX`, which `requires` leaves out.
#[verifier::external_body]
pub(crate) fn flags_from_elem(width: usize, height: usize, v: bool) -> (a: SolidFlags)
    requires
        nonzero_or_one(width as int) * nonzero_or_one(height as int) <= isize::MAX,
    ensures
        flag_cells(a).dom() == index_domain(width as int, height as int),
        forall|x: int, y: int|
            0 <= x < width && 0 <= y < height ==> #[trigger] flag_cells(a)[(x, y)] == v,
{
    SolidFlags { cells: Array2::from_elem((width, height), v) }
}

/// `a[[x, y]]` (the `Index` impl of `ndarray::ArrayBase`): the flag stored at
/// `(x, y)`. The call panics out of bounds, which `requires` leaves out.
#[verifier::external_body]
pub(crate) fn flag_get(a: &SolidFlags, x: usize, y: usize) -> (v: bool)
    requires
        flag_cells(*a).dom().contains((x as int, y as int)),
    ensures
        v == flag_cells(*a)[(x as int, y as int)],
{
    a.cells[[x, y]]
}

/// `a[[x, y]] = v` (the `IndexMut` impl of `ndarray::ArrayBase`): overwrites
/// the flag at `(x, y)` and no other. The call panics out of bounds, which
/// `requires` leaves out.
#[verifier::external_body]
pub(crate) fn flag_set(a: &mut SolidFlags, x: usize, y: usize, v: bool)
    requires
        flag_cells(*old(a)).dom().contains((x as int, y as int)),
    ensures
        flag_cells(*final(a)) == flag_cells(*old(a)).insert((x as int, y as int), v),
{
    a.cells[[x, y]] = v;
}

} // verus!
