//! Lattice constants of the D2Q9 model: nine discrete velocities per cell.
//!
//! Direction 0 is the resting population, 1..=4 move along the axes
//! (E, N, W, S) and 5..=8 move diagonally (NE, NW, SW, SE). The lattice
//! weights are real numbers and live with the floating-point physics of the
//! application; everything here is integral.
use vstd::prelude::*;

verus! {

/// Number of discrete velocities per lattice cell.
pub const Q: usize = 9;

/// x component of the discrete velocity `e_i`.
pub const C_X: [i32; Q] = [0, 1, 0, -1, 0, 1, -1, -1, 1];

/// y component of the discrete velocity `e_i`.
pub const C_Y: [i32; Q] = [0, 0, 1, 0, -1, 1, 1, -1, -1];

/// `OPPOSITE[i]` is the direction that reverses `e_i`; bounce-back uses it.
pub const OPPOSITE: [usize; Q] = [0, 3, 4, 1, 2, 7, 8, 5, 6];

/// x component of `e_i`, as a mathematical integer.
pub open spec fn cx(i: int) -> int {
    C_X@[i] as int
}

/// y component of `e_i`, as a mathematical integer.
pub open spec fn cy(i: int) -> int {
    C_Y@[i] as int
}

/// The direction opposite to `i`.
pub open spec fn opp(i: int) -> int {
    OPPOSITE@[i] as int
}

/// Every velocity component is -1, 0 or 1.
pub proof fn lemma_unit_velocities(i: int)
    requires
        0 <= i < Q,
    ensures
        -1 <= cx(i) <= 1,
        -1 <= cy(i) <= 1,
{
}

/// Reversing a direction twice gives it back, and the opposite of a
/// direction is a direction.
pub proof fn lemma_opposite_involution(i: int)
    requires
        0 <= i < Q,
    ensures
        0 <= opp(i) < Q,
        opp(opp(i)) == i,
{
}

/// The opposite direction moves the other way: `e_opp(i) == -e_i`.
/// Only the resting direction is its own opposite.
pub proof fn lemma_opposite_reverses(i: int)
    requires
        0 <= i < Q,
    ensures
        cx(opp(i)) == -cx(i),
        cy(opp(i)) == -cy(i),
        (opp(i) == i) <==> (i == 0),
{
}

/// The nine velocities are pairwise distinct, and the resting one is zero.
pub proof fn lemma_velocities_distinct(i: int, j: int)
    requires
        0 <= i < Q,
        0 <= j < Q,
        i != j,
    ensures
        cx(i) != cx(j) || cy(i) != cy(j),
        (cx(i) == 0 && cy(i) == 0) <==> i == 0,
{
}

/// The direction table of the D2Q9 lattice: 0 rests; 1 to 4 move east,
/// north, west and south; 5 to 8 move north-east, north-west, south-west
/// and south-east.
pub proof fn lemma_direction_table()
    ensures
        cx(0) == 0 && cy(0) == 0,
        cx(1) == 1 && cy(1) == 0,
        cx(2) == 0 && cy(2) == 1,
        cx(3) == -1 && cy(3) == 0,
        cx(4) == 0 && cy(4) == -1,
        cx(5) == 1 && cy(5) == 1,
        cx(6) == -1 && cy(6) == 1,
        cx(7) == -1 && cy(7) == -1,
        cx(8) == 1 && cy(8) == -1,
{
}

} // verus!
